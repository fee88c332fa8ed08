//! Storage and retrieval of named funds: a collection keyed by unique
//! fund name, together with the line-oriented `name:amount:goal` text
//! format it is saved in and loaded from.

use vstd::prelude::*;

use crate::digits::int_text;
use crate::digits::is_digit;
use crate::digits::lemma_dec_digits_are_digits;
use crate::digits::lemma_int_text_chars;
use crate::digits::lemma_parse_int_text;
use crate::digits::parse_i32;
use crate::digits::parse_int;
use crate::fund::display_ok;
use crate::fund::fund_text;
use crate::fund::Fund;
use crate::text::align_right;
use crate::text::aligned_right;
use crate::text::lemma_split_full_append;
use crate::text::lemma_split_full_no_sep;
use crate::text::lemma_split_term_fields;
use crate::text::split_full;
use crate::text::split_on;
use crate::text::split_term;
use crate::text::str_eq;

verus! {

/// The error returned when a fund could not be found.
#[derive(Debug)]
pub struct FundNotFoundError {
    pub name: String,
}

impl FundNotFoundError {
    /// The user-facing description of the error.
    pub fn message(&self) -> (r: String)
        ensures
            r@ == "fund '"@ + self.name@ + "' not found"@,
    {
        let mut r = String::from_str("fund '");
        r.append(self.name.as_str());
        r.append("' not found");
        r
    }
}

/// The error returned when attempting to create or rename a fund to a
/// name that already exists.
#[derive(Debug)]
pub struct DuplicateFundError {
    pub name: String,
}

impl DuplicateFundError {
    /// The user-facing description of the error.
    pub fn message(&self) -> (r: String)
        ensures
            r@ == "fund '"@ + self.name@ + "' already exists. Please choose a different name"@,
    {
        let mut r = String::from_str("fund '");
        r.append(self.name.as_str());
        r.append("' already exists. Please choose a different name");
        r
    }
}

/// The error returned when the stored fund file does not follow the
/// `name:amount:goal` line format; `line` is the 1-based number of
/// the first offending line.
#[derive(Debug)]
pub struct ParseError {
    pub line: usize,
}

impl ParseError {
    /// The user-facing description of the error.
    pub fn message(&self) -> (r: String)
        ensures
            r@ == "fund file line "@ + crate::digits::int_text(self.line as int) + " is invalid"@,
    {
        let mut r = String::from_str("fund file line ");
        let n = crate::digits::usize_to_text(self.line);
        r.append(n.as_str());
        r.append(" is invalid");
        r
    }
}

/// A failure reported by the filesystem, carried as its rendered
/// description; the manager itself never produces one, but callers
/// that do the actual reading and writing report theirs through it.
#[derive(Debug)]
pub struct IoError {
    pub message: String,
}

/// Any error a fund operation can surface: a missing fund, a name
/// collision, a malformed fund file, or a filesystem failure.
#[derive(Debug)]
pub enum FundManagerError {
    FundNotFound(FundNotFoundError),
    DuplicateFund(DuplicateFundError),
    Parse(ParseError),
    Io(IoError),
}

impl FundManagerError {
    /// The user-facing description of the error.
    pub fn message(&self) -> (r: String)
        ensures
            match self {
                FundManagerError::FundNotFound(e) => r@ == "fund '"@ + e.name@ + "' not found"@,
                FundManagerError::DuplicateFund(e) => r@ == "fund '"@ + e.name@
                    + "' already exists. Please choose a different name"@,
                FundManagerError::Parse(e) => r@ == "fund file line "@ + crate::digits::int_text(
                    e.line as int,
                ) + " is invalid"@,
                FundManagerError::Io(e) => r@ == e.message@,
            },
    {
        match self {
            FundManagerError::FundNotFound(e) => e.message(),
            FundManagerError::DuplicateFund(e) => e.message(),
            FundManagerError::Parse(e) => e.message(),
            FundManagerError::Io(e) => e.message.clone(),
        }
    }
}

/// The name/fund entries denoted by a sequence of stored pairs: each
/// name replaced by its character sequence.
pub open spec fn entries_of(vs: Seq<(String, Fund)>) -> Seq<(Seq<char>, Fund)> {
    Seq::new(vs.len(), |i: int| (vs[i].0@, vs[i].1))
}

/// The names of a sequence of entries, in order.
pub open spec fn names_of(es: Seq<(Seq<char>, Fund)>) -> Seq<Seq<char>> {
    Seq::new(es.len(), |i: int| es[i].0)
}

/// Whether no name occurs twice among the entries.
pub open spec fn unique_names(es: Seq<(Seq<char>, Fund)>) -> bool {
    forall|i: int, j: int| 0 <= i < j < es.len() ==> es[i].0 != es[j].0
}

/// The mapping denoted by a sequence of name/fund entries, a later
/// entry overriding an earlier one of the same name.
pub open spec fn map_of(es: Seq<(Seq<char>, Fund)>) -> Map<Seq<char>, Fund>
    decreases es.len(),
{
    if es.len() == 0 {
        Map::empty()
    } else {
        map_of(es.drop_last()).insert(es.last().0, es.last().1)
    }
}

/// A key is in the mapping exactly when some entry carries it.
pub proof fn lemma_map_of_contains(es: Seq<(Seq<char>, Fund)>, k: Seq<char>)
    ensures
        map_of(es).contains_key(k) <==> exists|i: int| 0 <= i < es.len() && es[i].0 == k,
    decreases es.len(),
{
    if es.len() > 0 {
        let prev = es.drop_last();
        lemma_map_of_contains(prev, k);
        if map_of(es).contains_key(k) {
            if k == es.last().0 {
                assert(es[es.len() - 1].0 == k);
            } else {
                let i = choose|i: int| 0 <= i < prev.len() && prev[i].0 == k;
                assert(es[i].0 == k);
            }
        }
        if exists|i: int| 0 <= i < es.len() && es[i].0 == k {
            let i = choose|i: int| 0 <= i < es.len() && es[i].0 == k;
            if i < es.len() - 1 {
                assert(prev[i].0 == k);
            }
        }
    }
}

/// An entry whose name no later entry repeats decides the mapping at
/// its name.
pub proof fn lemma_map_of_index(es: Seq<(Seq<char>, Fund)>, i: int)
    requires
        0 <= i < es.len(),
        forall|j: int| i < j < es.len() ==> es[j].0 != es[i].0,
    ensures
        map_of(es).contains_key(es[i].0),
        map_of(es)[es[i].0] == es[i].1,
    decreases es.len(),
{
    if i < es.len() - 1 {
        let prev = es.drop_last();
        lemma_map_of_index(prev, i);
        assert(es.last().0 != es[i].0);
    }
}

/// With no name repeated, the mapping has exactly one key per entry.
pub proof fn lemma_map_of_len(es: Seq<(Seq<char>, Fund)>)
    requires
        unique_names(es),
    ensures
        map_of(es).dom().finite(),
        map_of(es).len() == es.len(),
    decreases es.len(),
{
    if es.len() > 0 {
        let prev = es.drop_last();
        lemma_map_of_len(prev);
        lemma_map_of_contains(prev, es.last().0);
    }
}

/// Replacing the fund of one entry, name kept, replaces that name's
/// value in the mapping.
pub proof fn lemma_map_of_update(es: Seq<(Seq<char>, Fund)>, i: int, f: Fund)
    requires
        0 <= i < es.len(),
        unique_names(es),
    ensures
        map_of(es.update(i, (es[i].0, f))) == map_of(es).insert(es[i].0, f),
    decreases es.len(),
{
    let k = es[i].0;
    let es2 = es.update(i, (k, f));
    if i == es.len() - 1 {
        assert(es2.drop_last() =~= es.drop_last());
        assert(es2.last() == (k, f));
        assert(map_of(es.drop_last()).insert(k, es.last().1).insert(k, f) =~= map_of(
            es.drop_last(),
        ).insert(k, f));
    } else {
        let prev = es.drop_last();
        assert(forall|a: int, b: int| 0 <= a < b < prev.len() ==> prev[a].0 != prev[b].0);
        assert(prev[i] == es[i]);
        lemma_map_of_update(prev, i, f);
        assert(es2.drop_last() =~= prev.update(i, (k, f)));
        assert(es2.last() == es.last());
        assert(es.last().0 != k);
        assert(map_of(prev).insert(k, f).insert(es.last().0, es.last().1) =~= map_of(prev).insert(
            es.last().0,
            es.last().1,
        ).insert(k, f));
    }
}

/// Dropping one entry removes exactly its name from the mapping.
pub proof fn lemma_map_of_remove(es: Seq<(Seq<char>, Fund)>, i: int)
    requires
        0 <= i < es.len(),
        unique_names(es),
    ensures
        map_of(es.remove(i)) == map_of(es).remove(es[i].0),
    decreases es.len(),
{
    let k = es[i].0;
    if i == es.len() - 1 {
        assert(es.remove(i) =~= es.drop_last());
        lemma_map_of_contains(es.drop_last(), k);
        assert(forall|j: int| 0 <= j < es.len() - 1 ==> es[j].0 != k);
        assert(!map_of(es.drop_last()).contains_key(k));
        assert(map_of(es.drop_last()).insert(k, es.last().1).remove(k) =~= map_of(es.drop_last()));
    } else {
        let prev = es.drop_last();
        assert(forall|a: int, b: int| 0 <= a < b < prev.len() ==> prev[a].0 != prev[b].0);
        lemma_map_of_remove(prev, i);
        assert(es.remove(i).drop_last() =~= prev.remove(i));
        assert(es.remove(i).last() == es.last());
        assert(es.last().0 != k);
        assert(map_of(prev).remove(k).insert(es.last().0, es.last().1) =~= map_of(prev).insert(
            es.last().0,
            es.last().1,
        ).remove(k));
    }
}

/// Replacing the fund of one stored pair, name kept, is the entry
/// update at the same position.
pub proof fn lemma_entries_of_update(vs: Seq<(String, Fund)>, i: int, e: (String, Fund))
    requires
        0 <= i < vs.len(),
    ensures
        entries_of(vs.update(i, e)) == entries_of(vs).update(i, (e.0@, e.1)),
{
    assert(entries_of(vs.update(i, e)) =~= entries_of(vs).update(i, (e.0@, e.1)));
}

/// Updating an entry in place keeps the names and their uniqueness.
pub proof fn lemma_update_keeps_names(es: Seq<(Seq<char>, Fund)>, i: int, f: Fund)
    requires
        0 <= i < es.len(),
    ensures
        names_of(es.update(i, (es[i].0, f))) == names_of(es),
        unique_names(es) ==> unique_names(es.update(i, (es[i].0, f))),
{
    assert(names_of(es.update(i, (es[i].0, f))) =~= names_of(es));
    let es2 = es.update(i, (es[i].0, f));
    if unique_names(es) {
        assert forall|a: int, b: int| 0 <= a < b < es2.len() implies es2[a].0 != es2[b].0 by {
            assert(es2[a].0 == es[a].0);
            assert(es2[b].0 == es[b].0);
        }
    }
}

/// Manages storage and retrieval of funds, keyed by fund name; names
/// are unique, and entries keep the order in which they were added.
#[derive(Debug, Clone)]
pub struct FundManager {
    funds: Vec<(String, Fund)>,
}

impl View for FundManager {
    type V = Map<Seq<char>, Fund>;

    open spec fn view(&self) -> Map<Seq<char>, Fund> {
        map_of(self.entries())
    }
}

impl FundManager {
    /// The stored entries, in storage order, each a name with its
    /// fund.
    pub closed spec fn entries(&self) -> Seq<(Seq<char>, Fund)> {
        entries_of(self.funds@)
    }

    /// The stored names, in storage order.
    pub open spec fn names(&self) -> Seq<Seq<char>> {
        names_of(self.entries())
    }

    /// Well-formed: no fund name occurs twice.
    pub open spec fn wf(&self) -> bool {
        unique_names(self.entries())
    }

    /// Returns a new, empty manager.
    pub fn new() -> (r: FundManager)
        ensures
            r.wf(),
            r@ == Map::<Seq<char>, Fund>::empty(),
            r.entries() == Seq::<(Seq<char>, Fund)>::empty(),
    {
        let r = FundManager { funds: Vec::new() };
        proof {
            assert(r.entries() =~= Seq::<(Seq<char>, Fund)>::empty());
        }
        r
    }

    /// The position of the entry named `name`, if any.
    fn index_of(&self, name: &str) -> (r: Option<usize>)
        ensures
            match r {
                Some(i) => i < self.entries().len() && self.entries()[i as int].0 == name@,
                None => forall|i: int|
                    0 <= i < self.entries().len() ==> self.entries()[i].0 != name@,
            },
    {
        let n = self.funds.len();
        let mut i: usize = 0;
        while i < n
            invariant
                0 <= i <= n,
                n == self.funds.len(),
                forall|j: int| 0 <= j < i ==> self.entries()[j].0 != name@,
            decreases n - i,
        {
            if str_eq(self.funds[i].0.as_str(), name) {
                return Some(i);
            }
            i += 1;
        }
        None
    }

    /// Whether a fund named `name` is stored.
    pub fn contains(&self, name: &str) -> (r: bool)
        ensures
            r == self@.contains_key(name@),
    {
        proof {
            lemma_map_of_contains(self.entries(), name@);
        }
        match self.index_of(name) {
            Some(_) => true,
            None => false,
        }
    }

    /// The number of funds stored.
    pub fn len(&self) -> (r: usize)
        requires
            self.wf(),
        ensures
            r == self@.len(),
            r == self.entries().len(),
    {
        proof {
            lemma_map_of_len(self.entries());
        }
        self.funds.len()
    }

    /// Takes the name of a fund and returns a reference to it, or an
    /// error if no fund of that name exists.
    pub fn fund(&self, name: &str) -> (r: Result<&Fund, FundNotFoundError>)
        requires
            self.wf(),
        ensures
            match r {
                Ok(f) => self@.contains_key(name@) && *f == self@[name@],
                Err(e) => !self@.contains_key(name@) && e.name@ == name@,
            },
    {
        proof {
            lemma_map_of_contains(self.entries(), name@);
        }
        match self.index_of(name) {
            Some(i) => {
                proof {
                    lemma_map_of_index(self.entries(), i as int);
                }
                Ok(&self.funds[i].1)
            },
            None => Err(FundNotFoundError { name: name.to_owned() }),
        }
    }

    /// Takes the name of a fund and returns a mutable reference to
    /// it, or an error if no fund of that name exists; a missing name
    /// never creates an entry.
    pub fn fund_mut(&mut self, name: &str) -> (r: Result<&mut Fund, FundNotFoundError>)
        requires
            old(self).wf(),
        ensures
            old(self)@.contains_key(name@) ==> (match r {
                Ok(f) => *f == old(self)@[name@] && final(self).wf() && final(self).names() == old(
                    self,
                ).names() && final(self)@ == old(self)@.insert(name@, *final(f)),
                Err(_) => false,
            }),
            !old(self)@.contains_key(name@) ==> (match r {
                Ok(_) => false,
                Err(e) => e.name@ == name@ && *final(self) == *old(self),
            }),
    {
        proof {
            lemma_map_of_contains(self.entries(), name@);
        }
        match self.index_of(name) {
            Some(i) => {
                proof {
                    lemma_map_of_index(self.entries(), i as int);
                    assert forall|f2: Fund|
                        #[trigger] entries_of(
                            self.funds@.update(i as int, (self.funds@[i as int].0, f2)),
                        ) == self.entries().update(i as int, (name@, f2)) by {
                        lemma_entries_of_update(
                            self.funds@,
                            i as int,
                            (self.funds@[i as int].0, f2),
                        );
                        assert(self.entries()[i as int].0 == name@);
                    }
                    assert forall|f2: Fund|
                        #[trigger] map_of(self.entries().update(i as int, (name@, f2)))
                            == self@.insert(name@, f2) by {
                        assert(self.entries()[i as int].0 == name@);
                        lemma_map_of_update(self.entries(), i as int, f2);
                    }
                    assert forall|f2: Fund|
                        names_of(#[trigger] self.entries().update(i as int, (name@, f2)))
                            == self.names() && unique_names(
                            self.entries().update(i as int, (name@, f2)),
                        ) by {
                        assert(self.entries()[i as int].0 == name@);
                        lemma_update_keeps_names(self.entries(), i as int, f2);
                    }
                }
                Ok(&mut self.funds[i].1)
            },
            None => Err(FundNotFoundError { name: name.to_owned() }),
        }
    }

    /// Takes the name of a fund and returns a mutable reference to it,
    /// or a plain error message if no fund of that name exists.
    pub fn get_fund_by_name(&mut self, name: &str) -> (r: Result<&mut Fund, &'static str>)
        requires
            old(self).wf(),
        ensures
            old(self)@.contains_key(name@) ==> (match r {
                Ok(f) => *f == old(self)@[name@] && final(self).wf() && final(self).names() == old(
                    self,
                ).names() && final(self)@ == old(self)@.insert(name@, *final(f)),
                Err(_) => false,
            }),
            !old(self)@.contains_key(name@) ==> (match r {
                Ok(_) => false,
                Err(e) => e@ == "cannot find the fund"@ && *final(self) == *old(self),
            }),
    {
        match self.fund_mut(name) {
            Ok(f) => Ok(f),
            Err(_) => Err("cannot find the fund"),
        }
    }

    /// Adds a new fund to the manager, or fails without touching
    /// anything when the name is already in use.
    pub fn add_fund(&mut self, name: &str, fund: Fund) -> (r: Result<(), DuplicateFundError>)
        requires
            old(self).wf(),
        ensures
            final(self).wf(),
            match r {
                Ok(_) => !old(self)@.contains_key(name@) && final(self)@ == old(self)@.insert(
                    name@,
                    fund,
                ) && final(self).names() == old(self).names().push(name@),
                Err(e) => old(self)@.contains_key(name@) && e.name@ == name@ && *final(self)
                    == *old(self),
            },
    {
        proof {
            lemma_map_of_contains(self.entries(), name@);
        }
        if self.contains(name) {
            return Err(DuplicateFundError { name: name.to_owned() });
        }
        let ghost es0 = self.entries();
        self.funds.push((name.to_owned(), fund));
        proof {
            assert(self.entries() =~= es0.push((name@, fund)));
            assert(self.entries().drop_last() =~= es0);
            assert(self.entries().last() == (name@, fund));
            assert(names_of(self.entries()) =~= names_of(es0).push(name@));
            assert forall|a: int, b: int|
                0 <= a < b < self.entries().len() implies self.entries()[a].0
                != self.entries()[b].0 by {
                if b == self.entries().len() - 1 {
                    assert(es0[a].0 != name@);
                }
            }
        }
        Ok(())
    }
}

/// Dropping an entry keeps the remaining names unique.
proof fn lemma_remove_keeps_unique(es: Seq<(Seq<char>, Fund)>, i: int)
    requires
        0 <= i < es.len(),
        unique_names(es),
    ensures
        unique_names(es.remove(i)),
{
    let es2 = es.remove(i);
    assert forall|a: int, b: int| 0 <= a < b < es2.len() implies es2[a].0 != es2[b].0 by {
        let a0 = if a < i {
            a
        } else {
            a + 1
        };
        let b0 = if b < i {
            b
        } else {
            b + 1
        };
        assert(es2[a] == es[a0]);
        assert(es2[b] == es[b0]);
    }
}

impl FundManager {
    /// Stores `fund` under `name` with plain mapping semantics: a new
    /// entry when the name is absent, replacing the old fund when it
    /// is present.
    pub fn store(&mut self, name: String, fund: Fund)
        requires
            old(self).wf(),
        ensures
            final(self).wf(),
            final(self)@ == old(self)@.insert(name@, fund),
    {
        let ghost m0 = self@;
        match self.index_of(name.as_str()) {
            Some(i) => {
                let ghost es0 = self.entries();
                self.funds.remove(i);
                proof {
                    assert(self.entries() =~= es0.remove(i as int));
                    lemma_map_of_remove(es0, i as int);
                    lemma_remove_keeps_unique(es0, i as int);
                    assert forall|j: int|
                        0 <= j < self.entries().len() implies self.entries()[j].0 != name@ by {
                        if j < i {
                            assert(self.entries()[j] == es0[j]);
                        } else {
                            assert(self.entries()[j] == es0[j + 1]);
                        }
                    }
                }
                let ghost es1 = self.entries();
                self.funds.push((name, fund));
                proof {
                    assert(self.entries() =~= es1.push((name@, fund)));
                    assert(self.entries().drop_last() =~= es1);
                    assert(self.entries().last() == (name@, fund));
                    assert(map_of(self.entries()) =~= m0.insert(name@, fund));
                }
            },
            None => {
                let ghost es0 = self.entries();
                self.funds.push((name, fund));
                proof {
                    assert(self.entries() =~= es0.push((name@, fund)));
                    assert(self.entries().drop_last() =~= es0);
                    assert(self.entries().last() == (name@, fund));
                    assert forall|a: int, b: int|
                        0 <= a < b < self.entries().len() implies self.entries()[a].0
                        != self.entries()[b].0 by {
                        if b == self.entries().len() - 1 {
                            assert(es0[a].0 != name@);
                        }
                    }
                }
            },
        }
    }

    /// Renames a fund, transactionally: when the new name is already
    /// taken, or the old one is missing, nothing changes.
    pub fn rename(&mut self, old_name: &str, new_name: &str) -> (r: Result<(), FundManagerError>)
        requires
            old(self).wf(),
        ensures
            final(self).wf(),
            match r {
                Ok(_) => old(self)@.contains_key(old_name@) && (old_name@ == new_name@ || !old(
                    self,
                )@.contains_key(new_name@)) && final(self)@ == old(self)@.remove(
                    old_name@,
                ).insert(new_name@, old(self)@[old_name@]),
                Err(FundManagerError::FundNotFound(e)) => !old(self)@.contains_key(old_name@)
                    && e.name@ == old_name@ && *final(self) == *old(self),
                Err(FundManagerError::DuplicateFund(e)) => old(self)@.contains_key(old_name@)
                    && old(self)@.contains_key(new_name@) && old_name@ != new_name@ && e.name@
                    == new_name@ && *final(self) == *old(self),
                Err(_) => false,
            },
    {
        proof {
            lemma_map_of_contains(self.entries(), old_name@);
            lemma_map_of_contains(self.entries(), new_name@);
        }
        match self.index_of(old_name) {
            None => Err(
                FundManagerError::FundNotFound(FundNotFoundError { name: old_name.to_owned() }),
            ),
            Some(i) => {
                let same = str_eq(old_name, new_name);
                if !same && self.contains(new_name) {
                    return Err(
                        FundManagerError::DuplicateFund(
                            DuplicateFundError { name: new_name.to_owned() },
                        ),
                    );
                }
                proof {
                    lemma_map_of_index(self.entries(), i as int);
                }
                let ghost m0 = self@;
                let f = self.funds[i].1;
                let ghost es0 = self.entries();
                self.funds.remove(i);
                proof {
                    assert(self.entries() =~= es0.remove(i as int));
                    lemma_map_of_remove(es0, i as int);
                    lemma_remove_keeps_unique(es0, i as int);
                    assert forall|j: int|
                        0 <= j < self.entries().len() implies self.entries()[j].0 != new_name@ by {
                        if j < i {
                            assert(self.entries()[j] == es0[j]);
                        } else {
                            assert(self.entries()[j] == es0[j + 1]);
                        }
                        if same {
                            assert(old_name@ == new_name@);
                        }
                    }
                }
                let ghost es1 = self.entries();
                self.funds.push((new_name.to_owned(), f));
                proof {
                    assert(self.entries() =~= es1.push((new_name@, f)));
                    assert(self.entries().drop_last() =~= es1);
                    assert(self.entries().last() == (new_name@, f));
                    assert forall|a: int, b: int|
                        0 <= a < b < self.entries().len() implies self.entries()[a].0
                        != self.entries()[b].0 by {
                        if b == self.entries().len() - 1 {
                            assert(es1[a].0 != new_name@);
                        }
                    }
                    assert(map_of(self.entries()) == m0.remove(old_name@).insert(new_name@, f));
                }
                Ok(())
            },
        }
    }
}

/// A name that the fund file can carry on one line: free of the colon
/// that delimits fields and of the newline that delimits lines.
pub open spec fn line_safe(name: Seq<char>) -> bool {
    forall|j: int| 0 <= j < name.len() ==> (name[j] != ':' && name[j] != '\n')
}

/// One stored fund as a line body: `name:amount:goal`.
pub open spec fn bare_line(name: Seq<char>, f: Fund) -> Seq<char> {
    name + seq![':'] + int_text(f.amount as int) + seq![':'] + int_text(f.goal as int)
}

/// One stored fund as a full line, newline terminator included.
pub open spec fn line_text(name: Seq<char>, f: Fund) -> Seq<char> {
    bare_line(name, f) + seq!['\n']
}

/// The whole fund file: one line per entry, in storage order.
pub open spec fn entries_text(es: Seq<(Seq<char>, Fund)>) -> Seq<char>
    decreases es.len(),
{
    if es.len() == 0 {
        Seq::empty()
    } else {
        entries_text(es.drop_last()) + line_text(es.last().0, es.last().1)
    }
}

/// The entry denoted by one line of the fund file, if any: at least
/// three colon-delimited fields, the second and third in-range
/// integers; fields past the third are ignored.
pub open spec fn parse_line(s: Seq<char>) -> Option<(Seq<char>, Fund)> {
    let fields = split_term(s, ':');
    if fields.len() < 3 {
        None
    } else {
        match (parse_int(fields[1]), parse_int(fields[2])) {
            (Some(a), Some(g)) => if i32::MIN <= a <= i32::MAX && i32::MIN <= g <= i32::MAX {
                Some((fields[0], Fund { amount: a as i32, goal: g as i32 }))
            } else {
                None
            },
            _ => None,
        }
    }
}

/// The mapping denoted by a sequence of lines: every line must parse,
/// and a later line overrides an earlier one of the same name.
pub open spec fn parse_lines(ls: Seq<Seq<char>>) -> Option<Map<Seq<char>, Fund>>
    decreases ls.len(),
{
    if ls.len() == 0 {
        Some(Map::<Seq<char>, Fund>::empty())
    } else {
        match (parse_lines(ls.drop_last()), parse_line(ls.last())) {
            (Some(m), Some(e)) => Some(m.insert(e.0, e.1)),
            _ => None,
        }
    }
}

/// The mapping denoted by a whole fund file.
pub open spec fn parse_text(t: Seq<char>) -> Option<Map<Seq<char>, Fund>> {
    parse_lines(split_term(t, '\n'))
}

/// When a sequence of lines parses as a whole, each line parses.
pub proof fn lemma_parse_lines_each(ls: Seq<Seq<char>>)
    requires
        parse_lines(ls) is Some,
    ensures
        forall|j: int| 0 <= j < ls.len() ==> parse_line(ls[j]) is Some,
    decreases ls.len(),
{
    if ls.len() > 0 {
        lemma_parse_lines_each(ls.drop_last());
        assert forall|j: int| 0 <= j < ls.len() implies parse_line(ls[j]) is Some by {
            if j < ls.len() - 1 {
                assert(ls.drop_last()[j] == ls[j]);
            }
        }
    }
}

/// The decimal text of an integer holds no field or line delimiter,
/// and ends in a digit.
proof fn lemma_int_text_not_delim(v: int)
    ensures
        forall|j: int|
            0 <= j < int_text(v).len() ==> (int_text(v)[j] != ':' && int_text(v)[j] != '\n'),
        int_text(v).len() >= 1,
        is_digit(int_text(v).last()),
{
    lemma_int_text_chars(v);
    assert forall|j: int|
        0 <= j < int_text(v).len() implies (int_text(v)[j] != ':' && int_text(v)[j]
        != '\n') by {
        assert(is_digit(int_text(v)[j]) || int_text(v)[j] == '-');
    }
    if v < 0 {
        lemma_dec_digits_are_digits((-v) as nat);
        assert(int_text(v).last() == crate::digits::dec_digits((-v) as nat).last());
    } else {
        lemma_dec_digits_are_digits(v as nat);
    }
}

/// A line body holds no newline.
proof fn lemma_bare_line_no_newline(name: Seq<char>, f: Fund)
    requires
        line_safe(name),
    ensures
        forall|j: int| 0 <= j < bare_line(name, f).len() ==> bare_line(name, f)[j] != '\n',
{
    let a = int_text(f.amount as int);
    let g = int_text(f.goal as int);
    lemma_int_text_not_delim(f.amount as int);
    lemma_int_text_not_delim(f.goal as int);
    let s = bare_line(name, f);
    let nl = name.len() as int;
    let al = a.len() as int;
    assert forall|j: int| 0 <= j < s.len() implies s[j] != '\n' by {
        if j < nl {
            assert(s[j] == name[j]);
        } else if j == nl {
            assert(s[j] == ':');
        } else if j < nl + 1 + al {
            assert(s[j] == a[j - nl - 1]);
        } else if j == nl + 1 + al {
            assert(s[j] == ':');
        } else {
            assert(s[j] == g[j - nl - al - 2]);
        }
    }
}

/// A line body parses back to exactly the entry it was written from.
proof fn lemma_parse_bare_line(name: Seq<char>, f: Fund)
    requires
        line_safe(name),
    ensures
        parse_line(bare_line(name, f)) == Some((name, f)),
{
    let a = int_text(f.amount as int);
    let g = int_text(f.goal as int);
    lemma_int_text_not_delim(f.amount as int);
    lemma_int_text_not_delim(f.goal as int);
    let s = bare_line(name, f);
    assert(s =~= name + seq![':'] + (a + seq![':'] + g));
    lemma_split_full_append(name, a + seq![':'] + g, ':');
    lemma_split_full_append(a, g, ':');
    lemma_split_full_no_sep(name, ':');
    lemma_split_full_no_sep(a, ':');
    lemma_split_full_no_sep(g, ':');
    assert(split_full(s, ':') == seq![name] + (seq![a] + seq![g]));
    assert(s.last() == g.last());
    assert(s.last() != ':');
    assert(split_term(s, ':') =~= seq![name, a, g]);
    lemma_parse_int_text(f.amount as int);
    lemma_parse_int_text(f.goal as int);
    assert(split_term(s, ':')[0] == name);
    assert(split_term(s, ':')[1] == a);
    assert(split_term(s, ':')[2] == g);
}

/// The line bodies of a sequence of entries, in order.
spec fn lines_of(es: Seq<(Seq<char>, Fund)>) -> Seq<Seq<char>> {
    Seq::new(es.len(), |i: int| bare_line(es[i].0, es[i].1))
}

/// Splitting the rendered fund file into lines recovers exactly the
/// line bodies of its entries.
proof fn lemma_entries_text_split(es: Seq<(Seq<char>, Fund)>)
    requires
        forall|i: int| 0 <= i < es.len() ==> line_safe(#[trigger] es[i].0),
        es.len() >= 1,
    ensures
        entries_text(es).len() >= 1,
        entries_text(es).last() == '\n',
        split_full(entries_text(es).drop_last(), '\n') == lines_of(es),
    decreases es.len(),
{
    let bl = bare_line(es.last().0, es.last().1);
    lemma_bare_line_no_newline(es.last().0, es.last().1);
    if es.len() == 1 {
        assert(entries_text(es.drop_last()) == Seq::<char>::empty());
        assert(entries_text(es) == entries_text(es.drop_last()) + line_text(
            es.last().0,
            es.last().1,
        ));
        assert(entries_text(es) =~= bl + seq!['\n']);
        assert(entries_text(es).drop_last() =~= bl);
        lemma_split_full_no_sep(bl, '\n');
        assert(lines_of(es) =~= seq![bl]);
    } else {
        let prev = es.drop_last();
        lemma_entries_text_split(prev);
        let tp = entries_text(prev);
        assert(entries_text(es) == tp + line_text(es.last().0, es.last().1));
        assert(entries_text(es).last() == '\n');
        assert(entries_text(es).drop_last() =~= tp.drop_last() + seq!['\n'] + bl);
        lemma_split_full_append(tp.drop_last(), bl, '\n');
        lemma_split_full_no_sep(bl, '\n');
        assert(split_full(entries_text(es).drop_last(), '\n') == lines_of(prev) + seq![bl]);
        assert(lines_of(prev) + seq![bl] =~= lines_of(es));
    }
}

/// Parsing the line bodies of a sequence of entries yields exactly
/// its mapping.
proof fn lemma_parse_lines_of(es: Seq<(Seq<char>, Fund)>)
    requires
        forall|i: int| 0 <= i < es.len() ==> line_safe(#[trigger] es[i].0),
    ensures
        parse_lines(lines_of(es)) == Some(map_of(es)),
    decreases es.len(),
{
    if es.len() > 0 {
        let prev = es.drop_last();
        lemma_parse_lines_of(prev);
        assert(lines_of(es).drop_last() =~= lines_of(prev));
        assert(lines_of(es).last() == bare_line(es.last().0, es.last().1));
        lemma_parse_bare_line(es.last().0, es.last().1);
    }
}

/// Round trip of the storage format: the text a well-formed manager
/// is saved as parses back to exactly the manager's mapping, whenever
/// every stored name is free of the delimiters. A name carrying a
/// colon or a newline cannot survive the line format and is excluded;
/// whatever `from_text` built satisfies both conditions already.
pub proof fn lemma_save_load_round_trip(m: FundManager)
    requires
        m.wf(),
        forall|k: Seq<char>| m@.contains_key(k) ==> line_safe(k),
    ensures
        parse_text(entries_text(m.entries())) == Some(m@),
{
    let es = m.entries();
    assert forall|i: int| 0 <= i < es.len() implies line_safe(#[trigger] es[i].0) by {
        lemma_map_of_index(es, i);
        assert(m@.contains_key(es[i].0));
    }
    lemma_parse_lines_of(es);
    if es.len() == 0 {
        assert(entries_text(es).len() == 0);
        assert(split_term(entries_text(es), '\n') =~= Seq::<Seq<char>>::empty());
        assert(lines_of(es) =~= Seq::<Seq<char>>::empty());
    } else {
        lemma_entries_text_split(es);
        assert(split_term(entries_text(es), '\n') == split_full(
            entries_text(es).drop_last(),
            '\n',
        ));
    }
}

impl FundManager {
    /// Renders the whole manager in the fund-file format, one
    /// `name:amount:goal` line per fund, in storage order.
    pub fn to_text(&self) -> (r: String)
        ensures
            r@ == entries_text(self.entries()),
    {
        let n = self.funds.len();
        let mut r = String::new();
        let mut i: usize = 0;
        proof {
            assert(self.entries().subrange(0, 0) =~= Seq::<(Seq<char>, Fund)>::empty());
        }
        while i < n
            invariant
                0 <= i <= n,
                n == self.funds.len(),
                r@ == entries_text(self.entries().subrange(0, i as int)),
            decreases n - i,
        {
            r.append(self.funds[i].0.as_str());
            r.append(":");
            let a = crate::digits::i32_to_text(self.funds[i].1.amount);
            r.append(a.as_str());
            r.append(":");
            let g = crate::digits::i32_to_text(self.funds[i].1.goal);
            r.append(g.as_str());
            r.append("\n");
            proof {
                reveal_strlit(":");
                reveal_strlit("\n");
                let sub = self.entries().subrange(0, (i + 1) as int);
                assert(sub.drop_last() =~= self.entries().subrange(0, i as int));
                assert(sub.last() == self.entries()[i as int]);
                assert(r@ =~= entries_text(sub));
            }
            i += 1;
        }
        proof {
            assert(self.entries().subrange(0, n as int) =~= self.entries());
        }
        r
    }

    /// The entry denoted by one line of the fund file: splits on
    /// colons, demands at least three fields, and parses the second
    /// and third as integers.
    fn parse_line_exec(line: &str) -> (r: Option<(String, Fund)>)
        ensures
            match r {
                Some(e) => parse_line(line@) == Some((e.0@, e.1)),
                None => parse_line(line@) is None,
            },
    {
        let fields = split_on(line, ':');
        if fields.len() < 3 {
            return None;
        }
        proof {
            assert(fields@[1]@ == fields.deep_view()[1]);
            assert(fields@[2]@ == fields.deep_view()[2]);
            assert(fields@[0]@ == fields.deep_view()[0]);
        }
        let amount = parse_i32(fields[1].as_str());
        let goal = parse_i32(fields[2].as_str());
        match (amount, goal) {
            (Some(a), Some(g)) => Some((fields[0].clone(), Fund { amount: a, goal: g })),
            _ => None,
        }
    }

    /// Builds a manager from the stored fund-file text: one
    /// `name:amount:goal` entry per line, a later duplicate name
    /// silently overriding an earlier one. Fails on the first line
    /// with fewer than three colon-delimited fields or a non-integer
    /// amount or goal, reporting that line's 1-based number.
    pub fn from_text(text: &str) -> (r: Result<FundManager, ParseError>)
        ensures
            match r {
                Ok(m) => m.wf() && parse_text(text@) == Some(m@) && (forall|k: Seq<char>|
                    m@.contains_key(k) ==> line_safe(k)),
                Err(e) => ({
                    let lines = split_term(text@, '\n');
                    parse_text(text@) is None && 1 <= e.line <= lines.len() && parse_line(
                        lines[e.line - 1],
                    ) is None && (forall|j: int|
                        0 <= j < e.line - 1 ==> parse_line(#[trigger] lines[j]) is Some)
                }),
            },
    {
        let lines = split_on(text, '\n');
        let n = lines.len();
        let mut m = FundManager::new();
        let mut i: usize = 0;
        proof {
            assert(lines.deep_view().subrange(0, 0) =~= Seq::<Seq<char>>::empty());
        }
        while i < n
            invariant
                0 <= i <= n,
                n == lines@.len(),
                lines.deep_view() == split_term(text@, '\n'),
                m.wf(),
                forall|k: Seq<char>| m@.contains_key(k) ==> line_safe(k),
                parse_lines(lines.deep_view().subrange(0, i as int)) == Some(m@),
                forall|j: int| 0 <= j < i ==> parse_line(#[trigger] lines.deep_view()[j]) is Some,
            decreases n - i,
        {
            proof {
                assert(lines@[i as int]@ == lines.deep_view()[i as int]);
            }
            match Self::parse_line_exec(lines[i].as_str()) {
                Some(e) => {
                    let ghost m0 = m@;
                    let (name, fund) = e;
                    proof {
                        let line = lines.deep_view()[i as int];
                        lemma_split_term_fields(text@, '\n', |c: char| true);
                        assert(forall|j: int| 0 <= j < line.len() ==> #[trigger] line[j] != '\n');
                        lemma_split_term_fields(line, ':', |c: char| c != '\n');
                        assert(name@ == split_term(line, ':')[0]);
                        assert(line_safe(name@));
                    }
                    m.store(name, fund);
                    proof {
                        let sub = lines.deep_view().subrange(0, (i + 1) as int);
                        assert(sub.drop_last() =~= lines.deep_view().subrange(0, i as int));
                        assert(sub.last() == lines.deep_view()[i as int]);
                        assert(parse_lines(sub) == Some(m@));
                    }
                },
                None => {
                    proof {
                        if parse_lines(lines.deep_view()) is Some {
                            lemma_parse_lines_each(lines.deep_view());
                        }
                    }
                    return Err(ParseError { line: i + 1 });
                },
            }
            i += 1;
        }
        proof {
            assert(lines.deep_view().subrange(0, n as int) =~= lines.deep_view());
        }
        Ok(m)
    }
}

/// The mapping after merging an incoming sequence of pairs into `m`:
/// each pair is added only when its name is not yet present; on a
/// collision the pair is silently dropped, never overwriting.
pub open spec fn merged(m: Map<Seq<char>, Fund>, items: Seq<(Seq<char>, Fund)>) -> Map<
    Seq<char>,
    Fund,
>
    decreases items.len(),
{
    if items.len() == 0 {
        m
    } else {
        let m2 = if m.contains_key(items[0].0) {
            m
        } else {
            m.insert(items[0].0, items[0].1)
        };
        merged(m2, items.drop_first())
    }
}

/// The mapping after storing a sequence of pairs into `m` in order,
/// with plain insert semantics: a later pair overrides an earlier
/// one.
pub open spec fn inserted_all(m: Map<Seq<char>, Fund>, items: Seq<(Seq<char>, Fund)>) -> Map<
    Seq<char>,
    Fund,
>
    decreases items.len(),
{
    if items.len() == 0 {
        m
    } else {
        inserted_all(m.insert(items[0].0, items[0].1), items.drop_first())
    }
}

impl FundManager {
    /// Merges a collection of name/fund pairs into the manager. Pairs
    /// whose name is already present — in the manager, or earlier in
    /// the collection — are silently ignored, never overwriting; this
    /// is deliberately not `add_fund`'s error-on-duplicate policy.
    pub fn extend(&mut self, items: Vec<(String, Fund)>)
        requires
            old(self).wf(),
        ensures
            final(self).wf(),
            final(self)@ == merged(old(self)@, entries_of(items@)),
    {
        let ghost m_init = self@;
        let ghost pv = entries_of(items@);
        let n = items.len();
        let mut j: usize = 0;
        proof {
            assert(pv.skip(0) =~= pv);
        }
        while j < n
            invariant
                0 <= j <= n,
                n == items@.len(),
                pv == entries_of(items@),
                self.wf(),
                merged(m_init, pv) == merged(self@, pv.skip(j as int)),
            decreases n - j,
        {
            proof {
                assert(pv.skip(j as int)[0] == (items@[j as int].0@, items@[j as int].1));
                assert(pv.skip(j as int).drop_first() =~= pv.skip(j as int + 1));
            }
            let fund = items[j].1;
            if !self.contains(items[j].0.as_str()) {
                let _added = self.add_fund(items[j].0.as_str(), fund);
            }
            j += 1;
        }
        proof {
            assert(pv.skip(n as int) =~= Seq::<(Seq<char>, Fund)>::empty());
        }
    }

    /// Builds a manager from a sequence of name/fund pairs with plain
    /// mapping semantics: a later pair overrides an earlier one of
    /// the same name.
    pub fn from_pairs(items: Vec<(String, Fund)>) -> (r: FundManager)
        ensures
            r.wf(),
            r@ == inserted_all(Map::<Seq<char>, Fund>::empty(), entries_of(items@)),
    {
        let ghost pv = entries_of(items@);
        let mut m = FundManager::new();
        let n = items.len();
        let mut j: usize = 0;
        proof {
            assert(pv.skip(0) =~= pv);
        }
        while j < n
            invariant
                0 <= j <= n,
                n == items@.len(),
                pv == entries_of(items@),
                m.wf(),
                inserted_all(Map::<Seq<char>, Fund>::empty(), pv) == inserted_all(
                    m@,
                    pv.skip(j as int),
                ),
            decreases n - j,
        {
            proof {
                assert(pv.skip(j as int)[0] == (items@[j as int].0@, items@[j as int].1));
                assert(pv.skip(j as int).drop_first() =~= pv.skip(j as int + 1));
            }
            let name = items[j].0.clone();
            let fund = items[j].1;
            m.store(name, fund);
            j += 1;
        }
        proof {
            assert(pv.skip(n as int) =~= Seq::<(Seq<char>, Fund)>::empty());
        }
        m
    }
}

impl Default for FundManager {
    /// An empty manager.
    fn default() -> (r: FundManager)
        ensures
            r.wf(),
            r@ == Map::<Seq<char>, Fund>::empty(),
            r.entries() == Seq::<(Seq<char>, Fund)>::empty(),
    {
        FundManager::new()
    }
}

impl FundManager {
    /// Every stored name with its fund, in storage order, as owned
    /// pairs.
    pub fn to_pairs(&self) -> (r: Vec<(String, Fund)>)
        ensures
            entries_of(r@) == self.entries(),
    {
        let n = self.funds.len();
        let mut r: Vec<(String, Fund)> = Vec::new();
        let mut i: usize = 0;
        while i < n
            invariant
                0 <= i <= n,
                n == self.funds.len(),
                entries_of(r@) == self.entries().subrange(0, i as int),
            decreases n - i,
        {
            let name = self.funds[i].0.clone();
            let fund = self.funds[i].1;
            let ghost r0 = r@;
            r.push((name, fund));
            proof {
                assert(entries_of(r0).len() == r0.len());
                assert(r0.len() == i as int);
                assert(r@ == r0.push((self.funds@[i as int].0, self.funds@[i as int].1)));
                assert(r@.drop_last() =~= r0);
                assert forall|j: int| 0 <= j < i implies entries_of(r@)[j] == self.entries()[j] by {
                    assert(r@[j] == r0[j]);
                    assert(entries_of(r0)[j] == self.entries().subrange(0, i as int)[j]);
                }
                assert(r@[i as int] == (self.funds@[i as int].0, self.funds@[i as int].1));
                assert(entries_of(r@)[i as int] == self.entries()[i as int]);
                assert(entries_of(r@) =~= self.entries().subrange(0, (i + 1) as int));
            }
            i += 1;
        }
        proof {
            assert(self.entries().subrange(0, n as int) =~= self.entries());
        }
        r
    }
}

/// The one-line report of a named fund: the name with a colon,
/// right-aligned in ten columns, a space, then the fund's display.
pub open spec fn report_line(name: Seq<char>, f: Fund) -> Seq<char> {
    aligned_right(name + seq![':'], 10) + seq![' '] + fund_text(f)
}

/// The reports of a sequence of entries, one line each, in order.
pub open spec fn report_lines_of(es: Seq<(Seq<char>, Fund)>) -> Seq<Seq<char>> {
    Seq::new(es.len(), |i: int| report_line(es[i].0, es[i].1))
}

/// Renders the one-line report of a named fund.
pub fn render_report(name: &str, f: &Fund) -> (r: String)
    requires
        display_ok(*f),
    ensures
        r@ == report_line(name@, *f),
{
    let mut heading = name.to_owned();
    heading.append(":");
    let mut r = align_right(heading.as_str(), 10);
    r.append(" ");
    let body = f.display();
    r.append(body.as_str());
    proof {
        reveal_strlit(":");
        reveal_strlit(" ");
        assert(heading@ =~= name@ + seq![':']);
        assert(r@ =~= report_line(name@, *f));
    }
    r
}

impl FundManager {
    /// The one-line report of the fund with the given name, or an
    /// error if no fund of that name exists.
    pub fn report(&self, name: &str) -> (r: Result<String, FundNotFoundError>)
        requires
            self.wf(),
            self@.contains_key(name@) ==> display_ok(self@[name@]),
        ensures
            match r {
                Ok(s) => self@.contains_key(name@) && s@ == report_line(name@, self@[name@]),
                Err(e) => !self@.contains_key(name@) && e.name@ == name@,
            },
    {
        match self.fund(name) {
            Ok(f) => {
                let shown = *f;
                Ok(render_report(name, &shown))
            },
            Err(e) => Err(e),
        }
    }

    /// The one-line reports of every stored fund, in storage order.
    pub fn report_all(&self) -> (r: Vec<String>)
        requires
            self.wf(),
            forall|k: Seq<char>| self@.contains_key(k) ==> display_ok(self@[k]),
        ensures
            r.deep_view() == report_lines_of(self.entries()),
    {
        let n = self.funds.len();
        let mut r: Vec<String> = Vec::new();
        let mut i: usize = 0;
        proof {
            assert(r.deep_view() =~= Seq::<Seq<char>>::empty());
        }
        while i < n
            invariant
                0 <= i <= n,
                n == self.funds.len(),
                self.wf(),
                forall|k: Seq<char>| self@.contains_key(k) ==> display_ok(self@[k]),
                r.deep_view() == report_lines_of(self.entries()).subrange(0, i as int),
            decreases n - i,
        {
            proof {
                lemma_map_of_index(self.entries(), i as int);
                assert(self@.contains_key(self.entries()[i as int].0));
                assert(display_ok(self@[self.entries()[i as int].0]));
                assert(display_ok(self.entries()[i as int].1));
            }
            let ghost dv0 = r.deep_view();
            let name = &self.funds[i].0;
            let shown = self.funds[i].1;
            let line = render_report(name.as_str(), &shown);
            r.push(line);
            proof {
                assert(r.deep_view() =~= dv0.push(report_line(
                    self.entries()[i as int].0,
                    self.entries()[i as int].1,
                )));
                assert(r.deep_view() =~= report_lines_of(self.entries()).subrange(
                    0,
                    (i + 1) as int,
                ));
            }
            i += 1;
        }
        proof {
            assert(report_lines_of(self.entries()).subrange(0, n as int) =~= report_lines_of(
                self.entries(),
            ));
        }
        r
    }
}

} // verus!
