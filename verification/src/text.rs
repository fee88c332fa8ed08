//! Plain-text helpers: character-wise string equality, fixed-width
//! padding, and splitting on a separator character with the final
//! separator treated as a terminator.

use vstd::prelude::*;

verus! {

/// Compares two string slices character by character.
pub fn str_eq(a: &str, b: &str) -> (r: bool)
    ensures
        r == (a@ == b@),
{
    let alen = a.unicode_len();
    let blen = b.unicode_len();
    if alen != blen {
        return false;
    }
    let mut i: usize = 0;
    while i < alen
        invariant
            0 <= i <= alen,
            alen == a@.len(),
            alen == b@.len(),
            forall|j: int| 0 <= j < i ==> a@[j] == b@[j],
        decreases alen - i,
    {
        if a.get_char(i) != b.get_char(i) {
            return false;
        }
        i += 1;
    }
    proof {
        assert(a@ =~= b@);
    }
    true
}

/// A run of `n` space characters.
pub open spec fn spaces(n: int) -> Seq<char>
    decreases n,
{
    if n <= 0 {
        Seq::empty()
    } else {
        spaces(n - 1).push(' ')
    }
}

/// `s` left-aligned in a field of `w` characters, as `{:<w}` renders
/// it: unchanged when already that wide.
pub open spec fn aligned_left(s: Seq<char>, w: int) -> Seq<char> {
    if s.len() >= w {
        s
    } else {
        s + spaces(w - s.len())
    }
}

/// `s` right-aligned in a field of `w` characters, as `{:>w}` renders
/// it.
pub open spec fn aligned_right(s: Seq<char>, w: int) -> Seq<char> {
    if s.len() >= w {
        s
    } else {
        spaces(w - s.len()) + s
    }
}

/// `s` centred in a field of `w` characters, as `{:^w}` renders it:
/// when the padding is odd, the extra space goes on the right.
pub open spec fn aligned_center(s: Seq<char>, w: int) -> Seq<char> {
    if s.len() >= w {
        s
    } else {
        let pad = w - s.len();
        spaces(pad / 2) + s + spaces(pad - pad / 2)
    }
}

/// A string of `n` spaces.
fn make_spaces(n: usize) -> (r: String)
    ensures
        r@ == spaces(n as int),
{
    let mut r = String::new();
    let mut i: usize = 0;
    while i < n
        invariant
            0 <= i <= n,
            r@ == spaces(i as int),
        decreases n - i,
    {
        r.append(" ");
        proof {
            reveal_strlit(" ");
            assert(r@ =~= spaces(i + 1));
        }
        i += 1;
    }
    r
}

/// Left-aligns `s` in a field of `width` characters.
pub fn align_left(s: &str, width: usize) -> (r: String)
    ensures
        r@ == aligned_left(s@, width as int),
{
    let len = s.unicode_len();
    if len >= width {
        s.to_owned()
    } else {
        let mut r = s.to_owned();
        let pad = make_spaces(width - len);
        r.append(pad.as_str());
        r
    }
}

/// Right-aligns `s` in a field of `width` characters.
pub fn align_right(s: &str, width: usize) -> (r: String)
    ensures
        r@ == aligned_right(s@, width as int),
{
    let len = s.unicode_len();
    if len >= width {
        s.to_owned()
    } else {
        let mut r = make_spaces(width - len);
        r.append(s);
        r
    }
}

/// Centres `s` in a field of `width` characters.
pub fn align_center(s: &str, width: usize) -> (r: String)
    ensures
        r@ == aligned_center(s@, width as int),
{
    let len = s.unicode_len();
    if len >= width {
        s.to_owned()
    } else {
        let pad = width - len;
        let mut r = make_spaces(pad / 2);
        r.append(s);
        let right = make_spaces(pad - pad / 2);
        r.append(right.as_str());
        r
    }
}

/// Filtering keeps a sequence whole when the predicate accepts every
/// element.
pub proof fn lemma_filter_keeps_all<A>(s: Seq<A>, pred: spec_fn(A) -> bool)
    requires
        forall|i: int| 0 <= i < s.len() ==> pred(s[i]),
    ensures
        s.filter(pred) == s,
    decreases s.len(),
{
    reveal(Seq::filter);
    if s.len() == 0 {
        assert(s.filter(pred) =~= s);
    } else {
        lemma_filter_keeps_all(s.drop_last(), pred);
        assert(s.filter(pred) =~= s);
    }
}

/// Filtering empties a sequence when the predicate rejects every
/// element.
pub proof fn lemma_filter_drops_all<A>(s: Seq<A>, pred: spec_fn(A) -> bool)
    requires
        forall|i: int| 0 <= i < s.len() ==> !pred(s[i]),
    ensures
        s.filter(pred) == Seq::<A>::empty(),
    decreases s.len(),
{
    reveal(Seq::filter);
    if s.len() == 0 {
        assert(s.filter(pred) =~= Seq::<A>::empty());
    } else {
        lemma_filter_drops_all(s.drop_last(), pred);
    }
}

/// All the fields of `s` between occurrences of `sep`: what splitting
/// on every separator yields, the empty string having one (empty)
/// field.
pub open spec fn split_full(s: Seq<char>, sep: char) -> Seq<Seq<char>>
    decreases s.len(),
{
    if s.len() == 0 {
        seq![s]
    } else if s[0] == sep {
        seq![Seq::<char>::empty()] + split_full(s.drop_first(), sep)
    } else {
        let rest = split_full(s.drop_first(), sep);
        seq![seq![s[0]] + rest[0]] + rest.drop_first()
    }
}

/// The fields of `s` with a final `sep` read as a terminator rather
/// than a separator: what `split_terminator` yields.
pub open spec fn split_term(s: Seq<char>, sep: char) -> Seq<Seq<char>> {
    if s.len() == 0 {
        Seq::empty()
    } else if s.last() == sep {
        split_full(s.drop_last(), sep)
    } else {
        split_full(s, sep)
    }
}

/// Splitting always yields at least one field.
pub proof fn lemma_split_full_len(s: Seq<char>, sep: char)
    ensures
        split_full(s, sep).len() >= 1,
    decreases s.len(),
{
    if s.len() > 0 && s[0] != sep {
        lemma_split_full_len(s.drop_first(), sep);
    }
}

/// A string without the separator is a single field.
pub proof fn lemma_split_full_no_sep(s: Seq<char>, sep: char)
    requires
        forall|j: int| 0 <= j < s.len() ==> s[j] != sep,
    ensures
        split_full(s, sep) == seq![s],
    decreases s.len(),
{
    if s.len() > 0 {
        lemma_split_full_no_sep(s.drop_first(), sep);
        let rest = split_full(s.drop_first(), sep);
        assert(rest == seq![s.drop_first()]);
        assert(seq![s[0]] + rest[0] =~= s);
        assert(rest.drop_first() =~= Seq::<Seq<char>>::empty());
        assert(split_full(s, sep) =~= seq![s]);
    }
}

/// Splitting distributes over a separator: the fields of
/// `a + sep + b` are the fields of `a` followed by the fields of `b`.
pub proof fn lemma_split_full_append(a: Seq<char>, b: Seq<char>, sep: char)
    ensures
        split_full(a + seq![sep] + b, sep) == split_full(a, sep) + split_full(b, sep),
    decreases a.len(),
{
    let s = a + seq![sep] + b;
    if a.len() == 0 {
        assert(s[0] == sep);
        assert(s.drop_first() =~= b);
        assert(a =~= Seq::<char>::empty());
        assert(split_full(a, sep) == seq![a]);
        assert(seq![Seq::<char>::empty()] + split_full(b, sep) =~= split_full(a, sep) + split_full(
            b,
            sep,
        ));
    } else {
        let at = a.drop_first();
        lemma_split_full_append(at, b, sep);
        assert(s[0] == a[0]);
        assert(s.drop_first() =~= at + seq![sep] + b);
        lemma_split_full_len(at, sep);
        let rest = split_full(s.drop_first(), sep);
        assert(rest == split_full(at, sep) + split_full(b, sep));
        if a[0] == sep {
            assert(split_full(a, sep) == seq![Seq::<char>::empty()] + split_full(at, sep));
            assert(seq![Seq::<char>::empty()] + rest =~= split_full(a, sep) + split_full(b, sep));
        } else {
            assert(rest[0] == split_full(at, sep)[0]);
            assert(split_full(a, sep) == seq![seq![a[0]] + split_full(at, sep)[0]] + split_full(
                at,
                sep,
            ).drop_first());
            assert(rest.drop_first() =~= split_full(at, sep).drop_first() + split_full(b, sep));
            assert(seq![seq![s[0]] + rest[0]] + rest.drop_first() =~= split_full(a, sep)
                + split_full(b, sep));
        }
    }
}

/// No field produced by splitting contains the separator itself.
pub proof fn lemma_split_full_fields_no_sep(s: Seq<char>, sep: char)
    ensures
        forall|k: int, j: int|
            0 <= k < split_full(s, sep).len() && 0 <= j < split_full(s, sep)[k].len()
                ==> split_full(s, sep)[k][j] != sep,
    decreases s.len(),
{
    let fields = split_full(s, sep);
    if s.len() == 0 {
    } else if s[0] == sep {
        lemma_split_full_fields_no_sep(s.drop_first(), sep);
        let rest = split_full(s.drop_first(), sep);
        assert forall|k: int, j: int|
            0 <= k < fields.len() && 0 <= j < fields[k].len() implies fields[k][j] != sep by {
            if k > 0 {
                assert(fields[k] == rest[k - 1]);
            }
        }
    } else {
        lemma_split_full_fields_no_sep(s.drop_first(), sep);
        lemma_split_full_len(s.drop_first(), sep);
        let rest = split_full(s.drop_first(), sep);
        assert forall|k: int, j: int|
            0 <= k < fields.len() && 0 <= j < fields[k].len() implies fields[k][j] != sep by {
            if k == 0 {
                assert(fields[0] == seq![s[0]] + rest[0]);
                if j > 0 {
                    assert(fields[0][j] == rest[0][j - 1]);
                }
            } else {
                assert(fields[k] == rest[k]);
            }
        }
    }
}

/// Splitting only rearranges characters: every character of every
/// field already satisfies whatever holds of every character of `s`.
pub proof fn lemma_split_full_fields_chars(s: Seq<char>, sep: char, p: spec_fn(char) -> bool)
    requires
        forall|i: int| 0 <= i < s.len() ==> p(#[trigger] s[i]),
    ensures
        forall|k: int, j: int|
            0 <= k < split_full(s, sep).len() && 0 <= j < split_full(s, sep)[k].len() ==> p(
                #[trigger] split_full(s, sep)[k][j],
            ),
    decreases s.len(),
{
    let fields = split_full(s, sep);
    if s.len() == 0 {
    } else if s[0] == sep {
        lemma_split_full_fields_chars(s.drop_first(), sep, p);
        let rest = split_full(s.drop_first(), sep);
        assert forall|k: int, j: int|
            0 <= k < fields.len() && 0 <= j < fields[k].len() implies p(fields[k][j]) by {
            if k > 0 {
                assert(fields[k] == rest[k - 1]);
            }
        }
    } else {
        lemma_split_full_fields_chars(s.drop_first(), sep, p);
        lemma_split_full_len(s.drop_first(), sep);
        let rest = split_full(s.drop_first(), sep);
        assert forall|k: int, j: int|
            0 <= k < fields.len() && 0 <= j < fields[k].len() implies p(fields[k][j]) by {
            if k == 0 {
                assert(fields[0] == seq![s[0]] + rest[0]);
                if j > 0 {
                    assert(fields[0][j] == rest[0][j - 1]);
                } else {
                    assert(fields[0][0] == s[0]);
                }
            } else {
                assert(fields[k] == rest[k]);
            }
        }
    }
}

/// The two preceding facts, carried over to terminator splitting.
pub proof fn lemma_split_term_fields(s: Seq<char>, sep: char, p: spec_fn(char) -> bool)
    requires
        forall|i: int| 0 <= i < s.len() ==> p(#[trigger] s[i]),
    ensures
        forall|k: int, j: int|
            0 <= k < split_term(s, sep).len() && 0 <= j < split_term(s, sep)[k].len()
                ==> (split_term(s, sep)[k][j] != sep && p(#[trigger] split_term(s, sep)[k][j])),
{
    if s.len() == 0 {
    } else if s.last() == sep {
        lemma_split_full_fields_no_sep(s.drop_last(), sep);
        lemma_split_full_fields_chars(s.drop_last(), sep, p);
    } else {
        lemma_split_full_fields_no_sep(s, sep);
        lemma_split_full_fields_chars(s, sep, p);
    }
}

/// Splits `s` at every occurrence of `sep`, a final `sep` acting as a
/// terminator, exactly as `split_terminator` collects its pieces.
pub fn split_on(s: &str, sep: char) -> (r: Vec<String>)
    ensures
        r.deep_view() == split_term(s@, sep),
{
    let len = s.unicode_len();
    let mut r: Vec<String> = Vec::new();
    let mut start: usize = 0;
    let mut i: usize = 0;
    proof {
        assert(s@.subrange(0, len as int) =~= s@);
        assert(r.deep_view() =~= Seq::<Seq<char>>::empty());
        assert(r.deep_view() + split_full(s@, sep) =~= split_full(s@, sep));
    }
    while i < len
        invariant
            0 <= start <= i <= len,
            len == s@.len(),
            forall|j: int| start <= j < i ==> s@[j] != sep,
            start == 0 || s@[start - 1] == sep,
            split_full(s@, sep) == r.deep_view() + split_full(
                s@.subrange(start as int, len as int),
                sep,
            ),
        decreases len - i,
    {
        let c = s.get_char(i);
        if c == sep {
            let field = s.substring_char(start, i).to_owned();
            let ghost dv0 = r.deep_view();
            let ghost seg = s@.subrange(start as int, i as int);
            let ghost rest = s@.subrange((i + 1) as int, len as int);
            proof {
                assert(s@.subrange(start as int, len as int) =~= seg + seq![sep] + rest);
                assert(forall|j: int| 0 <= j < seg.len() ==> seg[j] != sep);
                lemma_split_full_no_sep(seg, sep);
                lemma_split_full_append(seg, rest, sep);
            }
            r.push(field);
            proof {
                assert(r.deep_view() =~= dv0.push(seg));
                assert(dv0.push(seg) + split_full(rest, sep) =~= dv0 + (seq![seg] + split_full(
                    rest,
                    sep,
                )));
            }
            start = i + 1;
        }
        i += 1;
    }
    if start < len {
        let field = s.substring_char(start, len).to_owned();
        let ghost dv0 = r.deep_view();
        let ghost seg = s@.subrange(start as int, len as int);
        proof {
            assert(forall|j: int| 0 <= j < seg.len() ==> seg[j] != sep);
            lemma_split_full_no_sep(seg, sep);
            assert(s@[len - 1] != sep);
        }
        r.push(field);
        proof {
            assert(r.deep_view() =~= dv0.push(seg));
            assert(dv0.push(seg) =~= dv0 + seq![seg]);
            assert(r.deep_view() == split_term(s@, sep));
        }
    } else {
        proof {
            assert(s@.subrange(start as int, len as int) =~= Seq::<char>::empty());
            assert(split_full(s@.subrange(start as int, len as int), sep) == seq![
                Seq::<char>::empty(),
            ]);
            if len == 0 {
                assert(split_full(s@, sep).len() == r.deep_view().len() + 1);
                assert(r.deep_view() =~= split_term(s@, sep));
            } else {
                assert(s@[len - 1] == sep);
                assert(s@ =~= s@.drop_last() + seq![sep] + Seq::<char>::empty());
                lemma_split_full_append(s@.drop_last(), Seq::<char>::empty(), sep);
                let lhs = r.deep_view();
                let rhs = split_full(s@.drop_last(), sep);
                assert(lhs + seq![Seq::<char>::empty()] == rhs + seq![Seq::<char>::empty()]);
                assert(lhs.len() == rhs.len());
                assert forall|j: int| 0 <= j < lhs.len() implies lhs[j] == rhs[j] by {
                    assert(lhs[j] == (lhs + seq![Seq::<char>::empty()])[j]);
                    assert(rhs[j] == (rhs + seq![Seq::<char>::empty()])[j]);
                }
                assert(lhs =~= rhs);
                assert(r.deep_view() == split_term(s@, sep));
            }
        }
    }
    r
}

} // verus!
