//! One command against the fund store: decodes an already-parsed
//! command into manager operations and produces the lines to show.
//! The surrounding program resolves file locations, loads the manager,
//! runs the command, prints the lines, and saves the result.

use vstd::prelude::*;

use crate::fund::deposited;
use crate::fund::display_ok;
use crate::fund::spent;
use crate::fund::Fund;
use crate::manager::render_report;
use crate::manager::report_line;
use crate::manager::report_lines_of;
use crate::manager::DuplicateFundError;
use crate::manager::FundManager;
use crate::manager::FundManagerError;
use crate::manager::FundNotFoundError;
use crate::manager::IoError;
use crate::text::str_eq;

verus! {

broadcast use vstd::string::group_string_axioms;

/// An already-decoded command for the fund store: which operation to
/// perform and its parameters. Amounts are integer minor units; the
/// caller converts user-facing decimal strings before handing them
/// over, and resolves where the fund file lives.
pub struct Config {
    pub command: String,
    pub fund_name: Option<String>,
    pub transfer_name: Option<String>,
    pub field: Option<String>,
    pub amount: Option<i32>,
    pub goal: Option<i32>,
}

/// The fund that a `new` command creates: amount and goal as given,
/// each defaulting to 0 when omitted.
pub open spec fn new_fund_of(c: Config) -> Fund {
    Fund {
        amount: match c.amount {
            Some(a) => a,
            None => 0,
        },
        goal: match c.goal {
            Some(g) => g,
            None => 0,
        },
    }
}

/// The mapping after transferring `x` minor units between two stored
/// funds: spend from `from`, then deposit to `to`.
pub open spec fn transferred(
    m: Map<Seq<char>, Fund>,
    from: Seq<char>,
    to: Seq<char>,
    x: int,
) -> Map<Seq<char>, Fund> {
    let m1 = m.insert(from, spent(m[from], x));
    m1.insert(to, deposited(m1[to], x))
}

/// The fund that a `set` command leaves under the name: one field
/// replaced by the given amount.
pub open spec fn set_fund_of(f: Fund, field: Seq<char>, x: i32) -> Fund {
    if field == "amount"@ {
        Fund { amount: x, goal: f.goal }
    } else {
        Fund { amount: f.amount, goal: x }
    }
}

/// The commands the store understands.
pub open spec fn known_command(cmd: Seq<char>) -> bool {
    ||| cmd == "info"@
    ||| cmd == "new"@
    ||| cmd == "spend"@
    ||| cmd == "deposit"@
    ||| cmd == "transfer"@
    ||| cmd == "rename"@
    ||| cmd == "set"@
}

/// The rendering bound an `info` command needs: every fund it would
/// show must be displayable.
pub open spec fn info_safe(c: Config, m: FundManager) -> bool {
    match c.fund_name {
        Some(n) => m@.contains_key(n@) ==> display_ok(m@[n@]),
        None => forall|k: Seq<char>| m@.contains_key(k) ==> display_ok(m@[k]),
    }
}

/// The rendering bound a `new` command needs.
pub open spec fn new_safe(c: Config, m: FundManager) -> bool {
    display_ok(new_fund_of(c))
}

/// The arithmetic and rendering bounds a `spend` command needs.
pub open spec fn spend_safe(c: Config, m: FundManager) -> bool {
    match (c.fund_name, c.amount) {
        (Some(n), Some(x)) => m@.contains_key(n@) ==> (i32::MIN <= m@[n@].amount - x <= i32::MAX
            && display_ok(spent(m@[n@], x as int))),
        _ => true,
    }
}

/// The arithmetic and rendering bounds a `deposit` command needs.
pub open spec fn deposit_safe(c: Config, m: FundManager) -> bool {
    match (c.fund_name, c.amount) {
        (Some(n), Some(x)) => m@.contains_key(n@) ==> (i32::MIN <= m@[n@].amount + x <= i32::MAX
            && display_ok(deposited(m@[n@], x as int))),
        _ => true,
    }
}

/// The arithmetic and rendering bounds a `transfer` command needs.
pub open spec fn transfer_safe(c: Config, m: FundManager) -> bool {
    match (c.fund_name, c.transfer_name, c.amount) {
        (Some(n), Some(t), Some(x)) => (m@.contains_key(n@) && m@.contains_key(t@)) ==> ({
            let m1 = m@.insert(n@, spent(m@[n@], x as int));
            let m2 = transferred(m@, n@, t@, x as int);
            &&& i32::MIN <= m@[n@].amount - x <= i32::MAX
            &&& i32::MIN <= m1[t@].amount + x <= i32::MAX
            &&& display_ok(m2[n@])
            &&& display_ok(m2[t@])
        }),
        _ => true,
    }
}

/// The rendering bound a `rename` command needs.
pub open spec fn rename_safe(c: Config, m: FundManager) -> bool {
    match (c.fund_name, c.transfer_name) {
        (Some(n), Some(t)) => (m@.contains_key(n@) && (n@ == t@ || !m@.contains_key(t@)))
            ==> display_ok(m@[n@]),
        _ => true,
    }
}

/// The rendering bound a `set` command needs.
pub open spec fn set_safe(c: Config, m: FundManager) -> bool {
    match (c.fund_name, c.amount, c.field) {
        (Some(n), Some(x), Some(fld)) => (m@.contains_key(n@) && (fld@ == "amount"@ || fld@
            == "goal"@)) ==> display_ok(set_fund_of(m@[n@], fld@, x)),
        _ => true,
    }
}

/// The arithmetic and rendering bounds a command needs so that no
/// operation overflows: these mirror what the machine integers force,
/// and nothing more.
pub open spec fn run_safe(c: Config, m: FundManager) -> bool {
    &&& (c.command@ == "info"@ ==> info_safe(c, m))
    &&& (c.command@ == "new"@ ==> new_safe(c, m))
    &&& (c.command@ == "spend"@ ==> spend_safe(c, m))
    &&& (c.command@ == "deposit"@ ==> deposit_safe(c, m))
    &&& (c.command@ == "transfer"@ ==> transfer_safe(c, m))
    &&& (c.command@ == "rename"@ ==> rename_safe(c, m))
    &&& (c.command@ == "set"@ ==> set_safe(c, m))
}

/// The result carries a filesystem-shaped usage error with exactly
/// this message.
pub open spec fn usage_error(r: Result<Vec<String>, FundManagerError>, msg: Seq<char>) -> bool {
    r matches Err(FundManagerError::Io(e)) && e.message@ == msg
}

/// The result is a missing-fund error naming exactly this fund.
pub open spec fn not_found_error(r: Result<Vec<String>, FundManagerError>, name: Seq<char>) -> bool {
    r matches Err(FundManagerError::FundNotFound(e)) && e.name@ == name
}

/// The result is a duplicate-name error naming exactly this fund.
pub open spec fn duplicate_error(r: Result<Vec<String>, FundManagerError>, name: Seq<char>) -> bool {
    r matches Err(FundManagerError::DuplicateFund(e)) && e.name@ == name
}

/// What `run` does for `info`: report one named fund, or all funds in
/// storage order; the store is never changed.
pub open spec fn info_post(
    c: Config,
    m0: FundManager,
    m1: FundManager,
    r: Result<Vec<String>, FundManagerError>,
) -> bool {
    &&& m1 == m0
    &&& match c.fund_name {
        Some(n) => if m0@.contains_key(n@) {
            r matches Ok(v) && v.deep_view() == seq![report_line(n@, m0@[n@])]
        } else {
            not_found_error(r, n@)
        },
        None => r matches Ok(v) && v.deep_view() == report_lines_of(m0.entries()),
    }
}

/// What `run` does for `new`: add a fund under a fresh name and
/// report it; an existing name fails without touching anything.
pub open spec fn new_post(
    c: Config,
    m0: FundManager,
    m1: FundManager,
    r: Result<Vec<String>, FundManagerError>,
) -> bool {
    match c.fund_name {
        Some(n) => if m0@.contains_key(n@) {
            m1 == m0 && duplicate_error(r, n@)
        } else {
            &&& m1@ == m0@.insert(n@, new_fund_of(c))
            &&& m1.names() == m0.names().push(n@)
            &&& r matches Ok(v) && v.deep_view() == seq![report_line(n@, new_fund_of(c))]
        },
        None => m1 == m0 && usage_error(r, "can't create a new struct with no name"@),
    }
}

/// What `run` does for `spend`: subtract from the named fund and
/// report it.
pub open spec fn spend_post(
    c: Config,
    m0: FundManager,
    m1: FundManager,
    r: Result<Vec<String>, FundManagerError>,
) -> bool {
    match (c.fund_name, c.amount) {
        (Some(n), Some(x)) => if m0@.contains_key(n@) {
            &&& m1@ == m0@.insert(n@, spent(m0@[n@], x as int))
            &&& m1.names() == m0.names()
            &&& r matches Ok(v) && v.deep_view() == seq![report_line(n@, spent(m0@[n@], x as int))]
        } else {
            m1 == m0 && not_found_error(r, n@)
        },
        (Some(_), None) => m1 == m0 && usage_error(r, "please supply an amount to spend"@),
        (None, _) => m1 == m0 && usage_error(r, "please supply a fund to spend from"@),
    }
}

/// What `run` does for `deposit`: add to the named fund and report
/// it.
pub open spec fn deposit_post(
    c: Config,
    m0: FundManager,
    m1: FundManager,
    r: Result<Vec<String>, FundManagerError>,
) -> bool {
    match (c.fund_name, c.amount) {
        (Some(n), Some(x)) => if m0@.contains_key(n@) {
            &&& m1@ == m0@.insert(n@, deposited(m0@[n@], x as int))
            &&& m1.names() == m0.names()
            &&& r matches Ok(v) && v.deep_view() == seq![
                report_line(n@, deposited(m0@[n@], x as int)),
            ]
        } else {
            m1 == m0 && not_found_error(r, n@)
        },
        (Some(_), None) => m1 == m0 && usage_error(r, "please supply an amount to deposit"@),
        (None, _) => m1 == m0 && usage_error(r, "please supply a fund to deposit to"@),
    }
}

/// What `run` does for `transfer`: spend from one fund, deposit to
/// the other, and report both; a missing fund fails without touching
/// anything, the source checked first.
pub open spec fn transfer_post(
    c: Config,
    m0: FundManager,
    m1: FundManager,
    r: Result<Vec<String>, FundManagerError>,
) -> bool {
    match (c.fund_name, c.transfer_name, c.amount) {
        (Some(n), Some(t), Some(x)) => if !m0@.contains_key(n@) {
            m1 == m0 && not_found_error(r, n@)
        } else if !m0@.contains_key(t@) {
            m1 == m0 && not_found_error(r, t@)
        } else {
            let m2 = transferred(m0@, n@, t@, x as int);
            &&& m1@ == m2
            &&& m1.names() == m0.names()
            &&& r matches Ok(v) && v.deep_view() == seq![
                report_line(n@, m2[n@]),
                report_line(t@, m2[t@]),
            ]
        },
        (Some(_), Some(_), None) => m1 == m0 && usage_error(
            r,
            "please supply an amount to transfer"@,
        ),
        (Some(_), None, _) => m1 == m0 && usage_error(r, "please supply a fund to transfer to"@),
        (None, _, _) => m1 == m0 && usage_error(r, "please supply a fund to transfer from"@),
    }
}

/// What `run` does for `rename`: move the fund to the new name and
/// report it under that name; a collision or a missing source fails
/// without touching anything.
pub open spec fn rename_post(
    c: Config,
    m0: FundManager,
    m1: FundManager,
    r: Result<Vec<String>, FundManagerError>,
) -> bool {
    match (c.fund_name, c.transfer_name) {
        (Some(n), Some(t)) => if !m0@.contains_key(n@) {
            m1 == m0 && not_found_error(r, n@)
        } else if n@ != t@ && m0@.contains_key(t@) {
            m1 == m0 && duplicate_error(r, t@)
        } else {
            &&& m1@ == m0@.remove(n@).insert(t@, m0@[n@])
            &&& r matches Ok(v) && v.deep_view() == seq![report_line(t@, m0@[n@])]
        },
        (Some(_), None) => m1 == m0 && usage_error(r, "please supply a new unique name"@),
        (None, _) => m1 == m0 && usage_error(r, "please supply the name of the fund to rename"@),
    }
}

/// What `run` does for `set`: replace the named fund's amount or goal
/// and report it.
pub open spec fn set_post(
    c: Config,
    m0: FundManager,
    m1: FundManager,
    r: Result<Vec<String>, FundManagerError>,
) -> bool {
    match (c.fund_name, c.amount, c.field) {
        (Some(n), Some(x), Some(fld)) => if fld@ != "amount"@ && fld@ != "goal"@ {
            m1 == m0 && usage_error(r, "invalid field name"@)
        } else if m0@.contains_key(n@) {
            let nf = set_fund_of(m0@[n@], fld@, x);
            &&& m1@ == m0@.insert(n@, nf)
            &&& m1.names() == m0.names()
            &&& r matches Ok(v) && v.deep_view() == seq![report_line(n@, nf)]
        } else {
            m1 == m0 && not_found_error(r, n@)
        },
        (Some(_), Some(_), None) => m1 == m0 && usage_error(r, "please provide a field name"@),
        (Some(_), None, _) => m1 == m0 && usage_error(r, "please provide an amount"@),
        (None, _, _) => m1 == m0 && usage_error(r, "please provide a fund name"@),
    }
}

/// A usage failure in the shape the filesystem errors take.
fn usage_err(msg: &'static str) -> (r: FundManagerError)
    ensures
        r matches FundManagerError::Io(e) && e.message@ == msg@,
{
    FundManagerError::Io(IoError { message: msg.to_owned() })
}

/// Reports one named fund, or all funds.
fn run_info(config: &Config, funds: &mut FundManager) -> (r: Result<
    Vec<String>,
    FundManagerError,
>)
    requires
        old(funds).wf(),
        info_safe(*config, *old(funds)),
    ensures
        final(funds).wf(),
        info_post(*config, *old(funds), *final(funds), r),
{
    match &config.fund_name {
        Some(name) => match funds.report(name.as_str()) {
            Ok(line) => {
                let v = vec![line];
                proof {
                    assert(v.deep_view() =~= seq![report_line(name@, funds@[name@])]);
                }
                Ok(v)
            },
            Err(e) => Err(FundManagerError::FundNotFound(e)),
        },
        None => Ok(funds.report_all()),
    }
}

/// Creates a fund under a fresh name.
fn run_new(config: &Config, funds: &mut FundManager) -> (r: Result<Vec<String>, FundManagerError>)
    requires
        old(funds).wf(),
        new_safe(*config, *old(funds)),
    ensures
        final(funds).wf(),
        new_post(*config, *old(funds), *final(funds), r),
{
    match &config.fund_name {
        None => Err(usage_err("can't create a new struct with no name")),
        Some(name) => {
            let mut fund = Fund::new();
            match config.amount {
                Some(a) => {
                    fund.with_amount(a);
                },
                None => {},
            }
            match config.goal {
                Some(g) => {
                    fund.with_goal(g);
                },
                None => {},
            }
            let fund = fund.build();
            proof {
                assert(fund == new_fund_of(*config));
            }
            match funds.add_fund(name.as_str(), fund) {
                Err(e) => Err(FundManagerError::DuplicateFund(e)),
                Ok(_) => {
                    let line = render_report(name.as_str(), &fund);
                    let v = vec![line];
                    proof {
                        assert(v.deep_view() =~= seq![report_line(name@, fund)]);
                    }
                    Ok(v)
                },
            }
        },
    }
}

/// Subtracts from one named fund.
fn run_spend(config: &Config, funds: &mut FundManager) -> (r: Result<
    Vec<String>,
    FundManagerError,
>)
    requires
        old(funds).wf(),
        spend_safe(*config, *old(funds)),
    ensures
        final(funds).wf(),
        spend_post(*config, *old(funds), *final(funds), r),
{
    match &config.fund_name {
        None => Err(usage_err("please supply a fund to spend from")),
        Some(name) => match config.amount {
            None => Err(usage_err("please supply an amount to spend")),
            Some(x) => match funds.fund_mut(name.as_str()) {
                Err(e) => Err(FundManagerError::FundNotFound(e)),
                Ok(f) => {
                    f.spend(x);
                    let shown = *f;
                    let line = render_report(name.as_str(), &shown);
                    let v = vec![line];
                    proof {
                        assert(v.deep_view() =~= seq![report_line(name@, shown)]);
                    }
                    Ok(v)
                },
            },
        },
    }
}

/// Adds to one named fund.
fn run_deposit(config: &Config, funds: &mut FundManager) -> (r: Result<
    Vec<String>,
    FundManagerError,
>)
    requires
        old(funds).wf(),
        deposit_safe(*config, *old(funds)),
    ensures
        final(funds).wf(),
        deposit_post(*config, *old(funds), *final(funds), r),
{
    match &config.fund_name {
        None => Err(usage_err("please supply a fund to deposit to")),
        Some(name) => match config.amount {
            None => Err(usage_err("please supply an amount to deposit")),
            Some(x) => match funds.fund_mut(name.as_str()) {
                Err(e) => Err(FundManagerError::FundNotFound(e)),
                Ok(f) => {
                    f.deposit(x);
                    let shown = *f;
                    let line = render_report(name.as_str(), &shown);
                    let v = vec![line];
                    proof {
                        assert(v.deep_view() =~= seq![report_line(name@, shown)]);
                    }
                    Ok(v)
                },
            },
        },
    }
}

/// Moves an amount between two stored funds.
fn run_transfer(config: &Config, funds: &mut FundManager) -> (r: Result<
    Vec<String>,
    FundManagerError,
>)
    requires
        old(funds).wf(),
        transfer_safe(*config, *old(funds)),
    ensures
        final(funds).wf(),
        transfer_post(*config, *old(funds), *final(funds), r),
{
    match &config.fund_name {
        None => Err(usage_err("please supply a fund to transfer from")),
        Some(name) => match &config.transfer_name {
            None => Err(usage_err("please supply a fund to transfer to")),
            Some(to) => match config.amount {
                None => Err(usage_err("please supply an amount to transfer")),
                Some(x) => {
                    if !funds.contains(name.as_str()) {
                        Err(FundManagerError::FundNotFound(FundNotFoundError { name: name.clone() }))
                    } else if !funds.contains(to.as_str()) {
                        Err(FundManagerError::FundNotFound(FundNotFoundError { name: to.clone() }))
                    } else {
                        match funds.fund_mut(name.as_str()) {
                            Err(e) => Err(FundManagerError::FundNotFound(e)),
                            Ok(f) => {
                                f.spend(x);
                                match funds.fund_mut(to.as_str()) {
                                    Err(e) => Err(FundManagerError::FundNotFound(e)),
                                    Ok(g) => {
                                        g.deposit(x);
                                        let line1 = match funds.report(name.as_str()) {
                                            Ok(l) => l,
                                            Err(e) => {
                                                return Err(FundManagerError::FundNotFound(e));
                                            },
                                        };
                                        let line2 = match funds.report(to.as_str()) {
                                            Ok(l) => l,
                                            Err(e) => {
                                                return Err(FundManagerError::FundNotFound(e));
                                            },
                                        };
                                        let v = vec![line1, line2];
                                        proof {
                                            let m2 = transferred(old(funds)@, name@, to@, x as int);
                                            assert(v.deep_view() =~= seq![
                                                report_line(name@, m2[name@]),
                                                report_line(to@, m2[to@]),
                                            ]);
                                        }
                                        Ok(v)
                                    },
                                }
                            },
                        }
                    }
                },
            },
        },
    }
}

/// Moves one fund to a new name.
fn run_rename(config: &Config, funds: &mut FundManager) -> (r: Result<
    Vec<String>,
    FundManagerError,
>)
    requires
        old(funds).wf(),
        rename_safe(*config, *old(funds)),
    ensures
        final(funds).wf(),
        rename_post(*config, *old(funds), *final(funds), r),
{
    match &config.fund_name {
        None => Err(usage_err("please supply the name of the fund to rename")),
        Some(name) => match &config.transfer_name {
            None => Err(usage_err("please supply a new unique name")),
            Some(to) => match funds.rename(name.as_str(), to.as_str()) {
                Err(e) => Err(e),
                Ok(_) => match funds.report(to.as_str()) {
                    Err(e) => Err(FundManagerError::FundNotFound(e)),
                    Ok(line) => {
                        let v = vec![line];
                        proof {
                            assert(v.deep_view() =~= seq![report_line(to@, funds@[to@])]);
                        }
                        Ok(v)
                    },
                },
            },
        },
    }
}

/// Overwrites one field of a named fund.
fn run_set(config: &Config, funds: &mut FundManager) -> (r: Result<Vec<String>, FundManagerError>)
    requires
        old(funds).wf(),
        set_safe(*config, *old(funds)),
    ensures
        final(funds).wf(),
        set_post(*config, *old(funds), *final(funds), r),
{
    match &config.fund_name {
        None => Err(usage_err("please provide a fund name")),
        Some(name) => match config.amount {
            None => Err(usage_err("please provide an amount")),
            Some(x) => match &config.field {
                None => Err(usage_err("please provide a field name")),
                Some(field) => {
                    let is_amount = str_eq(field.as_str(), "amount");
                    let is_goal = str_eq(field.as_str(), "goal");
                    if !is_amount && !is_goal {
                        Err(usage_err("invalid field name"))
                    } else {
                        match funds.fund_mut(name.as_str()) {
                            Err(e) => Err(FundManagerError::FundNotFound(e)),
                            Ok(f) => {
                                if is_amount {
                                    f.amount = x;
                                } else {
                                    f.goal = x;
                                }
                                let shown = *f;
                                let line = render_report(name.as_str(), &shown);
                                let v = vec![line];
                                proof {
                                    assert(v.deep_view() =~= seq![report_line(name@, shown)]);
                                }
                                Ok(v)
                            },
                        }
                    }
                },
            },
        },
    }
}

/// Performs one decoded command against the store and returns the
/// lines to show the user. The caller loads the store before and, on
/// success, saves it afterwards, so a failed command never reaches
/// the fund file even where it has already touched the store.
pub fn run(config: &Config, funds: &mut FundManager) -> (r: Result<Vec<String>, FundManagerError>)
    requires
        old(funds).wf(),
        run_safe(*config, *old(funds)),
    ensures
        final(funds).wf(),
        config.command@ == "info"@ ==> info_post(*config, *old(funds), *final(funds), r),
        config.command@ == "new"@ ==> new_post(*config, *old(funds), *final(funds), r),
        config.command@ == "spend"@ ==> spend_post(*config, *old(funds), *final(funds), r),
        config.command@ == "deposit"@ ==> deposit_post(*config, *old(funds), *final(funds), r),
        config.command@ == "transfer"@ ==> transfer_post(*config, *old(funds), *final(funds), r),
        config.command@ == "rename"@ ==> rename_post(*config, *old(funds), *final(funds), r),
        config.command@ == "set"@ ==> set_post(*config, *old(funds), *final(funds), r),
        !known_command(config.command@) ==> (*final(funds) == *old(funds) && usage_error(
            r,
            "not a valid command"@,
        )),
{
    proof {
        reveal_strlit("info");
        reveal_strlit("new");
        reveal_strlit("spend");
        reveal_strlit("deposit");
        reveal_strlit("transfer");
        reveal_strlit("rename");
        reveal_strlit("set");
        assert("info"@.len() == 4);
        assert("new"@.len() == 3);
        assert("spend"@.len() == 5);
        assert("deposit"@.len() == 7);
        assert("transfer"@.len() == 8);
        assert("rename"@.len() == 6);
        assert("set"@.len() == 3);
        assert("new"@[0] == 'n' && "set"@[0] == 's');
    }
    let cmd = config.command.as_str();
    if str_eq(cmd, "info") {
        run_info(config, funds)
    } else if str_eq(cmd, "new") {
        run_new(config, funds)
    } else if str_eq(cmd, "spend") {
        run_spend(config, funds)
    } else if str_eq(cmd, "deposit") {
        run_deposit(config, funds)
    } else if str_eq(cmd, "transfer") {
        run_transfer(config, funds)
    } else if str_eq(cmd, "rename") {
        run_rename(config, funds)
    } else if str_eq(cmd, "set") {
        run_set(config, funds)
    } else {
        Err(usage_err("not a valid command"))
    }
}

} // verus!
