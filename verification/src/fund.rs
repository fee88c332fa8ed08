//! A single fund: a running balance (`amount`) and a savings goal
//! (`goal`), both in integer minor units (cents).

use vstd::prelude::*;

use crate::digits::dec_digits;
use crate::digits::digit_char;
use crate::digits::digit_to_str;
use crate::digits::digit_val;
use crate::digits::digits_val;
use crate::digits::is_digit;
use crate::digits::lemma_dec_digits_are_digits;
use crate::digits::lemma_dec_digits_val;
use crate::digits::lemma_digit_char_val;
use crate::digits::parse_int;
use crate::digits::udec_to_text;
use crate::text::align_center;
use crate::text::align_left;
use crate::text::aligned_center;
use crate::text::aligned_left;
use crate::text::lemma_filter_drops_all;
use crate::text::lemma_filter_keeps_all;
use vstd::std_specs::cmp::PartialOrdSpec;

verus! {

/// Stores and manipulates a running balance and a goal to shoot for.
///
/// Both fields are integer minor units (cents); `amount` may go
/// negative (overspending is permitted), and `goal` is a target, not a
/// ceiling.
#[derive(Debug, PartialEq, Eq, Structural, Hash, Copy, Clone)]
pub struct Fund {
    pub amount: i32,
    pub goal: i32,
}

/// The value of a fund after depositing `x` minor units.
pub open spec fn deposited(f: Fund, x: int) -> Fund {
    Fund { amount: (f.amount + x) as i32, goal: f.goal }
}

/// The value of a fund after spending `x` minor units.
pub open spec fn spent(f: Fund, x: int) -> Fund {
    Fund { amount: (f.amount - x) as i32, goal: f.goal }
}

impl Fund {
    /// Returns a new fund with default amounts of 0 for amount and goal.
    pub fn new() -> (f: Fund)
        ensures
            f == (Fund { amount: 0, goal: 0 }),
    {
        Fund { amount: 0, goal: 0 }
    }

    /// Sets `self`'s amount and returns a reference to itself, for use
    /// as part of a builder chain.
    pub fn with_amount(&mut self, amount: i32) -> (r: &mut Self)
        ensures
            *r == (Fund { amount: amount, goal: old(self).goal }),
            *final(self) == *final(r),
    {
        self.amount = amount;
        self
    }

    /// Sets `self`'s goal and returns a reference to itself, for use as
    /// part of a builder chain.
    pub fn with_goal(&mut self, goal: i32) -> (r: &mut Self)
        ensures
            *r == (Fund { amount: old(self).amount, goal: goal }),
            *final(self) == *final(r),
    {
        self.goal = goal;
        self
    }

    /// Returns a new fund equal to `self`, as the last step of a
    /// builder chain.
    pub fn build(&self) -> (f: Fund)
        ensures
            f == *self,
    {
        Fund { amount: self.amount, goal: self.goal }
    }

    /// Decreases the amount stored in the fund. A negative `amount` is
    /// effectively a deposit; no sign validation is performed.
    pub fn spend(&mut self, amount: i32)
        requires
            i32::MIN <= old(self).amount - amount <= i32::MAX,
        ensures
            *final(self) == spent(*old(self), amount as int),
    {
        self.amount = self.amount - amount;
    }

    /// Increases the amount stored in the fund. A negative `amount` is
    /// effectively a spend; no sign validation is performed.
    pub fn deposit(&mut self, amount: i32)
        requires
            i32::MIN <= old(self).amount + amount <= i32::MAX,
        ensures
            *final(self) == deposited(*old(self), amount as int),
    {
        self.amount = self.amount + amount;
    }
}

impl Default for Fund {
    /// An empty fund: amount and goal both 0.
    fn default() -> (f: Fund)
        ensures
            f == (Fund { amount: 0, goal: 0 }),
    {
        Fund { amount: 0, goal: 0 }
    }
}

impl PartialOrd for Fund {
    /// Funds are ordered by their amount alone; two funds with equal
    /// amounts but different goals still compare as equal here.
    fn partial_cmp(&self, other: &Self) -> (r: Option<core::cmp::Ordering>) {
        if self.amount < other.amount {
            Some(core::cmp::Ordering::Less)
        } else if self.amount == other.amount {
            Some(core::cmp::Ordering::Equal)
        } else {
            Some(core::cmp::Ordering::Greater)
        }
    }
}

impl vstd::std_specs::cmp::PartialOrdSpecImpl for Fund {
    open spec fn obeys_partial_cmp_spec() -> bool {
        true
    }

    open spec fn partial_cmp_spec(&self, other: &Self) -> Option<core::cmp::Ordering> {
        if self.amount < other.amount {
            Some(core::cmp::Ordering::Less)
        } else if self.amount == other.amount {
            Some(core::cmp::Ordering::Equal)
        } else {
            Some(core::cmp::Ordering::Greater)
        }
    }
}

/// Depositing `x` and then spending `x` returns a fund's amount to
/// where it started, for any `x` whose deposit stays in range.
pub proof fn lemma_deposit_spend_inverse(f: Fund, x: int)
    requires
        i32::MIN <= f.amount + x <= i32::MAX,
    ensures
        spent(deposited(f, x), x) == f,
{
}

/// Deposits add up: depositing `x` and then `y` is one deposit of
/// `x + y`, whenever the intermediate amount stays in range.
pub proof fn lemma_deposit_additive(f: Fund, x: int, y: int)
    requires
        i32::MIN <= f.amount + x <= i32::MAX,
        i32::MIN <= f.amount + x + y <= i32::MAX,
    ensures
        deposited(deposited(f, x), y) == deposited(f, x + y),
{
}

/// The two-decimal currency text of a nonnegative number of minor
/// units: a dollar sign, the dollars with no leading zeros, a point,
/// and exactly two cent digits.
pub open spec fn unsigned_dollars_text(m: int) -> Seq<char> {
    seq!['$'] + dec_digits((m / 100) as nat) + seq!['.'] + seq![
        digit_char((m % 100) / 10),
        digit_char(m % 10),
    ]
}

/// The currency text of `v` minor units; the sign of a negative value
/// precedes the dollar sign.
pub open spec fn dollars_text(v: int) -> Seq<char> {
    if v < 0 {
        seq!['-'] + unsigned_dollars_text(-v)
    } else {
        unsigned_dollars_text(v)
    }
}

/// Renders an amount of minor units as fixed two-decimal currency:
/// `display_dollars(100)` is `"$1.00"`, `display_dollars(5)` is
/// `"$0.05"`, and `display_dollars(-5)` is `"-$0.05"`.
pub fn display_dollars(amount: i32) -> (r: String)
    ensures
        r@ == dollars_text(amount as int),
{
    let neg = amount < 0;
    let mag: u64 = if neg {
        (-(amount as i64)) as u64
    } else {
        amount as u64
    };
    let dollars = udec_to_text(mag / 100);
    let tens = digit_to_str(((mag % 100) / 10) as u32);
    let ones = digit_to_str((mag % 10) as u32);
    let mut r = if neg {
        String::from_str("-$")
    } else {
        String::from_str("$")
    };
    r.append(dollars.as_str());
    r.append(".");
    r.append(tens);
    r.append(ones);
    proof {
        reveal_strlit("-$");
        reveal_strlit("$");
        reveal_strlit(".");
        assert(r@ =~= dollars_text(amount as int));
    }
    r
}

/// Whether a fund can be rendered: the signed distance from its
/// amount to its goal must itself be a machine integer.
pub open spec fn display_ok(f: Fund) -> bool {
    i32::MIN <= f.goal - f.amount <= i32::MAX
}

/// The one-line report of a fund: the amount centred in eight
/// columns, the goal left-aligned in eight, and the signed distance
/// still to go.
pub open spec fn fund_text(f: Fund) -> Seq<char> {
    aligned_center(dollars_text(f.amount as int), 8) + " / "@ + aligned_left(
        dollars_text(f.goal as int),
        8,
    ) + " -- "@ + dollars_text(f.goal - f.amount) + " away from goal"@
}

impl Fund {
    /// Renders the fund for display: amount, goal, and how far the
    /// amount still is from the goal.
    pub fn display(&self) -> (r: String)
        requires
            display_ok(*self),
        ensures
            r@ == fund_text(*self),
    {
        let mut r = align_center(display_dollars(self.amount).as_str(), 8);
        r.append(" / ");
        let goal = align_left(display_dollars(self.goal).as_str(), 8);
        r.append(goal.as_str());
        r.append(" -- ");
        let away = display_dollars(self.goal - self.amount);
        r.append(away.as_str());
        r.append(" away from goal");
        proof {
            assert(r@ =~= fund_text(*self));
        }
        r
    }
}

/// The digits of the currency text of a nonnegative `m`, in order:
/// the dollar digits followed by the two cent digits.
spec fn dollars_body(m: int) -> Seq<char> {
    dec_digits((m / 100) as nat) + seq![digit_char((m % 100) / 10), digit_char(m % 10)]
}

/// For a nonnegative `m`, the currency text filtered down to its
/// digits denotes `m` again, and ends in the two cent digits.
#[verifier::rlimit(100)]
proof fn lemma_unsigned_dollars_body(m: int, pred: spec_fn(char) -> bool)
    requires
        m >= 0,
        forall|c: char| #[trigger] pred(c) == (c != '$' && c != '.'),
    ensures
        crate::digits::all_digits(dollars_body(m)),
        dollars_body(m).len() >= 3,
        dollars_body(m)[0] != '+' && dollars_body(m)[0] != '-',
        unsigned_dollars_text(m).filter(pred) == dollars_body(m),
        parse_int(dollars_body(m)) == Some(m),
        unsigned_dollars_text(m).len() >= 5,
        unsigned_dollars_text(m).last() == digit_char(m % 10),
        unsigned_dollars_text(m)[unsigned_dollars_text(m).len() - 2] == digit_char((m % 100) / 10),
{
    let d = dec_digits((m / 100) as nat);
    let t = digit_char((m % 100) / 10);
    let o = digit_char(m % 10);
    lemma_dec_digits_are_digits((m / 100) as nat);
    lemma_dec_digits_val((m / 100) as nat);
    lemma_digit_char_val((m % 100) / 10);
    lemma_digit_char_val(m % 10);
    let u = unsigned_dollars_text(m);
    let body = dollars_body(m);
    assert(u.filter(pred) == body) by {
        assert(u == seq!['$'] + d + seq!['.'] + seq![t, o]);
        lemma_filter_drops_all(seq!['$'], pred);
        lemma_filter_keeps_all(d, pred);
        lemma_filter_drops_all(seq!['.'], pred);
        lemma_filter_keeps_all(seq![t, o], pred);
        Seq::filter_distributes_over_add(seq!['$'], d, pred);
        Seq::filter_distributes_over_add(seq!['$'] + d, seq!['.'], pred);
        Seq::filter_distributes_over_add(seq!['$'] + d + seq!['.'], seq![t, o], pred);
        assert(u.filter(pred) =~= body);
    }
    assert(digits_val(body) == m) by {
        assert(body.drop_last() =~= d + seq![t]);
        assert((d + seq![t]).drop_last() =~= d);
        assert(body.last() == o);
        assert((d + seq![t]).last() == t);
        assert(digits_val(d + seq![t]) == digits_val(d) * 10 + digit_val(t));
        assert(digits_val(body) == (digits_val(d) * 10 + digit_val(t)) * 10 + digit_val(o));
        assert(m == (m / 100) * 100 + ((m % 100) / 10) * 10 + (m % 10));
    }
    assert(body[0] != '+' && body[0] != '-') by {
        if d.len() > 0 {
            assert(body[0] == d[0]);
            assert(is_digit(d[0]));
        }
    }
    assert(parse_int(body) == Some(m));
    assert(u.last() == o);
    assert(u[u.len() - 2] == t);
}

/// The currency text of any `v` ends in its two cent digits, and the
/// digits that remain after discarding the `'$'` and `'.'` marks
/// parse back to `v` itself.
pub proof fn lemma_display_dollars_reparse(v: int)
    ensures
        dollars_text(v).len() >= 5,
        is_digit(dollars_text(v)[dollars_text(v).len() - 1]),
        is_digit(dollars_text(v)[dollars_text(v).len() - 2]),
        parse_int(dollars_text(v).filter(|c: char| c != '$' && c != '.')) == Some(v),
{
    let pred = |c: char| c != '$' && c != '.';
    let m = if v < 0 {
        -v
    } else {
        v
    };
    lemma_unsigned_dollars_body(m, pred);
    lemma_digit_char_val((m % 100) / 10);
    lemma_digit_char_val(m % 10);
    let u = unsigned_dollars_text(m);
    let body = dollars_body(m);
    if v < 0 {
        let s = dollars_text(v);
        assert(s == seq!['-'] + u);
        assert(s.filter(pred) == seq!['-'] + body) by {
            lemma_filter_keeps_all(seq!['-'], pred);
            Seq::filter_distributes_over_add(seq!['-'], u, pred);
        }
        let f = s.filter(pred);
        assert(f[0] == '-');
        assert(f.subrange(1, f.len() as int) =~= body);
        assert(parse_int(f) == Some(-m));
        assert(s[s.len() - 1] == digit_char(m % 10));
        assert(s[s.len() - 2] == digit_char((m % 100) / 10));
    } else {
        assert(parse_int(dollars_text(v).filter(pred)) == Some(m));
    }
}

} // verus!
