//! Decimal text for integers: rendering an integer as base-10
//! characters and parsing base-10 characters back, with proofs that
//! the two directions invert each other.

use vstd::prelude::*;

verus! {

/// The character for the decimal digit `d`.
pub open spec fn digit_char(d: int) -> char {
    if d == 0 {
        '0'
    } else if d == 1 {
        '1'
    } else if d == 2 {
        '2'
    } else if d == 3 {
        '3'
    } else if d == 4 {
        '4'
    } else if d == 5 {
        '5'
    } else if d == 6 {
        '6'
    } else if d == 7 {
        '7'
    } else if d == 8 {
        '8'
    } else {
        '9'
    }
}

/// Whether `c` is a decimal digit.
pub open spec fn is_digit(c: char) -> bool {
    '0' <= c && c <= '9'
}

/// The numeric value of the digit character `c`.
pub open spec fn digit_val(c: char) -> int {
    c as int - '0' as int
}

/// Whether every character of `s` is a decimal digit.
pub open spec fn all_digits(s: Seq<char>) -> bool {
    forall|i: int| 0 <= i < s.len() ==> is_digit(s[i])
}

/// The value of a sequence of digit characters, most significant
/// first; 0 for the empty sequence.
pub open spec fn digits_val(s: Seq<char>) -> int
    decreases s.len(),
{
    if s.len() == 0 {
        0
    } else {
        digits_val(s.drop_last()) * 10 + digit_val(s.last())
    }
}

/// The decimal rendering of `n`: its digits, most significant first,
/// with no leading zeros (a single `'0'` for 0).
pub open spec fn dec_digits(n: nat) -> Seq<char>
    decreases n,
{
    if n < 10 {
        seq![digit_char(n as int)]
    } else {
        dec_digits(n / 10).push(digit_char((n % 10) as int))
    }
}

/// The decimal rendering of `v`, a leading `'-'` when negative; what
/// `to_string` produces for the machine integers.
pub open spec fn int_text(v: int) -> Seq<char> {
    if v < 0 {
        seq!['-'] + dec_digits((-v) as nat)
    } else {
        dec_digits(v as nat)
    }
}

/// The integer denoted by `s`, if any: an optional sign followed by at
/// least one digit, as the machine integers' `parse` accepts, with no
/// bound on the value.
pub open spec fn parse_int(s: Seq<char>) -> Option<int> {
    if s.len() > 0 && (s[0] == '+' || s[0] == '-') {
        let body = s.subrange(1, s.len() as int);
        if body.len() > 0 && all_digits(body) {
            if s[0] == '-' {
                Some(-digits_val(body))
            } else {
                Some(digits_val(body))
            }
        } else {
            None
        }
    } else if s.len() > 0 && all_digits(s) {
        Some(digits_val(s))
    } else {
        None
    }
}

/// A sequence of digits denotes a nonnegative value.
pub proof fn lemma_digits_val_nonneg(s: Seq<char>)
    requires
        all_digits(s),
    ensures
        digits_val(s) >= 0,
    decreases s.len(),
{
    if s.len() > 0 {
        assert(all_digits(s.drop_last()));
        lemma_digits_val_nonneg(s.drop_last());
        assert(digit_val(s.last()) >= 0);
        assert(digits_val(s.drop_last()) * 10 >= 0) by (nonlinear_arith)
            requires
                digits_val(s.drop_last()) >= 0,
        ;
    }
}

/// Extending a sequence of digits to the right never decreases its
/// value.
pub proof fn lemma_digits_val_prefix(s: Seq<char>, k: int)
    requires
        all_digits(s),
        0 <= k <= s.len(),
    ensures
        digits_val(s.subrange(0, k)) <= digits_val(s),
    decreases s.len() - k,
{
    if k < s.len() {
        lemma_digits_val_prefix(s, k + 1);
        let t = s.subrange(0, k + 1);
        assert(t.drop_last() =~= s.subrange(0, k));
        assert(all_digits(s.subrange(0, k)));
        lemma_digits_val_nonneg(s.subrange(0, k));
        assert(digits_val(t) == digits_val(s.subrange(0, k)) * 10 + digit_val(t.last()));
        assert(digits_val(s.subrange(0, k)) * 10 >= digits_val(s.subrange(0, k))) by (nonlinear_arith)
            requires
                digits_val(s.subrange(0, k)) >= 0,
        ;
    } else {
        assert(s.subrange(0, k) =~= s);
    }
}

/// The rendering of `n` consists of digits only.
pub proof fn lemma_dec_digits_are_digits(n: nat)
    ensures
        all_digits(dec_digits(n)),
        dec_digits(n).len() >= 1,
    decreases n,
{
    if n >= 10 {
        lemma_dec_digits_are_digits(n / 10);
    }
}

/// The rendering of `n` denotes `n`.
pub proof fn lemma_dec_digits_val(n: nat)
    ensures
        digits_val(dec_digits(n)) == n,
    decreases n,
{
    if n < 10 {
        let s = dec_digits(n);
        assert(s.drop_last() =~= Seq::<char>::empty());
        assert(digits_val(s) == digits_val(s.drop_last()) * 10 + digit_val(s.last()));
        assert(digit_val(digit_char(n as int)) == n);
    } else {
        lemma_dec_digits_val(n / 10);
        let s = dec_digits(n);
        assert(s.drop_last() =~= dec_digits(n / 10));
        assert(digits_val(s) == (n / 10) * 10 + (n % 10));
    }
}

/// Parsing undoes rendering: the text of `v` denotes `v` and nothing
/// else.
pub proof fn lemma_parse_int_text(v: int)
    ensures
        parse_int(int_text(v)) == Some(v),
{
    if v < 0 {
        let mag = (-v) as nat;
        let s = int_text(v);
        lemma_dec_digits_are_digits(mag);
        lemma_dec_digits_val(mag);
        assert(s[0] == '-');
        assert(s.subrange(1, s.len() as int) =~= dec_digits(mag));
    } else {
        let s = int_text(v);
        lemma_dec_digits_are_digits(v as nat);
        lemma_dec_digits_val(v as nat);
        assert(is_digit(s[0]));
        assert(s[0] != '+' && s[0] != '-');
    }
}

/// A digit character stands for its value.
pub proof fn lemma_digit_char_val(d: int)
    requires
        0 <= d <= 9,
    ensures
        is_digit(digit_char(d)),
        digit_val(digit_char(d)) == d,
{
}

/// Every character of `int_text(v)` is a digit or the leading minus.
pub proof fn lemma_int_text_chars(v: int)
    ensures
        forall|i: int|
            0 <= i < int_text(v).len() ==> (is_digit(int_text(v)[i]) || int_text(v)[i] == '-'),
        int_text(v).len() >= 1,
{
    if v < 0 {
        lemma_dec_digits_are_digits((-v) as nat);
    } else {
        lemma_dec_digits_are_digits(v as nat);
    }
}

/// The digit character of `d`, as a borrowed one-character string.
pub(crate) fn digit_to_str(d: u32) -> (r: &'static str)
    requires
        d < 10,
    ensures
        r@ =~= seq![digit_char(d as int)],
{
    match d {
        0 => {
            proof {
                reveal_strlit("0");
            }
            "0"
        },
        1 => {
            proof {
                reveal_strlit("1");
            }
            "1"
        },
        2 => {
            proof {
                reveal_strlit("2");
            }
            "2"
        },
        3 => {
            proof {
                reveal_strlit("3");
            }
            "3"
        },
        4 => {
            proof {
                reveal_strlit("4");
            }
            "4"
        },
        5 => {
            proof {
                reveal_strlit("5");
            }
            "5"
        },
        6 => {
            proof {
                reveal_strlit("6");
            }
            "6"
        },
        7 => {
            proof {
                reveal_strlit("7");
            }
            "7"
        },
        8 => {
            proof {
                reveal_strlit("8");
            }
            "8"
        },
        _ => {
            proof {
                reveal_strlit("9");
            }
            "9"
        },
    }
}

/// Renders `n` in decimal, no sign, no leading zeros.
pub fn udec_to_text(n: u64) -> (r: String)
    ensures
        r@ == dec_digits(n as nat),
    decreases n,
{
    if n < 10 {
        let r = digit_to_str(n as u32).to_owned();
        assert(r@ =~= dec_digits(n as nat));
        r
    } else {
        let mut s = udec_to_text(n / 10);
        s.append(digit_to_str((n % 10) as u32));
        assert(s@ =~= dec_digits(n as nat));
        s
    }
}

/// Renders `v` in decimal, with a leading `'-'` when negative, as
/// `to_string` would.
pub fn i32_to_text(v: i32) -> (r: String)
    ensures
        r@ == int_text(v as int),
{
    if v < 0 {
        let mag: u64 = (-(v as i64)) as u64;
        let mut s = String::from_str("-");
        let digits = udec_to_text(mag);
        s.append(digits.as_str());
        proof {
            reveal_strlit("-");
            assert(s@ =~= int_text(v as int));
        }
        s
    } else {
        udec_to_text(v as u64)
    }
}

/// Renders `n` in decimal.
pub fn usize_to_text(n: usize) -> (r: String)
    ensures
        r@ == int_text(n as int),
{
    udec_to_text(n as u64)
}

/// Parses `s` as a decimal `i32`, exactly as the standard `parse`
/// does: an optional sign, then at least one digit, and the value in
/// range; `None` otherwise.
pub fn parse_i32(s: &str) -> (r: Option<i32>)
    ensures
        match parse_int(s@) {
            Some(n) => if i32::MIN <= n <= i32::MAX {
                r == Some(n as i32)
            } else {
                r is None
            },
            None => r is None,
        },
{
    let len = s.unicode_len();
    if len == 0 {
        return None;
    }
    let c0 = s.get_char(0);
    let neg = c0 == '-';
    let signed = neg || c0 == '+';
    let start: usize = if signed {
        1
    } else {
        0
    };
    if start == len {
        return None;
    }
    let ghost body = if signed {
        s@.subrange(1, s@.len() as int)
    } else {
        s@
    };
    let mut i: usize = start;
    let mut acc: u64 = 0;
    while i < len
        invariant
            start <= i <= len,
            len == s@.len(),
            0 < len <= usize::MAX,
            signed == (s@[0] == '+' || s@[0] == '-'),
            neg == (s@[0] == '-'),
            start == if signed { 1int } else { 0int },
            start < len,
            body == s@.subrange(start as int, len as int),
            all_digits(s@.subrange(start as int, i as int)),
            acc == digits_val(s@.subrange(start as int, i as int)),
            acc <= 0x8000_0000,
        decreases len - i,
    {
        let c = s.get_char(i);
        if c < '0' || c > '9' {
            proof {
                assert(!is_digit(body[i - start]));
                assert(parse_int(s@) is None);
            }
            return None;
        }
        let d: u32 = (c as u32) - 48;
        proof {
            let t = s@.subrange(start as int, (i + 1) as int);
            assert(t.drop_last() =~= s@.subrange(start as int, i as int));
            assert(t.last() == c);
            assert(digit_val(c) == d);
        }
        acc = acc * 10 + (d as u64);
        i += 1;
        if acc > 0x8000_0000 {
            proof {
                match parse_int(s@) {
                    Some(n) => {
                        assert(all_digits(body));
                        lemma_digits_val_nonneg(body);
                        assert(body.subrange(0, (i - start) as int) =~= s@.subrange(
                            start as int,
                            i as int,
                        ));
                        lemma_digits_val_prefix(body, (i - start) as int);
                        assert(digits_val(body) > 0x8000_0000);
                        if signed {
                            assert(body =~= s@.subrange(1, s@.len() as int));
                        } else {
                            assert(body =~= s@);
                        }
                        assert(n == if neg {
                            -digits_val(body)
                        } else {
                            digits_val(body)
                        });
                        assert(!(i32::MIN <= n <= i32::MAX));
                    },
                    None => {},
                }
            }
            return None;
        }
    }
    proof {
        assert(body =~= s@.subrange(start as int, i as int));
        assert(all_digits(body));
        assert(acc == digits_val(body));
        lemma_digits_val_nonneg(body);
        if signed {
            assert(body =~= s@.subrange(1, s@.len() as int));
            assert(parse_int(s@) == Some(if neg {
                -digits_val(body)
            } else {
                digits_val(body)
            }));
        } else {
            assert(body =~= s@);
            assert(parse_int(s@) == Some(digits_val(body)));
        }
    }
    if neg {
        if acc > 0x8000_0000 {
            None
        } else {
            Some((-(acc as i64)) as i32)
        }
    } else {
        if acc > 0x7fff_ffff {
            None
        } else {
            Some(acc as i32)
        }
    }
}

} // verus!
