//! The choices a run makes from its command line.
use vstd::prelude::*;

use crate::text::{chars_of, str_eq};

verus! {

/// The number written by the decimal digits `d`.
pub open spec fn digits_value(d: Seq<char>) -> nat
    decreases d.len(),
{
    if d.len() == 0 {
        0
    } else {
        digits_value(d.drop_last()) * 10 + (d.last() as nat - 48) as nat
    }
}

/// Every character of `d` is a decimal digit.
pub open spec fn all_digits(d: Seq<char>) -> bool {
    forall|i: int| 0 <= i < d.len() ==> '0' <= #[trigger] d[i] <= '9'
}

/// The unsigned number that `s` writes: an optional `+`, then at least one decimal
/// digit and nothing else (as `usize::from_str`, before the range check).
pub open spec fn unsigned_value(s: Seq<char>) -> Option<nat> {
    let d = if s.len() > 0 && s[0] == '+' {
        s.drop_first()
    } else {
        s
    };
    if d.len() > 0 && all_digits(d) {
        Some(digits_value(d))
    } else {
        None
    }
}

/// The number of training steps that a run uses for the argument `arg`.
pub open spec fn steps_for(arg: Option<Seq<char>>) -> nat {
    match arg {
        Some(a) => match unsigned_value(a) {
            Some(v) => if v <= usize::MAX {
                v
            } else {
                1500
            },
            None => 1500,
        },
        None => 1500,
    }
}

proof fn lemma_digits_value_grows(d: Seq<char>, c: char)
    requires
        '0' <= c <= '9',
    ensures
        digits_value(d) <= digits_value(d.push(c)),
{
    assert(d.push(c).drop_last() == d);
}

/// The number of training steps: the argument when it is a number that fits a
/// `usize`, else 1500.
pub fn parse_steps(arg: Option<&str>) -> (n: usize)
    ensures
        n == steps_for(
            match arg {
                Some(a) => Some(a@),
                None => None,
            },
        ),
{
    match arg {
        Some(a) => steps_from_text(a),
        None => 1500,
    }
}

fn steps_from_text(a: &str) -> (n: usize)
    ensures
        n == steps_for(Some(a@)),
{
    let cs = chars_of(a);
    let start: usize = if cs.len() > 0 && cs[0] == '+' {
        1
    } else {
        0
    };
    let ghost d = if cs@.len() > 0 && cs@[0] == '+' {
        cs@.drop_first()
    } else {
        cs@
    };
    assert(d =~= cs@.subrange(start as int, cs@.len() as int));
    if start >= cs.len() {
        assert(d.len() == 0);
        return 1500;
    }
    let mut value: usize = 0;
    let mut overflow = false;
    let mut k = start;
    while k < cs.len()
        invariant
            cs@ == a@,
            d == (if cs@.len() > 0 && cs@[0] == '+' {
                cs@.drop_first()
            } else {
                cs@
            }),
            start <= k <= cs@.len(),
            d == cs@.subrange(start as int, cs@.len() as int),
            all_digits(cs@.subrange(start as int, k as int)),
            !overflow ==> value == digits_value(cs@.subrange(start as int, k as int)),
            overflow ==> digits_value(cs@.subrange(start as int, k as int)) > usize::MAX,
        decreases cs@.len() - k,
    {
        let c = cs[k];
        if c < '0' || c > '9' {
            assert(d[k - start] == c);
            return 1500;
        }
        let digit: usize = (c as u32 - 48) as usize;
        let ghost prefix = cs@.subrange(start as int, k as int);
        assert(cs@.subrange(start as int, k + 1) =~= prefix.push(c));
        proof {
            lemma_digits_value_grows(prefix, c);
            assert(prefix.push(c).drop_last() == prefix);
        }
        if !overflow {
            match value.checked_mul(10) {
                Some(v10) => match v10.checked_add(digit) {
                    Some(v) => {
                        value = v;
                    },
                    None => {
                        overflow = true;
                    },
                },
                None => {
                    overflow = true;
                },
            }
        }
        k = k + 1;
    }
    if overflow {
        1500
    } else {
        value
    }
}

/// Whether a run works on the real Apache log: the mode argument is `real`; the
/// default mode (no argument) is the synthetic one.
pub fn is_real_mode(arg: Option<&str>) -> (r: bool)
    ensures
        r == (arg matches Some(a) && a@ == "real"@),
{
    match arg {
        Some(a) => str_eq(a, "real"),
        None => false,
    }
}

} // verus!
