//! Decimal digit runs: their numeric value and the decimal rendering of an
//! unsigned integer.

use vstd::prelude::*;

verus! {

/// A decimal digit character, `'0'` through `'9'`.
pub open spec fn is_digit(c: char) -> bool {
    48 <= c as u32 && c as u32 <= 57
}

/// Numeric value of a digit character.
pub open spec fn digit_val(c: char) -> nat {
    (c as u32 - 48) as nat
}

/// The digit character for a value below ten.
pub open spec fn digit_char(d: nat) -> char {
    if d == 0 {
        '0'
    } else if d == 1 {
        '1'
    } else if d == 2 {
        '2'
    } else if d == 3 {
        '3'
    } else if d == 4 {
        '4'
    } else if d == 5 {
        '5'
    } else if d == 6 {
        '6'
    } else if d == 7 {
        '7'
    } else if d == 8 {
        '8'
    } else {
        '9'
    }
}

proof fn lemma_digit_char_val(d: nat)
    requires
        d < 10,
    ensures
        is_digit(digit_char(d)),
        digit_val(digit_char(d)) == d,
{
}

/// Value of a sequence of digit characters, most significant first.
pub open spec fn seq_val(s: Seq<char>) -> nat
    decreases s.len(),
{
    if s.len() == 0 {
        0
    } else {
        seq_val(s.drop_last()) * 10 + digit_val(s.last())
    }
}

/// Decimal rendering of `n`, without leading zeros.
pub open spec fn dec_str(n: nat) -> Seq<char>
    decreases n,
{
    if n < 10 {
        seq![digit_char(n)]
    } else {
        dec_str(n / 10).push(digit_char(n % 10))
    }
}

/// The decimal rendering is non-empty and consists of digits only.
pub proof fn lemma_dec_str_digits(n: nat)
    ensures
        dec_str(n).len() >= 1,
        forall|k: int| 0 <= k < dec_str(n).len() ==> is_digit(#[trigger] dec_str(n)[k]),
    decreases n,
{
    if n < 10 {
        lemma_digit_char_val(n);
    } else {
        lemma_dec_str_digits(n / 10);
        lemma_digit_char_val(n % 10);
        assert forall|k: int| 0 <= k < dec_str(n).len() implies is_digit(#[trigger] dec_str(n)[k]) by {
            if k < dec_str(n / 10).len() {
                assert(dec_str(n)[k] == dec_str(n / 10)[k]);
            } else {
                assert(dec_str(n)[k] == digit_char(n % 10));
            }
        }
    }
}

/// Reading the decimal rendering of `n` back as a digit run yields `n`.
pub proof fn lemma_dec_str_val(n: nat)
    ensures
        seq_val(dec_str(n)) == n,
    decreases n,
{
    if n < 10 {
        lemma_digit_char_val(n);
        assert(dec_str(n) == seq![digit_char(n)]);
        assert(dec_str(n).len() == 1);
        assert(dec_str(n).drop_last() =~= Seq::<char>::empty());
        assert(dec_str(n).last() == digit_char(n));
        assert(seq_val(Seq::<char>::empty()) == 0);
        assert(seq_val(dec_str(n)) == seq_val(Seq::<char>::empty()) * 10 + digit_val(
            dec_str(n).last(),
        ));
    } else {
        lemma_dec_str_val(n / 10);
        lemma_digit_char_val(n % 10);
        assert(dec_str(n) == dec_str(n / 10).push(digit_char(n % 10)));
        assert(dec_str(n).drop_last() =~= dec_str(n / 10));
        assert(dec_str(n).last() == digit_char(n % 10));
        assert(seq_val(dec_str(n)) == seq_val(dec_str(n / 10)) * 10 + digit_val(dec_str(n).last()));
        assert(n / 10 * 10 + n % 10 == n) by {
            vstd::arithmetic::div_mod::lemma_fundamental_div_mod(n as int, 10);
        }
    }
}

/// A digit run's value only grows as the run is extended to the right.
pub proof fn lemma_seq_val_prefix_le(s: Seq<char>, m: int)
    requires
        0 <= m <= s.len(),
    ensures
        seq_val(s.subrange(0, m)) <= seq_val(s),
    decreases s.len() - m,
{
    if m == s.len() {
        assert(s.subrange(0, m) =~= s);
    } else {
        lemma_seq_val_prefix_le(s, m + 1);
        assert(s.subrange(0, m + 1).drop_last() =~= s.subrange(0, m));
        assert(seq_val(s.subrange(0, m + 1)) == seq_val(s.subrange(0, m)) * 10 + digit_val(
            s.subrange(0, m + 1).last(),
        ));
    }
}

/// One-character string slice for a digit value.
fn digit_str(d: u64) -> (s: &'static str)
    requires
        d < 10,
    ensures
        s@ == seq![digit_char(d as nat)],
{
    if d == 0 {
        proof {
            reveal_strlit("0");
            assert("0"@ =~= seq![digit_char(0)]);
        }
        "0"
    } else if d == 1 {
        proof {
            reveal_strlit("1");
            assert("1"@ =~= seq![digit_char(1)]);
        }
        "1"
    } else if d == 2 {
        proof {
            reveal_strlit("2");
            assert("2"@ =~= seq![digit_char(2)]);
        }
        "2"
    } else if d == 3 {
        proof {
            reveal_strlit("3");
            assert("3"@ =~= seq![digit_char(3)]);
        }
        "3"
    } else if d == 4 {
        proof {
            reveal_strlit("4");
            assert("4"@ =~= seq![digit_char(4)]);
        }
        "4"
    } else if d == 5 {
        proof {
            reveal_strlit("5");
            assert("5"@ =~= seq![digit_char(5)]);
        }
        "5"
    } else if d == 6 {
        proof {
            reveal_strlit("6");
            assert("6"@ =~= seq![digit_char(6)]);
        }
        "6"
    } else if d == 7 {
        proof {
            reveal_strlit("7");
            assert("7"@ =~= seq![digit_char(7)]);
        }
        "7"
    } else if d == 8 {
        proof {
            reveal_strlit("8");
            assert("8"@ =~= seq![digit_char(8)]);
        }
        "8"
    } else {
        proof {
            reveal_strlit("9");
            assert("9"@ =~= seq![digit_char(9)]);
        }
        "9"
    }
}

/// Renders `n` in decimal.
pub fn u64_to_string(n: u64) -> (s: String)
    ensures
        s@ == dec_str(n as nat),
    decreases n,
{
    if n < 10 {
        let s = String::from_str(digit_str(n));
        s
    } else {
        proof {
            assert(n / 10 < n) by (nonlinear_arith)
                requires
                    n >= 10,
            ;
        }
        let mut s = u64_to_string(n / 10);
        s.append(digit_str(n % 10));
        proof {
            assert(s@ =~= dec_str(n as nat));
        }
        s
    }
}

/// Parses the digit run `s[start..end)` as a number, reporting a value that
/// does not fit in a machine word as `None`.
pub fn parse_digits(s: &str, start: usize, end: usize) -> (r: Option<u64>)
    requires
        start <= end <= s@.len(),
        forall|k: int| start <= k < end ==> is_digit(#[trigger] s@[k]),
    ensures
        match r {
            Some(v) => v as nat == seq_val(s@.subrange(start as int, end as int)),
            None => seq_val(s@.subrange(start as int, end as int)) > u64::MAX,
        },
{
    let ghost whole: Seq<char> = s@.subrange(start as int, end as int);
    let mut acc: u64 = 0;
    let mut k = start;
    while k < end
        invariant
            start <= k <= end <= s@.len(),
            forall|j: int| start <= j < end ==> is_digit(#[trigger] s@[j]),
            whole == s@.subrange(start as int, end as int),
            acc as nat == seq_val(s@.subrange(start as int, k as int)),
        decreases end - k,
    {
        let c = s.get_char(k);
        let d: u64 = (c as u32 - 48) as u64;
        proof {
            assert(d as nat == digit_val(s@[k as int]));
            assert(s@.subrange(start as int, k + 1 as int).drop_last() =~= s@.subrange(
                start as int,
                k as int,
            ));
            assert(s@.subrange(start as int, k + 1 as int).last() == s@[k as int]);
        }
        let next: u64 = match acc.checked_mul(10) {
            Some(m) => match m.checked_add(d) {
                Some(t) => t,
                None => {
                    proof {
                        assert(seq_val(s@.subrange(start as int, k + 1 as int)) > u64::MAX);
                        lemma_seq_val_prefix_le(whole, k + 1 - start);
                        assert(whole.subrange(0, k + 1 - start) =~= s@.subrange(
                            start as int,
                            k + 1 as int,
                        ));
                    }
                    return None;
                },
            },
            None => {
                proof {
                    assert(seq_val(s@.subrange(start as int, k + 1 as int)) > u64::MAX);
                    lemma_seq_val_prefix_le(whole, k + 1 - start);
                    assert(whole.subrange(0, k + 1 - start) =~= s@.subrange(
                        start as int,
                        k + 1 as int,
                    ));
                }
                return None;
            },
        };
        acc = next;
        k += 1;
    }
    Some(acc)
}

} // verus!
