//! A compact signed heuristic score. Values inside the centipawn range are
//! material scores; values of larger magnitude encode a forced-mate distance
//! in plies, `i16::MAX - |value|`, signed toward the favoured side. One raw
//! value, `i16::MIN`, is reserved as an "absent" marker for storage encodings
//! and is illegal in a constructed score.

use vstd::prelude::*;
use vstd::string::StringExecFns;
use vstd::std_specs::cmp::PartialOrdSpec;

verus! {

/// Wrapper struct for storing the heuristic evaluation of a position.
///
/// The value `Self::RESERVED_VALUE` is never held by a constructed
/// `Evaluation`; every public constructor guarantees `valid()`.
#[derive(Clone, Copy, Debug, PartialEq, Eq, Structural, Ord)]
pub struct Evaluation {
    value: i16,
}

/// The character standing for one decimal digit.
pub open spec fn digit_char(d: nat) -> char {
    if d == 0 {
        '0'
    } else if d == 1 {
        '1'
    } else if d == 2 {
        '2'
    } else if d == 3 {
        '3'
    } else if d == 4 {
        '4'
    } else if d == 5 {
        '5'
    } else if d == 6 {
        '6'
    } else if d == 7 {
        '7'
    } else if d == 8 {
        '8'
    } else {
        '9'
    }
}

/// The decimal digits of `n`, most significant first, with no leading zero
/// except for `n == 0` itself.
pub open spec fn dec_digits(n: nat) -> Seq<char>
    decreases n,
{
    if n < 10 {
        seq![digit_char(n)]
    } else {
        dec_digits(n / 10).push(digit_char(n % 10))
    }
}

/// The rendered form of a raw score `v`: the decimal string of `v` inside the
/// centipawn range, and `"M"` followed by the signed mate distance in plies,
/// `i16::MAX - |v|` carrying the sign of `v`, outside it.
pub open spec fn spec_render(v: int) -> Seq<char> {
    if Evaluation::MIN_CENTIPAWN_EVALUATION <= v <= Evaluation::MAX_CENTIPAWN_EVALUATION {
        if v < 0 {
            seq!['-'] + dec_digits((-v) as nat)
        } else {
            dec_digits(v as nat)
        }
    } else {
        let dist = i16::MAX - (if v < 0 { -v } else { v });
        if v < 0 && dist > 0 {
            seq!['M', '-'] + dec_digits(dist as nat)
        } else {
            seq!['M'] + dec_digits(dist as nat)
        }
    }
}

impl Evaluation {
    pub const RESERVED_VALUE: i16 = i16::MIN;

    // leaves space for a mate in 2500
    pub const MAX_CENTIPAWN_EVALUATION: i16 = 30_000;

    pub const MIN_CENTIPAWN_EVALUATION: i16 = -Self::MAX_CENTIPAWN_EVALUATION;

    /// The backing raw value.
    pub closed spec fn spec_raw(self) -> i16 {
        self.value
    }

    /// A constructed score never holds the reserved marker.
    pub open spec fn valid(self) -> bool {
        self.spec_raw() != Self::RESERVED_VALUE
    }

    /// The score whose backing value is `value`.
    pub closed spec fn spec_from_raw(value: i16) -> Evaluation {
        Evaluation { value }
    }

    /// Construct a new Evaluation from a raw `i16` value. The reserved
    /// marker is rejected by precondition; it is kept for storage encodings.
    pub fn from_raw(value: i16) -> (result: Self)
        requires
            value != Self::RESERVED_VALUE,
        ensures
            result == Self::spec_from_raw(value),
            result.spec_raw() == value,
            result.valid(),
    {
        Self { value }
    }

    /// Gets the raw value of the Evaluation struct as an `i16`.
    pub fn to_raw(self) -> (result: i16)
        ensures
            result == self.spec_raw(),
    {
        self.value
    }

    /// Human-readable form: the decimal string inside the centipawn range,
    /// `"M"` plus the signed mate distance in plies outside it.
    pub fn render(&self) -> (s: String)
        requires
            self.valid(),
        ensures
            s@ == spec_render(self.spec_raw() as int),
    {
        let v: i16 = self.value;
        let mut s = String::new();
        if Self::MIN_CENTIPAWN_EVALUATION <= v && v <= Self::MAX_CENTIPAWN_EVALUATION {
            if v < 0 {
                proof {
                    reveal_strlit("-");
                }
                s.append("-");
                let m: i16 = -v;
                push_dec_digits(m as u16, &mut s);
                assert(s@ =~= spec_render(self.spec_raw() as int));
            } else {
                push_dec_digits(v as u16, &mut s);
                assert(s@ =~= spec_render(self.spec_raw() as int));
            }
        } else {
            proof {
                reveal_strlit("M");
            }
            s.append("M");
            let m: i16 = if v < 0 {
                -v
            } else {
                v
            };
            let dist: i16 = i16::MAX - m;
            if v < 0 && dist > 0 {
                proof {
                    reveal_strlit("-");
                }
                s.append("-");
            }
            push_dec_digits(dist as u16, &mut s);
            assert(s@ =~= spec_render(self.spec_raw() as int));
        }
        s
    }
}

impl PartialOrd for Evaluation {
    fn partial_cmp(&self, other: &Self) -> (r: Option<core::cmp::Ordering>) {
        if self.value < other.value {
            Some(core::cmp::Ordering::Less)
        } else if self.value == other.value {
            Some(core::cmp::Ordering::Equal)
        } else {
            Some(core::cmp::Ordering::Greater)
        }
    }
}

impl vstd::std_specs::cmp::PartialOrdSpecImpl for Evaluation {
    open spec fn obeys_partial_cmp_spec() -> bool {
        true
    }

    open spec fn partial_cmp_spec(&self, other: &Self) -> Option<core::cmp::Ordering> {
        if self.spec_raw() < other.spec_raw() {
            Some(core::cmp::Ordering::Less)
        } else if self.spec_raw() == other.spec_raw() {
            Some(core::cmp::Ordering::Equal)
        } else {
            Some(core::cmp::Ordering::Greater)
        }
    }
}

/// Appends the single decimal digit `d` to `s`.
fn push_digit(d: u16, s: &mut String)
    requires
        d < 10,
    ensures
        final(s)@ == old(s)@ + seq![digit_char(d as nat)],
{
    match d {
        0u16 => {
            proof {
                reveal_strlit("0");
            }
            s.append("0");
            assert(s@ =~= old(s)@ + seq![digit_char(d as nat)]);
        },
        1u16 => {
            proof {
                reveal_strlit("1");
            }
            s.append("1");
            assert(s@ =~= old(s)@ + seq![digit_char(d as nat)]);
        },
        2u16 => {
            proof {
                reveal_strlit("2");
            }
            s.append("2");
            assert(s@ =~= old(s)@ + seq![digit_char(d as nat)]);
        },
        3u16 => {
            proof {
                reveal_strlit("3");
            }
            s.append("3");
            assert(s@ =~= old(s)@ + seq![digit_char(d as nat)]);
        },
        4u16 => {
            proof {
                reveal_strlit("4");
            }
            s.append("4");
            assert(s@ =~= old(s)@ + seq![digit_char(d as nat)]);
        },
        5u16 => {
            proof {
                reveal_strlit("5");
            }
            s.append("5");
            assert(s@ =~= old(s)@ + seq![digit_char(d as nat)]);
        },
        6u16 => {
            proof {
                reveal_strlit("6");
            }
            s.append("6");
            assert(s@ =~= old(s)@ + seq![digit_char(d as nat)]);
        },
        7u16 => {
            proof {
                reveal_strlit("7");
            }
            s.append("7");
            assert(s@ =~= old(s)@ + seq![digit_char(d as nat)]);
        },
        8u16 => {
            proof {
                reveal_strlit("8");
            }
            s.append("8");
            assert(s@ =~= old(s)@ + seq![digit_char(d as nat)]);
        },
        _ => {
            proof {
                reveal_strlit("9");
            }
            s.append("9");
            assert(s@ =~= old(s)@ + seq![digit_char(d as nat)]);
        },
    }
}

/// Appends the decimal digits of `n` to `s`, most significant first.
fn push_dec_digits(n: u16, s: &mut String)
    ensures
        final(s)@ == old(s)@ + dec_digits(n as nat),
    decreases n,
{
    if n >= 10 {
        push_dec_digits(n / 10, s);
        push_digit(n % 10, s);
        assert(s@ =~= old(s)@ + dec_digits(n as nat));
    } else {
        push_digit(n, s);
    }
}

/// Law: construction from any legal raw value reads back unchanged.
pub proof fn lemma_from_raw_round_trip(v: i16)
    requires
        v != Evaluation::RESERVED_VALUE,
    ensures
        Evaluation::spec_from_raw(v).spec_raw() == v,
        Evaluation::spec_from_raw(v).valid(),
{
}

/// Law: the order on scores is the order on their raw values, so a forced win
/// outranks every material score of the same sign and a nearer mate outranks
/// a farther one.
pub proof fn lemma_order_matches_raw(v1: i16, v2: i16)
    requires
        v1 != Evaluation::RESERVED_VALUE,
        v2 != Evaluation::RESERVED_VALUE,
        v1 < v2,
    ensures
        Evaluation::spec_from_raw(v1).partial_cmp_spec(&Evaluation::spec_from_raw(v2)) == Some(
            core::cmp::Ordering::Less,
        ),
{
}

} // verus!
