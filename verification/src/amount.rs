//! A fixed-point money type with four decimal places of precision.
//!
//! An `Amount` stores a non-negative decimal value as an unsigned 64-bit
//! integer scaled by 10 000, so that exactly four fractional digits are
//! kept without any drift. Extra precision is truncated, never rounded.
use vstd::prelude::*;

use crate::ascii::{all_digits, dec_of, digits_val, is_digit, split_seq};
use vstd::string::StringSliceAdditionalSpecFns;

verus! {

/// A fixed point decimal with four places past the decimal point, stored
/// as the value multiplied by 10 000. Any further precision is truncated
/// when an `Amount` is made.
#[derive(Clone, Copy, Debug, PartialEq, Eq, Structural)]
pub struct Amount(pub u64);

impl View for Amount {
    type V = u64;

    /// The scaled integer an `Amount` stores: the decimal value times
    /// 10 000.
    open spec fn view(&self) -> u64 {
        self.0
    }
}

/// The `i`-th fractional digit of `fr` as a number, `0` past the end.
pub open spec fn fdigit(fr: Seq<u8>, i: int) -> nat {
    if 0 <= i < fr.len() {
        (fr[i] - 48) as nat
    } else {
        0
    }
}

/// The scaled value of the fractional digit sequence `fr`: only the first
/// four digits count, so precision past them is truncated.
pub open spec fn frac_scaled(fr: Seq<u8>) -> nat {
    fdigit(fr, 0) * 1000 + fdigit(fr, 1) * 100 + fdigit(fr, 2) * 10 + fdigit(fr, 3)
}

/// What parsing a decimal-number field yields, as a scaled integer:
/// `None` when the text is not a decimal number (an optional sign, then
/// digits with at most one point, at least one digit in all); `0` for a
/// negative number, since no negative amount is representable; otherwise
/// the value times 10 000, truncated to four fractional digits and
/// saturated at `u64::MAX`.
pub open spec fn spec_parse_amount(s: Seq<u8>) -> Option<u64> {
    if s.len() == 0 {
        None
    } else {
        let neg = s[0] == 45;
        let body = if s[0] == 45 || s[0] == 43 {
            s.skip(1)
        } else {
            s
        };
        let parts = split_seq(body, 46);
        let ip = parts[0];
        let fp = if parts.len() == 2 {
            parts[1]
        } else {
            Seq::<u8>::empty()
        };
        if parts.len() > 2 || !all_digits(ip) || !all_digits(fp) || ip.len() + fp.len() == 0 {
            None
        } else if neg {
            Some(0u64)
        } else {
            let total = digits_val(ip) * 10000 + frac_scaled(fp);
            if total > u64::MAX {
                Some(u64::MAX)
            } else {
                Some(total as u64)
            }
        }
    }
}

/// `10^k`.
pub open spec fn pow10(k: nat) -> nat
    decreases k,
{
    if k == 0 {
        1
    } else {
        10 * pow10((k - 1) as nat)
    }
}

/// The significant fractional digits of the remainder `rem`, written from
/// the most significant of `k` remaining places down, stopping once the
/// remainder is zero.
pub open spec fn frac_digits(rem: nat, k: nat) -> Seq<u8>
    decreases k,
{
    if rem == 0 || k == 0 {
        Seq::<u8>::empty()
    } else {
        let p = pow10((k - 1) as nat);
        seq![(48 + rem / p) as u8] + frac_digits(rem % p, (k - 1) as nat)
    }
}

/// The text of the scaled value `n`: the integer part, then, unless the
/// fractional part is zero, a point and its significant digits.
pub open spec fn render_scaled(n: u64) -> Seq<u8> {
    let whole = dec_of((n / 10000) as nat);
    if n % 10000 == 0 {
        whole
    } else {
        whole + seq![46u8] + frac_digits((n % 10000) as nat, 4)
    }
}

impl Amount {
    /// The zero amount.
    pub fn zero() -> (r: Amount)
        ensures
            r@ == 0,
    {
        Amount(0)
    }

    /// Parses a decimal-number field. Digits past the fourth fractional
    /// place are truncated, a negative number gives zero, and a value too
    /// large for the scaled representation saturates; text that is not a
    /// decimal number gives `None`.
    pub fn parse(s: &str) -> (r: Option<Amount>)
        ensures
            match spec_parse_amount(s.spec_bytes()) {
                Some(v) => r matches Some(a) && a@ == v,
                None => r is None,
            },
    {
        Amount::parse_bytes(s.as_bytes())
    }

    /// Parses a decimal-number field given as bytes.
    pub(crate) fn parse_bytes(s: &[u8]) -> (r: Option<Amount>)
        ensures
            match spec_parse_amount(s@) {
                Some(v) => r matches Some(a) && a@ == v,
                None => r is None,
            },
    {
        if s.len() == 0 {
            return None;
        }
        let neg = s[0] == 45;
        let body: &[u8] = if s[0] == 45 || s[0] == 43 {
            let b = vstd::slice::slice_subrange(s, 1, s.len());
            proof {
                assert(s@.subrange(1, s@.len() as int) =~= s@.skip(1));
            }
            b
        } else {
            s
        };
        let parts = crate::ascii::split_slice(body, 46);
        proof {
            crate::ascii::lemma_split_len(body@, 46);
        }
        if parts.len() > 2 {
            return None;
        }
        let ip: &Vec<u8> = &parts[0];
        let empty_frac: Vec<u8> = Vec::new();
        let fp: &Vec<u8> = if parts.len() == 2 {
            &parts[1]
        } else {
            &empty_frac
        };
        proof {
            assert(empty_frac@ =~= Seq::<u8>::empty());
        }
        if !check_digits(ip.as_slice()) || !check_digits(fp.as_slice()) {
            return None;
        }
        if ip.len() == 0 && fp.len() == 0 {
            return None;
        }
        if neg {
            return Some(Amount(0));
        }
        let f4: u64 = frac_value(fp.as_slice());
        let iv: Option<u64> = if ip.len() == 0 {
            Some(0)
        } else {
            crate::ascii::parse_digits(ip.as_slice(), u64::MAX)
        };
        proof {
            assert(digits_val(Seq::<u8>::empty()) == 0);
        }
        match iv {
            None => {
                // The integer part alone exceeds the scaled range.
                proof {
                    assert(digits_val(ip@) * 10000 + frac_scaled(fp@) > u64::MAX);
                }
                Some(Amount(u64::MAX))
            },
            Some(v) => {
                if v > (u64::MAX - f4) / 10000 {
                    proof {
                        assert(v * 10000 + f4 > u64::MAX) by {
                            assert(v >= (u64::MAX - f4) / 10000 + 1);
                            assert(v * 10000 >= ((u64::MAX - f4) / 10000 + 1) * 10000);
                        };
                    }
                    Some(Amount(u64::MAX))
                } else {
                    proof {
                        assert(v * 10000 + f4 <= u64::MAX) by {
                            assert(v * 10000 <= ((u64::MAX - f4) / 10000) * 10000);
                        };
                    }
                    Some(Amount(v * 10000 + f4))
                }
            },
        }
    }

    /// In-place addition of the scaled values. The caller must have ruled
    /// out overflow of the scaled range.
    pub fn add_assign(&mut self, rhs: Amount)
        requires
            old(self)@ + rhs@ <= u64::MAX,
        ensures
            final(self)@ == old(self)@ + rhs@,
    {
        self.0 = self.0 + rhs.0;
    }

    /// In-place subtraction of the scaled values. The caller must have
    /// established that at least `rhs` is present.
    pub fn sub_assign(&mut self, rhs: Amount)
        requires
            rhs@ <= old(self)@,
        ensures
            final(self)@ == old(self)@ - rhs@,
    {
        self.0 = self.0 - rhs.0;
    }

    /// The text of this amount as bytes: the integer part, then, unless
    /// the fractional part is zero, a point and its significant digits
    /// (`123`, `2.5`, `0.0001`).
    pub fn render(&self) -> (r: Vec<u8>)
        ensures
            r@ == render_scaled(self@),
    {
        let mut out: Vec<u8> = Vec::new();
        self.push_render(&mut out);
        out
    }

    /// Appends the text of this amount to `out`.
    pub(crate) fn push_render(&self, out: &mut Vec<u8>)
        ensures
            final(out)@ == old(out)@ + render_scaled(self@),
    {
        let whole = self.0 / 10000;
        let fr = self.0 % 10000;
        crate::ascii::push_dec(whole, out);
        if fr > 0 {
            out.push(46);
            proof {
                assert(pow10(0) == 1);
                assert(pow10(1) == 10);
                assert(pow10(2) == 100);
                assert(pow10(3) == 1000);
            }
            let d3 = fr / 1000;
            let r3 = fr % 1000;
            out.push(48 + d3 as u8);
            if r3 > 0 {
                let d2 = r3 / 100;
                let r2 = r3 % 100;
                out.push(48 + d2 as u8);
                if r2 > 0 {
                    let d1 = r2 / 10;
                    let r1 = r2 % 10;
                    out.push(48 + d1 as u8);
                    if r1 > 0 {
                        out.push(48 + r1 as u8);
                    }
                }
            }
            proof {
                reveal_with_fuel(frac_digits, 5);
                assert(out@ =~= old(out)@ + render_scaled(self@));
            }
        } else {
            proof {
                assert(out@ =~= old(out)@ + render_scaled(self@));
            }
        }
    }
}

/// Every byte of `s` is a decimal digit.
fn check_digits(s: &[u8]) -> (r: bool)
    ensures
        r == all_digits(s@),
{
    let mut i: usize = 0;
    while i < s.len()
        invariant
            i <= s.len(),
            forall|j: int| 0 <= j < i ==> is_digit(#[trigger] s@[j]),
        decreases s.len() - i,
    {
        if s[i] < 48 || s[i] > 57 {
            return false;
        }
        i = i + 1;
    }
    true
}

/// The scaled value of a fractional digit field: its first four digits.
fn frac_value(fr: &[u8]) -> (r: u64)
    requires
        all_digits(fr@),
    ensures
        r == frac_scaled(fr@),
{
    let l = fr.len();
    let d0: u64 = if 0 < l {
        (fr[0] - 48) as u64
    } else {
        0
    };
    let d1: u64 = if 1 < l {
        (fr[1] - 48) as u64
    } else {
        0
    };
    let d2: u64 = if 2 < l {
        (fr[2] - 48) as u64
    } else {
        0
    };
    let d3: u64 = if 3 < l {
        (fr[3] - 48) as u64
    } else {
        0
    };
    d0 * 1000 + d1 * 100 + d2 * 10 + d3
}

/// Amounts order by their value; `<`, `<=`, `>` and `>=` follow this
/// comparison.
impl PartialOrd for Amount {
    fn partial_cmp(&self, other: &Amount) -> (r: Option<core::cmp::Ordering>) {
        if self.0 < other.0 {
            Some(core::cmp::Ordering::Less)
        } else if self.0 == other.0 {
            Some(core::cmp::Ordering::Equal)
        } else {
            Some(core::cmp::Ordering::Greater)
        }
    }
}

impl vstd::std_specs::cmp::PartialOrdSpecImpl for Amount {
    open spec fn obeys_partial_cmp_spec() -> bool {
        true
    }

    open spec fn partial_cmp_spec(&self, other: &Amount) -> Option<core::cmp::Ordering> {
        if self.0 < other.0 {
            Some(core::cmp::Ordering::Less)
        } else if self.0 == other.0 {
            Some(core::cmp::Ordering::Equal)
        } else {
            Some(core::cmp::Ordering::Greater)
        }
    }
}

/// Truncation law: a decimal number keeps only its first four fractional
/// digits, so parsing `ip.fp` and parsing `ip.` followed by only the
/// first four digits of `fp` give the same amount; nothing is ever
/// rounded up.
pub proof fn lemma_parse_truncates(ip: Seq<u8>, fp: Seq<u8>)
    requires
        all_digits(ip),
        all_digits(fp),
    ensures
        spec_parse_amount(ip + seq![46u8] + fp) == spec_parse_amount(
            ip + seq![46u8] + fp.take(if fp.len() < 4 {
                fp.len() as int
            } else {
                4
            }),
        ),
{
    let e: int = if fp.len() < 4 {
        fp.len() as int
    } else {
        4
    };
    let ft = fp.take(e);
    lemma_dotted_split(ip, fp);
    lemma_dotted_split(ip, ft);
    assert(frac_scaled(fp) == frac_scaled(ft));
}

/// For digit sequences `ip` and `fp`, the text `ip.fp` splits at the
/// point into exactly those two parts.
proof fn lemma_dotted_split(ip: Seq<u8>, fp: Seq<u8>)
    requires
        all_digits(ip),
        all_digits(fp),
    ensures
        ({
            let s = ip + seq![46u8] + fp;
            &&& s.len() > 0
            &&& s[0] != 45
            &&& s[0] != 43
            &&& split_seq(s, 46).len() == 2
            &&& split_seq(s, 46)[0] == ip
            &&& split_seq(s, 46)[1] == fp
        }),
{
    let s = ip + seq![46u8] + fp;
    assert(s[ip.len() as int] == 46);
    assert(forall|i: int| 0 <= i < ip.len() ==> s[i] == ip[i]);
    crate::ascii::lemma_split_at(s, 46, ip.len() as int);
    assert(s.take(ip.len() as int) =~= ip);
    let rest = s.skip(ip.len() as int + 1);
    assert(rest =~= fp);
    crate::ascii::lemma_split_at(fp, 46, fp.len() as int);
    assert(split_seq(s, 46) == seq![ip] + seq![fp]);
    assert((seq![ip] + seq![fp])[0] == ip);
    assert((seq![ip] + seq![fp])[1] == fp);
}

} // verus!
