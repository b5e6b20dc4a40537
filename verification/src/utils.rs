//! Small shared pieces: the axis-aligned bounding box, fixed-point text
//! output, and a comma-separated vector literal parser.

use vstd::prelude::*;
use crate::vector::Vector;
use crate::fixed::SCALE;
use vstd::arithmetic::div_mod::{lemma_fundamental_div_mod, lemma_mod_bound};

verus! {

/// An axis-aligned box: the minimum corner and the (componentwise
/// nonnegative) extent.
#[derive(Clone, Copy, PartialEq, Eq, Structural, Debug)]
pub struct Aabb {
    pub origin: Vector,
    pub size: Vector,
}

impl Aabb {
    /// A box never has a negative extent.
    pub open spec fn wf(self) -> bool {
        self.size.x >= 0 && self.size.y >= 0 && self.size.z >= 0
    }
}

/// The index of the first comma at or after `i`.
pub open spec fn scan_comma(s: Seq<u8>, i: int) -> int
    decreases s.len() - i,
{
    if 0 <= i < s.len() && s[i] != 44 {
        scan_comma(s, i + 1)
    } else {
        i
    }
}

/// A comma-separated vector literal: up to three decimal components, each
/// read whole; missing components are zero; anything else fails.
pub open spec fn spec_parse_vector(s: Seq<u8>) -> Option<Vector> {
    let c1 = scan_comma(s, 0);
    match crate::parser::spec_parse_number(s, 0) {
        Option::Some((k1, vx)) => if k1 == c1 {
            if c1 == s.len() {
                Option::Some(Vector { x: vx as i64, y: 0, z: 0 })
            } else {
                let c2 = scan_comma(s, c1 + 1);
                match crate::parser::spec_parse_number(s, c1 + 1) {
                    Option::Some((k2, vy)) => if k2 == c2 {
                        if c2 == s.len() {
                            Option::Some(Vector { x: vx as i64, y: vy as i64, z: 0 })
                        } else {
                            let c3 = scan_comma(s, c2 + 1);
                            match crate::parser::spec_parse_number(s, c2 + 1) {
                                Option::Some((k3, vz)) => if k3 == c3 {
                                    Option::Some(
                                        Vector { x: vx as i64, y: vy as i64, z: vz as i64 },
                                    )
                                } else {
                                    Option::None
                                },
                                Option::None => Option::None,
                            }
                        }
                    } else {
                        Option::None
                    },
                    Option::None => Option::None,
                }
            }
        } else {
            Option::None
        },
        Option::None => Option::None,
    }
}

/// The executable comma scan.
fn find_comma(s: &[u8], i: usize) -> (r: usize)
    requires
        i <= s@.len(),
    ensures
        r == scan_comma(s@, i as int),
        i <= r <= s@.len(),
    decreases s@.len() - i,
{
    if i < s.len() && s[i] != 44 {
        find_comma(s, i + 1)
    } else {
        i
    }
}

/// Parse a comma-separated vector literal, exactly as `spec_parse_vector`
/// says: each present component a decimal number filling its slot, absent
/// components zero.
pub fn parse_vector(s: &[u8]) -> (r: Option<Vector>)
    ensures
        r == spec_parse_vector(s@),
{
    let c1: usize = find_comma(s, 0);
    match crate::parser::parse_float_arg(s, 0) {
        Option::Some((k1, vx)) => {
            if k1 != c1 {
                None
            } else if c1 == s.len() {
                Some(Vector { x: vx, y: 0, z: 0 })
            } else {
                let c2: usize = find_comma(s, c1 + 1);
                match crate::parser::parse_float_arg(s, c1 + 1) {
                    Option::Some((k2, vy)) => {
                        if k2 != c2 {
                            None
                        } else if c2 == s.len() {
                            Some(Vector { x: vx, y: vy, z: 0 })
                        } else {
                            let c3: usize = find_comma(s, c2 + 1);
                            match crate::parser::parse_float_arg(s, c2 + 1) {
                                Option::Some((k3, vz)) => {
                                    if k3 != c3 {
                                        None
                                    } else {
                                        Some(Vector { x: vx, y: vy, z: vz })
                                    }
                                },
                                Option::None => None,
                            }
                        }
                    },
                    Option::None => None,
                }
            }
        },
        Option::None => None,
    }
}

/// The decimal digits of `n`, most significant first.
pub open spec fn dec_digits(n: int) -> Seq<u8>
    decreases n,
{
    if n < 10 {
        seq![(48 + if n >= 0 { n } else { 0 }) as u8]
    } else {
        dec_digits(n / 10).push((48 + n % 10) as u8)
    }
}

/// A five-digit zero-padded fraction, most significant first.
pub open spec fn spec_frac5(f: int) -> Seq<u8> {
    seq![
        (48 + (f / 10000) % 10) as u8,
        (48 + (f / 1000) % 10) as u8,
        (48 + (f / 100) % 10) as u8,
        (48 + (f / 10) % 10) as u8,
        (48 + f % 10) as u8,
    ]
}

/// The five-decimal rendering of a fixed-point scalar: an optional minus
/// sign, the whole millimetres, a point, and exactly five fraction digits.
pub open spec fn spec_fmt_fixed(v: int) -> Seq<u8> {
    let a = if v >= 0 { v } else { -v };
    let sign: Seq<u8> = if v < 0 { seq![45u8] } else { Seq::empty() };
    sign + dec_digits(a / (SCALE as int)) + seq![46u8] + spec_frac5(a % (SCALE as int))
}

/// Append the decimal digits of `n`.
fn push_dec(out: &mut Vec<u8>, n: u64)
    requires
        n < 0x8000_0000_0000_0000,
    ensures
        final(out)@ == old(out)@ + dec_digits(n as int),
    decreases n,
{
    if n < 10 {
        out.push(48 + (n as u8));
        proof {
            assert(final(out)@ =~= old(out)@ + dec_digits(n as int));
        }
    } else {
        let ghost mid = out@;
        push_dec(out, n / 10);
        out.push(48 + ((n % 10) as u8));
        proof {
            assert(final(out)@ =~= mid + dec_digits(n as int));
        }
    }
}

/// Append the five-decimal rendering of a fixed-point scalar.
pub fn push_fixed(out: &mut Vec<u8>, v: i64)
    requires
        v > i64::MIN,
    ensures
        final(out)@ == old(out)@ + spec_fmt_fixed(v as int),
{
    let a: u64 = if v >= 0 {
        v as u64
    } else {
        (-v) as u64
    };
    if v < 0 {
        out.push(45);
    }
    let whole: u64 = a / (SCALE as u64);
    let frac: u64 = a % (SCALE as u64);
    push_dec(out, whole);
    out.push(46);
    out.push(48 + ((frac / 10000) % 10) as u8);
    out.push(48 + ((frac / 1000) % 10) as u8);
    out.push(48 + ((frac / 100) % 10) as u8);
    out.push(48 + ((frac / 10) % 10) as u8);
    out.push(48 + (frac % 10) as u8);
    proof {
        lemma_mod_bound(a as int, SCALE as int);
        lemma_mod_bound(frac as int, 10);
        lemma_mod_bound((frac as int) / 10, 10);
        lemma_mod_bound((frac as int) / 100, 10);
        lemma_mod_bound((frac as int) / 1000, 10);
        lemma_mod_bound((frac as int) / 10000, 10);
        assert(final(out)@ =~= old(out)@ + spec_fmt_fixed(v as int));
    }
}

} // verus!
