//! The toolpath line parser.
//!
//! A line is an optional `N`-prefixed line number, an optional command with
//! axis-letter arguments, and an optional `;` comment. Unknown command
//! names, malformed arguments, or stray trailing text make the line
//! unrecognized: the rewriter then passes it through unchanged. The grammar
//! is stated by spec functions over the byte sequence; the executable
//! parser returns exactly what they say.
//!
//! A numeric argument is a decimal literal with an optional sign and at most
//! five meaningful fraction digits (further digits are cut); magnitudes
//! beyond `COORD_LIMIT` are rejected as malformed.

use vstd::prelude::*;
use crate::fixed::COORD_LIMIT;
use crate::command::{Command, G0, G1, G92, BEGIN_DEWARP, END_DEWARP};

verus! {

/// A blank or tab, as under a command's arguments.
pub open spec fn is_space(b: u8) -> bool {
    b == 32 || b == 9
}

/// An ASCII decimal digit.
pub open spec fn is_digit(b: u8) -> bool {
    48 <= b <= 57
}

/// An ASCII letter.
pub open spec fn is_alpha(b: u8) -> bool {
    (65 <= b <= 90) || (97 <= b <= 122)
}

/// A character a command name may start with.
pub open spec fn is_name_start(b: u8) -> bool {
    is_alpha(b) || b == 95
}

/// A character a command name may continue with.
pub open spec fn is_name_char(b: u8) -> bool {
    is_alpha(b) || is_digit(b) || b == 95
}

/// The letter folded to upper case.
pub open spec fn upper(b: u8) -> u8 {
    if 97 <= b <= 122 {
        (b - 32) as u8
    } else {
        b
    }
}

/// The index of the first non-space at or after `i`.
pub open spec fn scan_spaces(s: Seq<u8>, i: int) -> int
    decreases s.len() - i,
{
    if 0 <= i < s.len() && is_space(s[i]) {
        scan_spaces(s, i + 1)
    } else {
        i
    }
}

/// The index of the first non-digit at or after `i`.
pub open spec fn scan_digits(s: Seq<u8>, i: int) -> int
    decreases s.len() - i,
{
    if 0 <= i < s.len() && is_digit(s[i]) {
        scan_digits(s, i + 1)
    } else {
        i
    }
}

/// The index of the first non-letter at or after `i`.
pub open spec fn scan_alpha(s: Seq<u8>, i: int) -> int
    decreases s.len() - i,
{
    if 0 <= i < s.len() && is_alpha(s[i]) {
        scan_alpha(s, i + 1)
    } else {
        i
    }
}

/// The index of the first non-name character at or after `i`.
pub open spec fn scan_name(s: Seq<u8>, i: int) -> int
    decreases s.len() - i,
{
    if 0 <= i < s.len() && is_name_char(s[i]) {
        scan_name(s, i + 1)
    } else {
        i
    }
}

/// The value of the digit run `[i, j)`.
pub open spec fn digits_val(s: Seq<u8>, i: int, j: int) -> int
    decreases j - i,
{
    if i < j {
        digits_val(s, i, j - 1) * 10 + (s[j - 1] - 48)
    } else {
        0
    }
}

/// The `k`-th fraction digit of the run `[i, j)`, zero past its end.
pub open spec fn frac_digit(s: Seq<u8>, i: int, j: int, k: int) -> int {
    if i + k < j {
        s[i + k] - 48
    } else {
        0
    }
}

/// The value of the run `[i, j)` read as exactly five fraction digits:
/// missing digits count zero, digits past the fifth are cut.
pub open spec fn frac_val(s: Seq<u8>, i: int, j: int) -> int {
    frac_digit(s, i, j, 0) * 10000 + frac_digit(s, i, j, 1) * 1000 + frac_digit(s, i, j, 2) * 100
        + frac_digit(s, i, j, 3) * 10 + frac_digit(s, i, j, 4)
}

/// A decimal literal at `i`: an optional sign, then digits with an optional
/// point, either side of which may be empty but not both. Yields the end
/// index and the fixed-point value; values beyond `COORD_LIMIT` are
/// rejected.
pub open spec fn spec_parse_number(s: Seq<u8>, i: int) -> Option<(int, int)> {
    let neg = i < s.len() && s[i] == 45;
    let i1 = if i < s.len() && (s[i] == 43 || s[i] == 45) {
        i + 1
    } else {
        i
    };
    let j = scan_digits(s, i1);
    if j < s.len() && s[j] == 46 {
        let k = scan_digits(s, j + 1);
        if j == i1 && k == j + 1 {
            Option::None
        } else {
            let v = digits_val(s, i1, j) * (crate::fixed::SCALE as int) + frac_val(s, j + 1, k);
            if v <= COORD_LIMIT {
                Option::Some((k, if neg { -v } else { v }))
            } else {
                Option::None
            }
        }
    } else if j > i1 {
        let v = digits_val(s, i1, j) * (crate::fixed::SCALE as int);
        if v <= COORD_LIMIT {
            Option::Some((j, if neg { -v } else { v }))
        } else {
            Option::None
        }
    } else {
        Option::None
    }
}

/// The argument values of one command: absent axes stay `None`.
#[derive(Clone, Copy, Debug)]
pub struct AxisValues {
    pub x: Option<i64>,
    pub y: Option<i64>,
    pub z: Option<i64>,
    pub a: Option<i64>,
    pub b: Option<i64>,
    pub c: Option<i64>,
    pub e: Option<i64>,
    pub f: Option<i64>,
}

/// No arguments seen yet.
pub open spec fn spec_blank_axes() -> AxisValues {
    AxisValues {
        x: Option::None,
        y: Option::None,
        z: Option::None,
        a: Option::None,
        b: Option::None,
        c: Option::None,
        e: Option::None,
        f: Option::None,
    }
}

/// Which axis letters a command accepts.
#[derive(Clone, Copy, PartialEq, Eq, Structural, Debug)]
pub enum ArgSet {
    /// A motion: X Y Z A B C E F.
    Motion,
    /// Set position: X Y Z A B C E.
    SetPos,
    /// The enable marker: X Y.
    Begin,
    /// The disable marker: nothing.
    End,
}

/// Whether the (upper-cased) letter is an axis of the set.
pub open spec fn spec_allows(set: ArgSet, l: u8) -> bool {
    match set {
        ArgSet::Motion => l == 88 || l == 89 || l == 90 || l == 65 || l == 66 || l == 67 || l == 69
            || l == 70,
        ArgSet::SetPos => l == 88 || l == 89 || l == 90 || l == 65 || l == 66 || l == 67 || l == 69,
        ArgSet::Begin => l == 88 || l == 89,
        ArgSet::End => false,
    }
}

/// The values with the (upper-cased) letter's axis set to `v`.
pub open spec fn spec_set_axis(cur: AxisValues, l: u8, v: i64) -> AxisValues {
    if l == 88 {
        AxisValues { x: Option::Some(v), ..cur }
    } else if l == 89 {
        AxisValues { y: Option::Some(v), ..cur }
    } else if l == 90 {
        AxisValues { z: Option::Some(v), ..cur }
    } else if l == 65 {
        AxisValues { a: Option::Some(v), ..cur }
    } else if l == 66 {
        AxisValues { b: Option::Some(v), ..cur }
    } else if l == 67 {
        AxisValues { c: Option::Some(v), ..cur }
    } else if l == 69 {
        AxisValues { e: Option::Some(v), ..cur }
    } else if l == 70 {
        AxisValues { f: Option::Some(v), ..cur }
    } else {
        cur
    }
}

/// The argument list from `i` on: spaces, then either the end of the
/// arguments (anything that is not a letter), or one axis letter with its
/// value, then the rest. A letter run longer than one, a letter outside the
/// set, or a malformed value fails the whole command.
pub open spec fn spec_parse_axes(s: Seq<u8>, i: int, cur: AxisValues, set: ArgSet) -> Option<
    (int, AxisValues),
>
    decreases s.len() - i,
{
    let i1 = scan_spaces(s, i);
    if i1 < s.len() && is_alpha(s[i1]) {
        let j = scan_alpha(s, i1);
        if j == i1 + 1 && spec_allows(set, upper(s[i1])) {
            match spec_parse_number(s, j) {
                Option::Some((k, v)) => if i < k <= s.len() {
                    spec_parse_axes(s, k, spec_set_axis(cur, upper(s[i1]), v as i64), set)
                } else {
                    Option::None
                },
                Option::None => Option::None,
            }
        } else {
            Option::None
        }
    } else {
        Option::Some((i1, cur))
    }
}

/// The recognized command at `i`, with everything it consumed.
pub open spec fn spec_parse_command(s: Seq<u8>, i: int) -> Option<(int, Command)> {
    let j = scan_name(s, i);
    if i < s.len() && is_name_start(s[i]) {
        if j - i == 2 && s[i] == 71 && s[i + 1] == 48 {
            match spec_parse_axes(s, j, spec_blank_axes(), ArgSet::Motion) {
                Option::Some((k, av)) => Option::Some((k, Command::G0(G0::from_axes(av)))),
                Option::None => Option::None,
            }
        } else if j - i == 2 && s[i] == 71 && s[i + 1] == 49 {
            match spec_parse_axes(s, j, spec_blank_axes(), ArgSet::Motion) {
                Option::Some((k, av)) => Option::Some((k, Command::G1(G1::from_axes(av)))),
                Option::None => Option::None,
            }
        } else if j - i == 3 && s[i] == 71 && s[i + 1] == 57 && s[i + 2] == 50 {
            match spec_parse_axes(s, j, spec_blank_axes(), ArgSet::SetPos) {
                Option::Some((k, av)) => Option::Some((k, Command::G92(G92::from_axes(av)))),
                Option::None => Option::None,
            }
        } else if j == i + 12 && s[i] == 66 && s[i + 1] == 69 && s[i + 2] == 71 && s[i + 3] == 73
            && s[i + 4] == 78 && s[i + 5] == 95 && s[i + 6] == 68 && s[i + 7] == 69 && s[i + 8]
            == 87 && s[i + 9] == 65 && s[i + 10] == 82 && s[i + 11] == 80 {
            match spec_parse_axes(s, j, spec_blank_axes(), ArgSet::Begin) {
                Option::Some((k, av)) => Option::Some(
                    (k, Command::BEGIN_DEWARP(BEGIN_DEWARP::from_axes(av))),
                ),
                Option::None => Option::None,
            }
        } else if j == i + 10 && s[i] == 69 && s[i + 1] == 78 && s[i + 2] == 68 && s[i + 3] == 95
            && s[i + 4] == 68 && s[i + 5] == 69 && s[i + 6] == 87 && s[i + 7] == 65 && s[i + 8]
            == 82 && s[i + 9] == 80 {
            match spec_parse_axes(s, j, spec_blank_axes(), ArgSet::End) {
                Option::Some((k, av)) => Option::Some((k, Command::END_DEWARP(END_DEWARP {  }))),
                Option::None => Option::None,
            }
        } else {
            Option::None
        }
    } else {
        Option::None
    }
}

/// The index after an optional `N`-prefixed line number and its trailing
/// spaces.
pub open spec fn spec_after_line_num(s: Seq<u8>) -> int {
    if s.len() >= 2 && s[0] == 78 && is_digit(s[1]) {
        scan_spaces(s, scan_digits(s, 1))
    } else {
        0
    }
}

/// Whether only a comment (or nothing) stands at `i`.
pub open spec fn spec_line_end_ok(s: Seq<u8>, i: int) -> bool {
    i == s.len() || (i < s.len() && s[i] == 59)
}

/// The recognized command of one whole line, or `None` for a line to pass
/// through unchanged: an unknown name, malformed arguments, stray trailing
/// text, a comment-only or empty line.
pub open spec fn spec_parse_line(s: Seq<u8>) -> Option<Command> {
    let i0 = spec_after_line_num(s);
    match spec_parse_command(s, i0) {
        Option::Some((k, cmd)) => if spec_line_end_ok(s, k) {
            Option::Some(cmd)
        } else {
            Option::None
        },
        Option::None => Option::None,
    }
}

/// Every present value within `COORD_LIMIT` of zero.
pub open spec fn av_ok(av: AxisValues) -> bool {
    &&& (av.x matches Option::Some(w) ==> -COORD_LIMIT <= w <= COORD_LIMIT)
    &&& (av.y matches Option::Some(w) ==> -COORD_LIMIT <= w <= COORD_LIMIT)
    &&& (av.z matches Option::Some(w) ==> -COORD_LIMIT <= w <= COORD_LIMIT)
    &&& (av.a matches Option::Some(w) ==> -COORD_LIMIT <= w <= COORD_LIMIT)
    &&& (av.b matches Option::Some(w) ==> -COORD_LIMIT <= w <= COORD_LIMIT)
    &&& (av.c matches Option::Some(w) ==> -COORD_LIMIT <= w <= COORD_LIMIT)
    &&& (av.e matches Option::Some(w) ==> -COORD_LIMIT <= w <= COORD_LIMIT)
    &&& (av.f matches Option::Some(w) ==> -COORD_LIMIT <= w <= COORD_LIMIT)
}

/// A space scan never moves backward.
proof fn lemma_scan_spaces_ge(s: Seq<u8>, i: int)
    requires
        0 <= i,
    ensures
        i <= scan_spaces(s, i),
    decreases s.len() - i,
{
    if 0 <= i < s.len() && is_space(s[i]) {
        lemma_scan_spaces_ge(s, i + 1);
    }
}

/// A name scan never moves backward.
proof fn lemma_scan_name_ge(s: Seq<u8>, i: int)
    requires
        0 <= i,
    ensures
        i <= scan_name(s, i),
    decreases s.len() - i,
{
    if 0 <= i < s.len() && is_name_char(s[i]) {
        lemma_scan_name_ge(s, i + 1);
    }
}

/// A digit scan never moves backward.
proof fn lemma_scan_digits_ge(s: Seq<u8>, i: int)
    requires
        0 <= i,
    ensures
        i <= scan_digits(s, i),
    decreases s.len() - i,
{
    if 0 <= i < s.len() && is_digit(s[i]) {
        lemma_scan_digits_ge(s, i + 1);
    }
}

/// A parsed decimal literal never leaves `COORD_LIMIT`.
proof fn lemma_parse_number_ok(s: Seq<u8>, i: int)
    requires
        0 <= i,
    ensures
        match spec_parse_number(s, i) {
            Option::Some((k, v)) => -COORD_LIMIT <= v <= COORD_LIMIT,
            Option::None => true,
        },
{
    let i1 = if i < s.len() && (s[i] == 43 || s[i] == 45) {
        i + 1
    } else {
        i
    };
    let j = scan_digits(s, i1);
    lemma_scan_digits_digits(s, i1);
    lemma_digits_val_nonneg(s, i1, j);
    vstd::arithmetic::mul::lemma_mul_nonnegative(
        digits_val(s, i1, j),
        crate::fixed::SCALE as int,
    );
    if j < s.len() && s[j] == 46 {
        let k = scan_digits(s, j + 1);
        lemma_scan_digits_digits(s, j + 1);
        lemma_frac_val_range(s, j + 1, k);
    }
}

/// Parsed argument values never leave `COORD_LIMIT`: the literal parser
/// rejects anything larger.
pub proof fn lemma_parse_axes_ok(s: Seq<u8>, i: int, cur: AxisValues, set: ArgSet)
    requires
        av_ok(cur),
        0 <= i,
    ensures
        match spec_parse_axes(s, i, cur, set) {
            Option::Some((k, av)) => av_ok(av),
            Option::None => true,
        },
    decreases s.len() - i,
{
    lemma_scan_spaces_ge(s, i);
    let i1 = scan_spaces(s, i);
    if i1 < s.len() && is_alpha(s[i1]) {
        let j = scan_alpha(s, i1);
        if j == i1 + 1 && spec_allows(set, upper(s[i1])) {
            lemma_parse_number_ok(s, j);
            match spec_parse_number(s, j) {
                Option::Some((k, v)) => {
                    if i < k <= s.len() {
                        lemma_parse_axes_ok(s, k, spec_set_axis(cur, upper(s[i1]), v as i64), set);
                    }
                },
                Option::None => {},
            }
        }
    }
}

/// Every field of a recognized command's record is within `COORD_LIMIT`.
pub proof fn lemma_parse_line_ok(l: Seq<u8>)
    ensures
        match spec_parse_line(l) {
            Option::Some(cmd) => match cmd {
                Command::G0(g) => av_ok(
                    AxisValues {
                        x: g.x,
                        y: g.y,
                        z: g.z,
                        a: g.a,
                        b: g.b,
                        c: g.c,
                        e: g.e,
                        f: g.f,
                    },
                ),
                Command::G1(g) => av_ok(
                    AxisValues {
                        x: g.x,
                        y: g.y,
                        z: g.z,
                        a: g.a,
                        b: g.b,
                        c: g.c,
                        e: g.e,
                        f: g.f,
                    },
                ),
                Command::G92(g) => av_ok(
                    AxisValues {
                        x: g.x,
                        y: g.y,
                        z: g.z,
                        a: g.a,
                        b: g.b,
                        c: g.c,
                        e: g.e,
                        f: Option::None,
                    },
                ),
                Command::BEGIN_DEWARP(b) => av_ok(
                    AxisValues {
                        x: b.x,
                        y: b.y,
                        z: Option::None,
                        a: Option::None,
                        b: Option::None,
                        c: Option::None,
                        e: Option::None,
                        f: Option::None,
                    },
                ),
                Command::END_DEWARP(_) => true,
            },
            Option::None => true,
        },
{
    let i0 = spec_after_line_num(l);
    if l.len() >= 2 && l[0] == 78 && is_digit(l[1]) {
        lemma_scan_digits_ge(l, 1);
        lemma_scan_spaces_ge(l, scan_digits(l, 1));
    }
    lemma_scan_name_ge(l, i0);
    lemma_parse_axes_ok(l, scan_name(l, i0), spec_blank_axes(), ArgSet::Motion);
    lemma_parse_axes_ok(l, scan_name(l, i0), spec_blank_axes(), ArgSet::SetPos);
    lemma_parse_axes_ok(l, scan_name(l, i0), spec_blank_axes(), ArgSet::Begin);
    lemma_parse_axes_ok(l, scan_name(l, i0), spec_blank_axes(), ArgSet::End);
}

/// Executable space scan.
fn skip_spaces(s: &[u8], i: usize) -> (r: usize)
    requires
        i <= s@.len(),
    ensures
        r == scan_spaces(s@, i as int),
        i <= r <= s@.len(),
    decreases s@.len() - i,
{
    if i < s.len() && (s[i] == 32 || s[i] == 9) {
        skip_spaces(s, i + 1)
    } else {
        i
    }
}

/// Executable digit scan.
fn skip_digits(s: &[u8], i: usize) -> (r: usize)
    requires
        i <= s@.len(),
    ensures
        r == scan_digits(s@, i as int),
        i <= r <= s@.len(),
    decreases s@.len() - i,
{
    if i < s.len() && 48 <= s[i] && s[i] <= 57 {
        skip_digits(s, i + 1)
    } else {
        i
    }
}

/// Executable letter scan.
fn skip_alpha(s: &[u8], i: usize) -> (r: usize)
    requires
        i <= s@.len(),
    ensures
        r == scan_alpha(s@, i as int),
        i <= r <= s@.len(),
    decreases s@.len() - i,
{
    if i < s.len() && ((65 <= s[i] && s[i] <= 90) || (97 <= s[i] && s[i] <= 122)) {
        skip_alpha(s, i + 1)
    } else {
        i
    }
}

/// Executable name scan (`parse_cmd_name`'s second half).
fn skip_name(s: &[u8], i: usize) -> (r: usize)
    requires
        i <= s@.len(),
    ensures
        r == scan_name(s@, i as int),
        i <= r <= s@.len(),
    decreases s@.len() - i,
{
    if i < s.len() && ((65 <= s[i] && s[i] <= 90) || (97 <= s[i] && s[i] <= 122) || (48 <= s[i]
        && s[i] <= 57) || s[i] == 95) {
        skip_name(s, i + 1)
    } else {
        i
    }
}

/// The value of the digit run `[i, j)`, capped: exact up to one million,
/// else pinned above one million (all such values are over any accepted
/// magnitude).
fn digits_value_capped(s: &[u8], i: usize, j: usize) -> (r: i64)
    requires
        i <= j <= s@.len(),
        forall|k: int| i <= k < j ==> is_digit(#[trigger] s@[k]),
    ensures
        digits_val(s@, i as int, j as int) <= 1_000_000 ==> r == digits_val(s@, i as int, j as int),
        digits_val(s@, i as int, j as int) > 1_000_000 ==> r > 1_000_000,
        0 <= r <= 10_000_009,
{
    let mut acc: i64 = 0;
    let mut k: usize = i;
    while k < j
        invariant
            i <= k <= j <= s@.len(),
            forall|m: int| i <= m < j ==> is_digit(#[trigger] s@[m]),
            digits_val(s@, i as int, k as int) <= 1_000_000 ==> acc == digits_val(
                s@,
                i as int,
                k as int,
            ),
            digits_val(s@, i as int, k as int) > 1_000_000 ==> acc > 1_000_000,
            0 <= acc <= 10_000_009,
        decreases j - k,
    {
        proof {
            lemma_digits_val_nonneg(s@, i as int, k as int);
            lemma_digits_val_nonneg(s@, i as int, k + 1 as int);
        }
        let d: i64 = (s[k] - 48) as i64;
        if acc <= 1_000_000 {
            acc = acc * 10 + d;
        }
        k += 1;
    }
    acc
}

/// Digit-run values are not negative.
proof fn lemma_digits_val_nonneg(s: Seq<u8>, i: int, j: int)
    requires
        forall|k: int| i <= k < j ==> is_digit(#[trigger] s[k]),
    ensures
        digits_val(s, i, j) >= 0,
    decreases j - i,
{
    if i < j {
        lemma_digits_val_nonneg(s, i, j - 1);
    }
}

/// Executable decimal literal parse (`parse_float_arg`): exactly what
/// `spec_parse_number` says.
pub fn parse_float_arg(s: &[u8], i: usize) -> (r: Option<(usize, i64)>)
    requires
        i <= s@.len(),
    ensures
        match r {
            Option::Some((k, v)) => spec_parse_number(s@, i as int) == Option::Some(
                (k as int, v as int),
            ) && i < k <= s@.len() && -COORD_LIMIT <= v <= COORD_LIMIT,
            Option::None => spec_parse_number(s@, i as int) is None,
        },
{
    let neg: bool = i < s.len() && s[i] == 45;
    let i1: usize = if i < s.len() && (s[i] == 43 || s[i] == 45) {
        i + 1
    } else {
        i
    };
    let j: usize = skip_digits(s, i1);
    proof {
        lemma_scan_digits_digits(s@, i1 as int);
        lemma_digits_val_nonneg(s@, i1 as int, j as int);
    }

    if j < s.len() && s[j] == 46 {
        let k: usize = skip_digits(s, j + 1);
        if j == i1 && k == j + 1 {
            None
        } else {
            proof {
                lemma_scan_digits_digits(s@, j + 1);
            }
            let ip: i64 = digits_value_capped(s, i1, j);
            if ip > 100_000 {
                proof {
                    lemma_value_too_big(digits_val(s@, i1 as int, j as int), s@, j + 1, k as int);
                }
                None
            } else {
                let fr: i64 = frac_value(s, j + 1, k);
                let v: i64 = ip * crate::fixed::SCALE + fr;
                if v <= COORD_LIMIT {
                    Some((k, if neg { -v } else { v }))
                } else {
                    None
                }
            }
        }
    } else if j > i1 {
        let ip: i64 = digits_value_capped(s, i1, j);
        if ip > 100_000 {
            proof {
                lemma_value_too_big(digits_val(s@, i1 as int, j as int), s@, 0, 0);
                assert(frac_val(s@, 0, 0) == 0);
            }
            None
        } else {
            let v: i64 = ip * crate::fixed::SCALE;
            if v <= COORD_LIMIT {
                Some((j, if neg { -v } else { v }))
            } else {
                None
            }
        }
    } else {
        None
    }
}

/// An integer part over a hundred thousand pushes the value over
/// `COORD_LIMIT` whatever the fraction.
proof fn lemma_value_too_big(ip: int, s: Seq<u8>, i: int, j: int)
    requires
        ip > 100_000,
        forall|k: int| i <= k < j ==> is_digit(#[trigger] s[k]),
    ensures
        ip * (crate::fixed::SCALE as int) + frac_val(s, i, j) > COORD_LIMIT,
        ip * (crate::fixed::SCALE as int) > COORD_LIMIT,
{
    assert(ip * 100_000 >= 100_001 * 100_000) by (nonlinear_arith)
        requires
            ip >= 100_001,
    ;
    lemma_frac_val_range(s, i, j);
}

/// A five-digit fraction over digits is within its range.
proof fn lemma_frac_val_range(s: Seq<u8>, i: int, j: int)
    requires
        forall|k: int| i <= k < j ==> is_digit(#[trigger] s[k]),
    ensures
        0 <= frac_val(s, i, j) <= 99_999,
{
}

/// Everything a digit scan passed over is a digit.
proof fn lemma_scan_digits_digits(s: Seq<u8>, i: int)
    requires
        0 <= i,
    ensures
        forall|k: int| i <= k < scan_digits(s, i) ==> is_digit(#[trigger] s[k]),
        i <= scan_digits(s, i),
    decreases s.len() - i,
{
    if 0 <= i < s.len() && is_digit(s[i]) {
        lemma_scan_digits_digits(s, i + 1);
    }
}

/// The executable five-digit fraction value.
fn frac_value(s: &[u8], i: usize, j: usize) -> (r: i64)
    requires
        i <= j <= s@.len(),
        forall|k: int| i <= k < j ==> is_digit(#[trigger] s@[k]),
    ensures
        r == frac_val(s@, i as int, j as int),
        0 <= r <= 99_999,
{
    let d0: i64 = if i < j {
        (s[i] - 48) as i64
    } else {
        0
    };
    let d1: i64 = if j - i > 1 {
        (s[i + 1] - 48) as i64
    } else {
        0
    };
    let d2: i64 = if j - i > 2 {
        (s[i + 2] - 48) as i64
    } else {
        0
    };
    let d3: i64 = if j - i > 3 {
        (s[i + 3] - 48) as i64
    } else {
        0
    };
    let d4: i64 = if j - i > 4 {
        (s[i + 4] - 48) as i64
    } else {
        0
    };
    d0 * 10000 + d1 * 1000 + d2 * 100 + d3 * 10 + d4
}

/// Executable argument-list parse.
fn parse_axes(s: &[u8], i: usize, cur: AxisValues, set: ArgSet) -> (r: Option<(usize, AxisValues)>)
    requires
        i <= s@.len(),
    ensures
        match r {
            Option::Some((k, av)) => spec_parse_axes(s@, i as int, cur, set) == Option::Some(
                (k as int, av),
            ) && k <= s@.len(),
            Option::None => spec_parse_axes(s@, i as int, cur, set) is None,
        },
    decreases s@.len() - i,
{
    let i1: usize = skip_spaces(s, i);
    if i1 < s.len() && ((65 <= s[i1] && s[i1] <= 90) || (97 <= s[i1] && s[i1] <= 122)) {
        let j: usize = skip_alpha(s, i1);
        let l: u8 = if 97 <= s[i1] && s[i1] <= 122 {
            s[i1] - 32
        } else {
            s[i1]
        };
        let letter_ok: bool = match set {
            ArgSet::Motion => l == 88 || l == 89 || l == 90 || l == 65 || l == 66 || l == 67 || l
                == 69 || l == 70,
            ArgSet::SetPos => l == 88 || l == 89 || l == 90 || l == 65 || l == 66 || l == 67 || l
                == 69,
            ArgSet::Begin => l == 88 || l == 89,
            ArgSet::End => false,
        };
        if j == i1 + 1 && letter_ok {
            match parse_float_arg(s, j) {
                Option::Some((k, v)) => {
                    if i < k && k <= s.len() {
                        let nxt: AxisValues = set_axis_value(cur, l, v);
                        parse_axes(s, k, nxt, set)
                    } else {
                        None
                    }
                },
                Option::None => None,
            }
        } else {
            None
        }
    } else {
        Some((i1, cur))
    }
}

/// Parse an argument list from the head of a byte string.
pub fn parse_axes_entry(s: &[u8], set: ArgSet) -> (r: Option<(usize, AxisValues)>)
    ensures
        match r {
            Option::Some((k, av)) => spec_parse_axes(s@, 0, spec_blank_axes(), set)
                == Option::Some((k as int, av)) && k <= s@.len(),
            Option::None => spec_parse_axes(s@, 0, spec_blank_axes(), set) is None,
        },
{
    parse_axes(s, 0, blank_axes(), set)
}

/// Executable axis update.
fn set_axis_value(cur: AxisValues, l: u8, v: i64) -> (r: AxisValues)
    ensures
        r == spec_set_axis(cur, l, v),
{
    let mut r = cur;
    if l == 88 {
        r.x = Some(v);
    } else if l == 89 {
        r.y = Some(v);
    } else if l == 90 {
        r.z = Some(v);
    } else if l == 65 {
        r.a = Some(v);
    } else if l == 66 {
        r.b = Some(v);
    } else if l == 67 {
        r.c = Some(v);
    } else if l == 69 {
        r.e = Some(v);
    } else if l == 70 {
        r.f = Some(v);
    }
    r
}

/// Executable command parse: the name, then the arguments of the recognized
/// command.
pub fn parse_command(s: &[u8], i: usize) -> (r: Option<(usize, Command)>)
    requires
        i <= s@.len(),
    ensures
        match r {
            Option::Some((k, cmd)) => spec_parse_command(s@, i as int) == Option::Some(
                (k as int, cmd),
            ) && k <= s@.len(),
            Option::None => spec_parse_command(s@, i as int) is None,
        },
{
    if !(i < s.len() && ((65 <= s[i] && s[i] <= 90) || (97 <= s[i] && s[i] <= 122) || s[i] == 95)) {
        return None;
    }
    let j: usize = skip_name(s, i);
    if j - i == 2 && s[i] == 71 && s[i + 1] == 48 {
        match parse_axes(s, j, blank_axes(), ArgSet::Motion) {
            Option::Some((k, av)) => Some((k, Command::G0(g0_from_axes(av)))),
            Option::None => None,
        }
    } else if j - i == 2 && s[i] == 71 && s[i + 1] == 49 {
        match parse_axes(s, j, blank_axes(), ArgSet::Motion) {
            Option::Some((k, av)) => Some((k, Command::G1(g1_from_axes(av)))),
            Option::None => None,
        }
    } else if j - i == 3 && s[i] == 71 && s[i + 1] == 57 && s[i + 2] == 50 {
        match parse_axes(s, j, blank_axes(), ArgSet::SetPos) {
            Option::Some((k, av)) => Some((k, Command::G92(g92_from_axes(av)))),
            Option::None => None,
        }
    } else if j - i == 12 && s[i] == 66 && s[i + 1] == 69 && s[i + 2] == 71 && s[i + 3] == 73 && s[i
        + 4] == 78 && s[i + 5] == 95 && s[i + 6] == 68 && s[i + 7] == 69 && s[i + 8] == 87 && s[i
        + 9] == 65 && s[i + 10] == 82 && s[i + 11] == 80 {
        match parse_axes(s, j, blank_axes(), ArgSet::Begin) {
            Option::Some((k, av)) => Some(
                (k, Command::BEGIN_DEWARP(BEGIN_DEWARP { x: av.x, y: av.y })),
            ),
            Option::None => None,
        }
    } else if j - i == 10 && s[i] == 69 && s[i + 1] == 78 && s[i + 2] == 68 && s[i + 3] == 95 && s[i
        + 4] == 68 && s[i + 5] == 69 && s[i + 6] == 87 && s[i + 7] == 65 && s[i + 8] == 82 && s[i
        + 9] == 80 {
        match parse_axes(s, j, blank_axes(), ArgSet::End) {
            Option::Some((k, av)) => Some((k, Command::END_DEWARP(END_DEWARP {  }))),
            Option::None => None,
        }
    } else {
        None
    }
}

/// No arguments seen yet, as a value.
pub fn blank_axes() -> (r: AxisValues)
    ensures
        r == spec_blank_axes(),
{
    AxisValues {
        x: None,
        y: None,
        z: None,
        a: None,
        b: None,
        c: None,
        e: None,
        f: None,
    }
}

/// The motion fields of a parsed argument list.
fn g0_from_axes(av: AxisValues) -> (r: G0)
    ensures
        r == G0::from_axes(av),
{
    G0 { x: av.x, y: av.y, z: av.z, a: av.a, b: av.b, c: av.c, e: av.e, f: av.f }
}

/// The motion fields of a parsed argument list.
fn g1_from_axes(av: AxisValues) -> (r: G1)
    ensures
        r == G1::from_axes(av),
{
    G1 { x: av.x, y: av.y, z: av.z, a: av.a, b: av.b, c: av.c, e: av.e, f: av.f }
}

/// The set-position fields of a parsed argument list.
fn g92_from_axes(av: AxisValues) -> (r: G92)
    ensures
        r == G92::from_axes(av),
{
    G92 { x: av.x, y: av.y, z: av.z, a: av.a, b: av.b, c: av.c, e: av.e }
}

/// The index after an optional line number (`parse_line_num` and its
/// trailing spaces).
pub fn parse_line_num(s: &[u8]) -> (r: usize)
    ensures
        r == spec_after_line_num(s@),
        r <= s@.len(),
{
    if s.len() >= 2 && s[0] == 78 && 48 <= s[1] && s[1] <= 57 {
        let d: usize = skip_digits(s, 1);
        skip_spaces(s, d)
    } else {
        0
    }
}

/// Parse one whole line: the recognized command, or `None` for a line that
/// passes through unchanged.
pub fn parse_line(s: &[u8]) -> (r: Option<Command>)
    ensures
        r == spec_parse_line(s@),
{
    let i0: usize = parse_line_num(s);
    match parse_command(s, i0) {
        Option::Some((k, cmd)) => {
            if k == s.len() || (k < s.len() && s[k] == 59) {
                Some(cmd)
            } else {
                None
            }
        },
        Option::None => None,
    }
}

} // verus!
