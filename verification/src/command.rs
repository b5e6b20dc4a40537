//! The command model.
//!
//! Each recognized command is a record of optional axis values; an absent
//! axis means "unchanged". Parsing fills the records through the line
//! parser; `render` emits the name and each present axis with five decimal
//! places, the form the rewriter writes out.

use vstd::prelude::*;
use crate::utils::{spec_fmt_fixed, push_fixed};

verus! {

/// A value the renderer can take the magnitude of.
pub open spec fn opt_ok(v: Option<i64>) -> bool {
    match v {
        Option::Some(w) => w > i64::MIN,
        Option::None => true,
    }
}

/// One rendered axis: a space, the letter, the five-decimal value; nothing
/// for an absent axis.
pub open spec fn opt_axis(label: u8, v: Option<i64>) -> Seq<u8> {
    match v {
        Option::Some(w) => seq![32u8, label] + spec_fmt_fixed(w as int),
        Option::None => Seq::empty(),
    }
}

/// Append one rendered axis.
fn push_axis(out: &mut Vec<u8>, label: u8, v: Option<i64>)
    requires
        opt_ok(v),
    ensures
        final(out)@ == old(out)@ + opt_axis(label, v),
{
    match v {
        Option::Some(w) => {
            out.push(32);
            out.push(label);
            push_fixed(out, w);
            proof {
                assert(final(out)@ =~= old(out)@ + opt_axis(label, v));
            }
        },
        Option::None => {
            proof {
                assert(final(out)@ =~= old(out)@ + opt_axis(label, v));
            }
        },
    }
}


/// Rapid move.
#[derive(Clone, Copy, Debug)]
#[allow(non_camel_case_types)]
pub struct G0 {
    pub x: Option<i64>,
    pub y: Option<i64>,
    pub z: Option<i64>,
    pub a: Option<i64>,
    pub b: Option<i64>,
    pub c: Option<i64>,
    pub e: Option<i64>,
    pub f: Option<i64>,
}

impl G0 {
    /// The fields taken from a parsed argument list.
    pub open spec fn from_axes(av: crate::parser::AxisValues) -> G0 {
        G0 { x: av.x, y: av.y, z: av.z, a: av.a, b: av.b, c: av.c, e: av.e, f: av.f }
    }

    /// What parsing this command's arguments from the head of a byte
    /// string yields.
    pub open spec fn spec_args(s: Seq<u8>) -> Option<(int, G0)> {
        match crate::parser::spec_parse_axes(
            s,
            0,
            crate::parser::spec_blank_axes(),
            crate::parser::ArgSet::Motion,
        ) {
            Option::Some((k, av)) => Option::Some((k, G0::from_axes(av))),
            Option::None => Option::None,
        }
    }

    /// Every present value is renderable.
    pub open spec fn fields_ok(self) -> bool {
        opt_ok(self.x) && opt_ok(self.y) && opt_ok(self.z) && opt_ok(self.a) && opt_ok(self.b) && opt_ok(self.c) && opt_ok(self.e) && opt_ok(self.f)
    }

    /// The emitted text: the name, then each present axis.
    pub open spec fn spec_render(self) -> Seq<u8> {
        seq![71u8, 48u8] + opt_axis(88, self.x) + opt_axis(89, self.y) + opt_axis(90, self.z) + opt_axis(65, self.a) + opt_axis(66, self.b) + opt_axis(67, self.c) + opt_axis(69, self.e) + opt_axis(70, self.f)
    }

    /// A command with no arguments set.
    pub fn new() -> (r: G0)
        ensures
            r == (G0 { x: Option::None, y: Option::None, z: Option::None, a: Option::None, b: Option::None, c: Option::None, e: Option::None, f: Option::None }),
    {
        G0 { x: None, y: None, z: None, a: None, b: None, c: None, e: None, f: None }
    }

    /// The same command with `x` set.
    pub fn x(self, value: i64) -> (r: G0)
        ensures
            r == (G0 { x: Option::Some(value), ..self }),
    {
        G0 { x: Some(value), ..self }
    }

    /// The same command with `y` set.
    pub fn y(self, value: i64) -> (r: G0)
        ensures
            r == (G0 { y: Option::Some(value), ..self }),
    {
        G0 { y: Some(value), ..self }
    }

    /// The same command with `z` set.
    pub fn z(self, value: i64) -> (r: G0)
        ensures
            r == (G0 { z: Option::Some(value), ..self }),
    {
        G0 { z: Some(value), ..self }
    }

    /// The same command with `a` set.
    pub fn a(self, value: i64) -> (r: G0)
        ensures
            r == (G0 { a: Option::Some(value), ..self }),
    {
        G0 { a: Some(value), ..self }
    }

    /// The same command with `b` set.
    pub fn b(self, value: i64) -> (r: G0)
        ensures
            r == (G0 { b: Option::Some(value), ..self }),
    {
        G0 { b: Some(value), ..self }
    }

    /// The same command with `c` set.
    pub fn c(self, value: i64) -> (r: G0)
        ensures
            r == (G0 { c: Option::Some(value), ..self }),
    {
        G0 { c: Some(value), ..self }
    }

    /// The same command with `e` set.
    pub fn e(self, value: i64) -> (r: G0)
        ensures
            r == (G0 { e: Option::Some(value), ..self }),
    {
        G0 { e: Some(value), ..self }
    }

    /// The same command with `f` set.
    pub fn f(self, value: i64) -> (r: G0)
        ensures
            r == (G0 { f: Option::Some(value), ..self }),
    {
        G0 { f: Some(value), ..self }
    }

    /// Emit the command as one line of text.
    pub fn render(&self) -> (r: Vec<u8>)
        requires
            self.fields_ok(),
        ensures
            r@ == self.spec_render(),
    {
        let mut out: Vec<u8> = Vec::new();
        out.push(71);
        out.push(48);
        proof {
            assert(out@ =~= seq![71u8, 48u8]);
        }
        push_axis(&mut out, 88, self.x);
        push_axis(&mut out, 89, self.y);
        push_axis(&mut out, 90, self.z);
        push_axis(&mut out, 65, self.a);
        push_axis(&mut out, 66, self.b);
        push_axis(&mut out, 67, self.c);
        push_axis(&mut out, 69, self.e);
        push_axis(&mut out, 70, self.f);
        out
    }

    /// Parse this command's arguments from the head of `input`:
    /// the end of what was consumed, and the command.
    pub fn parse_args(input: &[u8]) -> (r: Option<(usize, G0)>)
        ensures
            match r {
                Option::Some((k, cmd)) => G0::spec_args(input@) == Option::Some((k as int, cmd)),
                Option::None => G0::spec_args(input@) is None,
            },
    {
        match crate::parser::parse_axes_entry(input, crate::parser::ArgSet::Motion) {
            Option::Some((k, av)) => Some((k, G0 { x: av.x, y: av.y, z: av.z, a: av.a, b: av.b, c: av.c, e: av.e, f: av.f })),
            Option::None => None,
        }
    }
}

/// Linear move.
#[derive(Clone, Copy, Debug)]
#[allow(non_camel_case_types)]
pub struct G1 {
    pub x: Option<i64>,
    pub y: Option<i64>,
    pub z: Option<i64>,
    pub a: Option<i64>,
    pub b: Option<i64>,
    pub c: Option<i64>,
    pub e: Option<i64>,
    pub f: Option<i64>,
}

impl G1 {
    /// The fields taken from a parsed argument list.
    pub open spec fn from_axes(av: crate::parser::AxisValues) -> G1 {
        G1 { x: av.x, y: av.y, z: av.z, a: av.a, b: av.b, c: av.c, e: av.e, f: av.f }
    }

    /// What parsing this command's arguments from the head of a byte
    /// string yields.
    pub open spec fn spec_args(s: Seq<u8>) -> Option<(int, G1)> {
        match crate::parser::spec_parse_axes(
            s,
            0,
            crate::parser::spec_blank_axes(),
            crate::parser::ArgSet::Motion,
        ) {
            Option::Some((k, av)) => Option::Some((k, G1::from_axes(av))),
            Option::None => Option::None,
        }
    }

    /// Every present value is renderable.
    pub open spec fn fields_ok(self) -> bool {
        opt_ok(self.x) && opt_ok(self.y) && opt_ok(self.z) && opt_ok(self.a) && opt_ok(self.b) && opt_ok(self.c) && opt_ok(self.e) && opt_ok(self.f)
    }

    /// The emitted text: the name, then each present axis.
    pub open spec fn spec_render(self) -> Seq<u8> {
        seq![71u8, 49u8] + opt_axis(88, self.x) + opt_axis(89, self.y) + opt_axis(90, self.z) + opt_axis(65, self.a) + opt_axis(66, self.b) + opt_axis(67, self.c) + opt_axis(69, self.e) + opt_axis(70, self.f)
    }

    /// A command with no arguments set.
    pub fn new() -> (r: G1)
        ensures
            r == (G1 { x: Option::None, y: Option::None, z: Option::None, a: Option::None, b: Option::None, c: Option::None, e: Option::None, f: Option::None }),
    {
        G1 { x: None, y: None, z: None, a: None, b: None, c: None, e: None, f: None }
    }

    /// The same command with `x` set.
    pub fn x(self, value: i64) -> (r: G1)
        ensures
            r == (G1 { x: Option::Some(value), ..self }),
    {
        G1 { x: Some(value), ..self }
    }

    /// The same command with `y` set.
    pub fn y(self, value: i64) -> (r: G1)
        ensures
            r == (G1 { y: Option::Some(value), ..self }),
    {
        G1 { y: Some(value), ..self }
    }

    /// The same command with `z` set.
    pub fn z(self, value: i64) -> (r: G1)
        ensures
            r == (G1 { z: Option::Some(value), ..self }),
    {
        G1 { z: Some(value), ..self }
    }

    /// The same command with `a` set.
    pub fn a(self, value: i64) -> (r: G1)
        ensures
            r == (G1 { a: Option::Some(value), ..self }),
    {
        G1 { a: Some(value), ..self }
    }

    /// The same command with `b` set.
    pub fn b(self, value: i64) -> (r: G1)
        ensures
            r == (G1 { b: Option::Some(value), ..self }),
    {
        G1 { b: Some(value), ..self }
    }

    /// The same command with `c` set.
    pub fn c(self, value: i64) -> (r: G1)
        ensures
            r == (G1 { c: Option::Some(value), ..self }),
    {
        G1 { c: Some(value), ..self }
    }

    /// The same command with `e` set.
    pub fn e(self, value: i64) -> (r: G1)
        ensures
            r == (G1 { e: Option::Some(value), ..self }),
    {
        G1 { e: Some(value), ..self }
    }

    /// The same command with `f` set.
    pub fn f(self, value: i64) -> (r: G1)
        ensures
            r == (G1 { f: Option::Some(value), ..self }),
    {
        G1 { f: Some(value), ..self }
    }

    /// Emit the command as one line of text.
    pub fn render(&self) -> (r: Vec<u8>)
        requires
            self.fields_ok(),
        ensures
            r@ == self.spec_render(),
    {
        let mut out: Vec<u8> = Vec::new();
        out.push(71);
        out.push(49);
        proof {
            assert(out@ =~= seq![71u8, 49u8]);
        }
        push_axis(&mut out, 88, self.x);
        push_axis(&mut out, 89, self.y);
        push_axis(&mut out, 90, self.z);
        push_axis(&mut out, 65, self.a);
        push_axis(&mut out, 66, self.b);
        push_axis(&mut out, 67, self.c);
        push_axis(&mut out, 69, self.e);
        push_axis(&mut out, 70, self.f);
        out
    }

    /// Parse this command's arguments from the head of `input`:
    /// the end of what was consumed, and the command.
    pub fn parse_args(input: &[u8]) -> (r: Option<(usize, G1)>)
        ensures
            match r {
                Option::Some((k, cmd)) => G1::spec_args(input@) == Option::Some((k as int, cmd)),
                Option::None => G1::spec_args(input@) is None,
            },
    {
        match crate::parser::parse_axes_entry(input, crate::parser::ArgSet::Motion) {
            Option::Some((k, av)) => Some((k, G1 { x: av.x, y: av.y, z: av.z, a: av.a, b: av.b, c: av.c, e: av.e, f: av.f })),
            Option::None => None,
        }
    }
}

/// Set position.
#[derive(Clone, Copy, Debug)]
#[allow(non_camel_case_types)]
pub struct G92 {
    pub x: Option<i64>,
    pub y: Option<i64>,
    pub z: Option<i64>,
    pub a: Option<i64>,
    pub b: Option<i64>,
    pub c: Option<i64>,
    pub e: Option<i64>,
}

impl G92 {
    /// The fields taken from a parsed argument list.
    pub open spec fn from_axes(av: crate::parser::AxisValues) -> G92 {
        G92 { x: av.x, y: av.y, z: av.z, a: av.a, b: av.b, c: av.c, e: av.e }
    }

    /// What parsing this command's arguments from the head of a byte
    /// string yields.
    pub open spec fn spec_args(s: Seq<u8>) -> Option<(int, G92)> {
        match crate::parser::spec_parse_axes(
            s,
            0,
            crate::parser::spec_blank_axes(),
            crate::parser::ArgSet::SetPos,
        ) {
            Option::Some((k, av)) => Option::Some((k, G92::from_axes(av))),
            Option::None => Option::None,
        }
    }

    /// Every present value is renderable.
    pub open spec fn fields_ok(self) -> bool {
        opt_ok(self.x) && opt_ok(self.y) && opt_ok(self.z) && opt_ok(self.a) && opt_ok(self.b) && opt_ok(self.c) && opt_ok(self.e)
    }

    /// The emitted text: the name, then each present axis.
    pub open spec fn spec_render(self) -> Seq<u8> {
        seq![71u8, 57u8, 50u8] + opt_axis(88, self.x) + opt_axis(89, self.y) + opt_axis(90, self.z) + opt_axis(65, self.a) + opt_axis(66, self.b) + opt_axis(67, self.c) + opt_axis(69, self.e)
    }

    /// A command with no arguments set.
    pub fn new() -> (r: G92)
        ensures
            r == (G92 { x: Option::None, y: Option::None, z: Option::None, a: Option::None, b: Option::None, c: Option::None, e: Option::None }),
    {
        G92 { x: None, y: None, z: None, a: None, b: None, c: None, e: None }
    }

    /// The same command with `x` set.
    pub fn x(self, value: i64) -> (r: G92)
        ensures
            r == (G92 { x: Option::Some(value), ..self }),
    {
        G92 { x: Some(value), ..self }
    }

    /// The same command with `y` set.
    pub fn y(self, value: i64) -> (r: G92)
        ensures
            r == (G92 { y: Option::Some(value), ..self }),
    {
        G92 { y: Some(value), ..self }
    }

    /// The same command with `z` set.
    pub fn z(self, value: i64) -> (r: G92)
        ensures
            r == (G92 { z: Option::Some(value), ..self }),
    {
        G92 { z: Some(value), ..self }
    }

    /// The same command with `a` set.
    pub fn a(self, value: i64) -> (r: G92)
        ensures
            r == (G92 { a: Option::Some(value), ..self }),
    {
        G92 { a: Some(value), ..self }
    }

    /// The same command with `b` set.
    pub fn b(self, value: i64) -> (r: G92)
        ensures
            r == (G92 { b: Option::Some(value), ..self }),
    {
        G92 { b: Some(value), ..self }
    }

    /// The same command with `c` set.
    pub fn c(self, value: i64) -> (r: G92)
        ensures
            r == (G92 { c: Option::Some(value), ..self }),
    {
        G92 { c: Some(value), ..self }
    }

    /// The same command with `e` set.
    pub fn e(self, value: i64) -> (r: G92)
        ensures
            r == (G92 { e: Option::Some(value), ..self }),
    {
        G92 { e: Some(value), ..self }
    }

    /// Emit the command as one line of text.
    pub fn render(&self) -> (r: Vec<u8>)
        requires
            self.fields_ok(),
        ensures
            r@ == self.spec_render(),
    {
        let mut out: Vec<u8> = Vec::new();
        out.push(71);
        out.push(57);
        out.push(50);
        proof {
            assert(out@ =~= seq![71u8, 57u8, 50u8]);
        }
        push_axis(&mut out, 88, self.x);
        push_axis(&mut out, 89, self.y);
        push_axis(&mut out, 90, self.z);
        push_axis(&mut out, 65, self.a);
        push_axis(&mut out, 66, self.b);
        push_axis(&mut out, 67, self.c);
        push_axis(&mut out, 69, self.e);
        out
    }

    /// Parse this command's arguments from the head of `input`:
    /// the end of what was consumed, and the command.
    pub fn parse_args(input: &[u8]) -> (r: Option<(usize, G92)>)
        ensures
            match r {
                Option::Some((k, cmd)) => G92::spec_args(input@) == Option::Some((k as int, cmd)),
                Option::None => G92::spec_args(input@) is None,
            },
    {
        match crate::parser::parse_axes_entry(input, crate::parser::ArgSet::SetPos) {
            Option::Some((k, av)) => Some((k, G92 { x: av.x, y: av.y, z: av.z, a: av.a, b: av.b, c: av.c, e: av.e })),
            Option::None => None,
        }
    }
}

/// Enable dewarping, with the bed size whose centre the transform uses.
#[derive(Clone, Copy, Debug)]
#[allow(non_camel_case_types)]
pub struct BEGIN_DEWARP {
    pub x: Option<i64>,
    pub y: Option<i64>,
}

impl BEGIN_DEWARP {
    /// The fields taken from a parsed argument list.
    pub open spec fn from_axes(av: crate::parser::AxisValues) -> BEGIN_DEWARP {
        BEGIN_DEWARP { x: av.x, y: av.y }
    }

    /// What parsing this command's arguments from the head of a byte
    /// string yields.
    pub open spec fn spec_args(s: Seq<u8>) -> Option<(int, BEGIN_DEWARP)> {
        match crate::parser::spec_parse_axes(
            s,
            0,
            crate::parser::spec_blank_axes(),
            crate::parser::ArgSet::Begin,
        ) {
            Option::Some((k, av)) => Option::Some((k, BEGIN_DEWARP::from_axes(av))),
            Option::None => Option::None,
        }
    }

    /// Every present value is renderable.
    pub open spec fn fields_ok(self) -> bool {
        opt_ok(self.x) && opt_ok(self.y)
    }

    /// The emitted text: the name, then each present axis.
    pub open spec fn spec_render(self) -> Seq<u8> {
        seq![66u8, 69u8, 71u8, 73u8, 78u8, 95u8, 68u8, 69u8, 87u8, 65u8, 82u8, 80u8] + opt_axis(88, self.x) + opt_axis(89, self.y)
    }

    /// A command with no arguments set.
    pub fn new() -> (r: BEGIN_DEWARP)
        ensures
            r == (BEGIN_DEWARP { x: Option::None, y: Option::None }),
    {
        BEGIN_DEWARP { x: None, y: None }
    }

    /// The same command with `x` set.
    pub fn x(self, value: i64) -> (r: BEGIN_DEWARP)
        ensures
            r == (BEGIN_DEWARP { x: Option::Some(value), ..self }),
    {
        BEGIN_DEWARP { x: Some(value), ..self }
    }

    /// The same command with `y` set.
    pub fn y(self, value: i64) -> (r: BEGIN_DEWARP)
        ensures
            r == (BEGIN_DEWARP { y: Option::Some(value), ..self }),
    {
        BEGIN_DEWARP { y: Some(value), ..self }
    }

    /// Emit the command as one line of text.
    pub fn render(&self) -> (r: Vec<u8>)
        requires
            self.fields_ok(),
        ensures
            r@ == self.spec_render(),
    {
        let mut out: Vec<u8> = Vec::new();
        out.push(66);
        out.push(69);
        out.push(71);
        out.push(73);
        out.push(78);
        out.push(95);
        out.push(68);
        out.push(69);
        out.push(87);
        out.push(65);
        out.push(82);
        out.push(80);
        proof {
            assert(out@ =~= seq![66u8, 69u8, 71u8, 73u8, 78u8, 95u8, 68u8, 69u8, 87u8, 65u8, 82u8, 80u8]);
        }
        push_axis(&mut out, 88, self.x);
        push_axis(&mut out, 89, self.y);
        out
    }

    /// Parse this command's arguments from the head of `input`:
    /// the end of what was consumed, and the command.
    pub fn parse_args(input: &[u8]) -> (r: Option<(usize, BEGIN_DEWARP)>)
        ensures
            match r {
                Option::Some((k, cmd)) => BEGIN_DEWARP::spec_args(input@) == Option::Some((k as int, cmd)),
                Option::None => BEGIN_DEWARP::spec_args(input@) is None,
            },
    {
        match crate::parser::parse_axes_entry(input, crate::parser::ArgSet::Begin) {
            Option::Some((k, av)) => Some((k, BEGIN_DEWARP { x: av.x, y: av.y })),
            Option::None => None,
        }
    }
}

/// Disable dewarping.
#[derive(Clone, Copy, Debug)]
#[allow(non_camel_case_types)]
pub struct END_DEWARP {
}

impl END_DEWARP {
    /// The fields taken from a parsed argument list.
    pub open spec fn from_axes(av: crate::parser::AxisValues) -> END_DEWARP {
        END_DEWARP {  }
    }

    /// What parsing this command's arguments from the head of a byte
    /// string yields.
    pub open spec fn spec_args(s: Seq<u8>) -> Option<(int, END_DEWARP)> {
        match crate::parser::spec_parse_axes(
            s,
            0,
            crate::parser::spec_blank_axes(),
            crate::parser::ArgSet::End,
        ) {
            Option::Some((k, av)) => Option::Some((k, END_DEWARP::from_axes(av))),
            Option::None => Option::None,
        }
    }

    /// Every present value is renderable.
    pub open spec fn fields_ok(self) -> bool {
        true
    }

    /// The emitted text: the name, then each present axis.
    pub open spec fn spec_render(self) -> Seq<u8> {
        seq![69u8, 78u8, 68u8, 95u8, 68u8, 69u8, 87u8, 65u8, 82u8, 80u8]
    }

    /// A command with no arguments set.
    pub fn new() -> (r: END_DEWARP)
        ensures
            r == (END_DEWARP {  }),
    {
        END_DEWARP {  }
    }

    /// Emit the command as one line of text.
    pub fn render(&self) -> (r: Vec<u8>)
        requires
            self.fields_ok(),
        ensures
            r@ == self.spec_render(),
    {
        let mut out: Vec<u8> = Vec::new();
        out.push(69);
        out.push(78);
        out.push(68);
        out.push(95);
        out.push(68);
        out.push(69);
        out.push(87);
        out.push(65);
        out.push(82);
        out.push(80);
        proof {
            assert(out@ =~= seq![69u8, 78u8, 68u8, 95u8, 68u8, 69u8, 87u8, 65u8, 82u8, 80u8]);
        }
        out
    }

    /// Parse this command's arguments from the head of `input`:
    /// the end of what was consumed, and the command.
    pub fn parse_args(input: &[u8]) -> (r: Option<(usize, END_DEWARP)>)
        ensures
            match r {
                Option::Some((k, cmd)) => END_DEWARP::spec_args(input@) == Option::Some((k as int, cmd)),
                Option::None => END_DEWARP::spec_args(input@) is None,
            },
    {
        match crate::parser::parse_axes_entry(input, crate::parser::ArgSet::End) {
            Option::Some((k, av)) => Some((k, END_DEWARP {  })),
            Option::None => None,
        }
    }
}

/// A single recognized command.
#[derive(Clone, Copy, Debug)]
#[allow(non_camel_case_types)]
pub enum Command {
    G0(G0),
    G1(G1),
    G92(G92),
    BEGIN_DEWARP(BEGIN_DEWARP),
    END_DEWARP(END_DEWARP),
}

} // verus!
