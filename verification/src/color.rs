//! ANSI terminal colors and the byte-level framing they add to output.

use vstd::prelude::*;

verus! {

/// The foreground colors this tool writes: red for matched spans,
/// yellow for line numbers, blue for paths.
#[derive(Clone, Copy, PartialEq, Eq, Structural, Debug)]
pub enum Color {
    Red,
    Yellow,
    Blue,
}

/// The two ASCII digits of the ANSI code of a color (`31`, `33`, `34`).
pub open spec fn spec_color_code(c: Color) -> Seq<u8> {
    match c {
        Color::Red => seq![51u8, 49u8],
        Color::Yellow => seq![51u8, 51u8],
        Color::Blue => seq![51u8, 52u8],
    }
}

/// A byte string wrapped in the ANSI escapes that color it:
/// `ESC [ <code> m`, the bytes themselves, then `ESC [ 0 m`.
pub open spec fn spec_colorized(s: Seq<u8>, c: Color) -> Seq<u8> {
    seq![27u8, 91u8] + spec_color_code(c) + seq![109u8] + s + seq![27u8, 91u8, 48u8, 109u8]
}

impl Color {
    /// The ANSI code of this color as ASCII digits.
    pub fn code(&self) -> (r: Vec<u8>)
        ensures
            r@ == spec_color_code(*self),
    {
        let mut v: Vec<u8> = Vec::new();
        v.push(51u8);
        match self {
            Color::Red => v.push(49u8),
            Color::Yellow => v.push(51u8),
            Color::Blue => v.push(52u8),
        }
        proof {
            assert(v@ =~= spec_color_code(*self));
        }
        v
    }
}

/// Wraps a byte string in the escape sequences that color it.
pub fn color_wrap(s: &[u8], col: Color) -> (r: Vec<u8>)
    ensures
        r@ == spec_colorized(s@, col),
{
    let mut v: Vec<u8> = Vec::new();
    v.push(27u8);
    v.push(91u8);
    let code = col.code();
    v.extend_from_slice(code.as_slice());
    v.push(109u8);
    v.extend_from_slice(s);
    v.push(27u8);
    v.push(91u8);
    v.push(48u8);
    v.push(109u8);
    proof {
        assert(v@ =~= spec_colorized(s@, col));
    }
    v
}

/// Byte strings that can be wrapped in ANSI color escapes.
pub trait Colorize: View<V = Seq<u8>> {
    /// The bytes of `self` surrounded by the escapes that color them.
    fn to_color(&self, col: Color) -> (r: Vec<u8>)
        ensures
            r@ == spec_colorized(self@, col),
    ;
}

impl Colorize for Vec<u8> {
    fn to_color(&self, col: Color) -> (r: Vec<u8>) {
        color_wrap(self.as_slice(), col)
    }
}

/// The decimal digits of `n`, most significant first.
pub open spec fn spec_decimal(n: nat) -> Seq<u8>
    decreases n,
{
    if n < 10 {
        seq![(48 + n) as u8]
    } else {
        spec_decimal(n / 10) + seq![(48 + n % 10) as u8]
    }
}

/// Formats a number as its decimal digits.
pub fn format_decimal(n: usize) -> (r: Vec<u8>)
    ensures
        r@ == spec_decimal(n as nat),
    decreases n,
{
    if n < 10 {
        let mut v: Vec<u8> = Vec::new();
        v.push(48 + n as u8);
        proof {
            assert(v@ =~= spec_decimal(n as nat));
        }
        v
    } else {
        let mut v = format_decimal(n / 10);
        v.push(48 + (n % 10) as u8);
        proof {
            assert(v@ =~= spec_decimal(n as nat));
        }
        v
    }
}

} // verus!
