//! Colours, their packed form and their terminal escape sequences.

use vstd::prelude::*;
use vstd::string::StringExecFns;

verus! {

/// An opaque RGB colour with three independent 8-bit channels.
#[derive(Debug, Clone, Copy, PartialEq, Eq, Structural)]
pub struct Color {
    pub r: u8,
    pub g: u8,
    pub b: u8,
}

/// The character that stands for the decimal digit `d`.
pub open spec fn digit_char(d: int) -> char
    recommends
        0 <= d < 10,
{
    if d == 0 {
        '0'
    } else if d == 1 {
        '1'
    } else if d == 2 {
        '2'
    } else if d == 3 {
        '3'
    } else if d == 4 {
        '4'
    } else if d == 5 {
        '5'
    } else if d == 6 {
        '6'
    } else if d == 7 {
        '7'
    } else if d == 8 {
        '8'
    } else {
        '9'
    }
}

/// The decimal numeral of `v`, most significant digit first, without
/// leading zeros (`0` itself is the one digit `0`).
pub open spec fn decimal(v: nat) -> Seq<char>
    decreases v,
{
    if v < 10 {
        seq![digit_char(v as int)]
    } else {
        decimal(v / 10).push(digit_char((v % 10) as int))
    }
}

/// The escape sequence that selects `c` as a terminal's foreground colour:
/// `ESC [ 3 8 ; 2 ; r ; g ; b m` with the channels in decimal.
pub open spec fn ansi_foreground(c: Color) -> Seq<char> {
    seq!['\u{1b}', '[', '3', '8', ';', '2', ';'] + decimal(c.r as nat) + seq![';'] + decimal(
        c.g as nat,
    ) + seq![';'] + decimal(c.b as nat) + seq!['m']
}

/// The escape sequence that resets a terminal's colours: `ESC [ 0 m`.
pub open spec fn ansi_reset() -> Seq<char> {
    seq!['\u{1b}', '[', '0', 'm']
}

fn digit_str(d: u8) -> (s: &'static str)
    requires
        d < 10,
    ensures
        s@ == seq![digit_char(d as int)],
{
    proof {
        reveal_strlit("0");
        reveal_strlit("1");
        reveal_strlit("2");
        reveal_strlit("3");
        reveal_strlit("4");
        reveal_strlit("5");
        reveal_strlit("6");
        reveal_strlit("7");
        reveal_strlit("8");
        reveal_strlit("9");
    }
    let s: &'static str = match d {
        0 => "0",
        1 => "1",
        2 => "2",
        3 => "3",
        4 => "4",
        5 => "5",
        6 => "6",
        7 => "7",
        8 => "8",
        _ => "9",
    };
    assert(s@ =~= seq![digit_char(d as int)]);
    s
}

fn append_decimal(out: &mut String, v: u8)
    ensures
        final(out)@ == old(out)@ + decimal(v as nat),
{
    let ghost before = out@;
    if v >= 100 {
        out.append(digit_str(v / 100));
        out.append(digit_str((v / 10) % 10));
        out.append(digit_str(v % 10));
        proof {
            let n = v as nat;
            assert(decimal(n / 100) == seq![digit_char((n / 100) as int)]);
            assert((n / 10) / 10 == n / 100);
            assert(decimal(n / 10) == decimal(n / 100).push(digit_char(((n / 10) % 10) as int)));
            assert(decimal(n) == decimal(n / 10).push(digit_char((n % 10) as int)));
            assert(out@ =~= before + decimal(n));
        }
    } else if v >= 10 {
        out.append(digit_str(v / 10));
        out.append(digit_str(v % 10));
        proof {
            let n = v as nat;
            assert(decimal(n / 10) == seq![digit_char((n / 10) as int)]);
            assert(decimal(n) == decimal(n / 10).push(digit_char((n % 10) as int)));
            assert(out@ =~= before + decimal(n));
        }
    } else {
        out.append(digit_str(v));
        assert(out@ =~= before + decimal(v as nat));
    }
}

impl Color {
    pub fn new(r: u8, g: u8, b: u8) -> (c: Color)
        ensures
            c.r == r,
            c.g == g,
            c.b == b,
    {
        Color { r, g, b }
    }

    /// The colour as one number, `0x00RRGGBB`.
    pub open spec fn packed(self) -> int {
        self.r * 65536 + self.g * 256 + self.b
    }

    /// Packs the channels into the low 24 bits of a word, red highest.
    pub fn to_u32(self) -> (v: u32)
        ensures
            v == self.packed(),
    {
        let r: u32 = self.r as u32;
        let g: u32 = self.g as u32;
        let b: u32 = self.b as u32;
        assert(((r << 16) | (g << 8) | b) == r * 65536 + g * 256 + b) by (bit_vector)
            requires
                r < 256,
                g < 256,
                b < 256,
        ;
        (r << 16) | (g << 8) | b
    }

    /// The terminal escape sequence that switches the foreground to this
    /// colour.
    pub fn bg_string(self) -> (s: String)
        ensures
            s@ == ansi_foreground(self),
    {
        proof {
            reveal_strlit("\x1b[38;2;");
            reveal_strlit(";");
            reveal_strlit("m");
        }
        let mut s = String::from_str("\x1b[38;2;");
        assert(s@ =~= seq!['\u{1b}', '[', '3', '8', ';', '2', ';']);
        append_decimal(&mut s, self.r);
        s.append(";");
        append_decimal(&mut s, self.g);
        s.append(";");
        append_decimal(&mut s, self.b);
        s.append("m");
        assert(";"@ =~= seq![';']);
        assert("m"@ =~= seq!['m']);
        assert(s@ =~= ansi_foreground(self));
        s
    }

    /// The terminal escape sequence that restores the default colours.
    pub fn default_color() -> (s: String)
        ensures
            s@ == ansi_reset(),
    {
        proof {
            reveal_strlit("\x1b[0m");
        }
        let s = String::from_str("\x1b[0m");
        assert(s@ =~= ansi_reset());
        s
    }
}

} // verus!
