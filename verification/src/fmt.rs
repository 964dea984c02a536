//! Decimal and hexadecimal rendering of integers, as `format!` renders
//! `{}`, `{:x}`, `{:X}` and their zero-padded forms.

use vstd::prelude::*;

verus! {

/// The character of digit `d` (below 16), lower- or upper-case.
pub open spec fn digit_char(d: nat, upper: bool) -> char {
    if d < 10 {
        (0x30 + d) as char
    } else if upper {
        (0x41 + d - 10) as char
    } else {
        (0x61 + d - 10) as char
    }
}

/// The digits of `n` in `base` (2 to 16), most significant first, with no
/// leading zeros (zero is `0`).
pub open spec fn spec_digits(n: nat, base: nat, upper: bool) -> Seq<char>
    decreases n,
{
    if base < 2 || n < base {
        seq![digit_char(n, upper)]
    } else {
        proof {
            assert(n / base < n) by (nonlinear_arith)
                requires
                    base >= 2,
                    n >= base,
            ;
        }
        spec_digits(n / base, base, upper).push(digit_char(n % base, upper))
    }
}

/// `{}` of an unsigned integer.
pub open spec fn spec_dec(n: nat) -> Seq<char> {
    spec_digits(n, 10, false)
}

/// `{:x}` of an unsigned integer.
pub open spec fn spec_hex_lower(n: nat) -> Seq<char> {
    spec_digits(n, 16, false)
}

/// `{:X}` of an unsigned integer.
pub open spec fn spec_hex_upper(n: nat) -> Seq<char> {
    spec_digits(n, 16, true)
}

/// `s` left-padded with `0` to at least `width` characters.
pub open spec fn spec_zero_pad(s: Seq<char>, width: nat) -> Seq<char> {
    if s.len() >= width {
        s
    } else {
        Seq::new((width - s.len()) as nat, |i: int| '0') + s
    }
}

fn digit(d: u64, upper: bool) -> (c: char)
    requires
        d < 16,
    ensures
        c == digit_char(d as nat, upper),
{
    if d < 10 {
        ((0x30 + d) as u8) as char
    } else if upper {
        ((0x41 + d - 10) as u8) as char
    } else {
        ((0x61 + d - 10) as u8) as char
    }
}

/// The digits of `n` in `base`.
pub fn digits(n: u64, base: u64, upper: bool) -> (r: Vec<char>)
    requires
        2 <= base <= 16,
    ensures
        r@ == spec_digits(n as nat, base as nat, upper),
    decreases n,
{
    if n < base {
        let mut v: Vec<char> = Vec::new();
        v.push(digit(n, upper));
        v
    } else {
        assert(n / base < n) by (nonlinear_arith)
            requires
                base >= 2,
                n >= base,
        ;
        let mut v = digits(n / base, base, upper);
        v.push(digit(n % base, upper));
        v
    }
}

/// `{}` of `n`.
pub fn dec(n: u64) -> (r: Vec<char>)
    ensures
        r@ == spec_dec(n as nat),
{
    digits(n, 10, false)
}

/// `{:x}` of `n`.
pub fn hex_lower(n: u64) -> (r: Vec<char>)
    ensures
        r@ == spec_hex_lower(n as nat),
{
    digits(n, 16, false)
}

/// `{:X}` of `n`.
pub fn hex_upper(n: u64) -> (r: Vec<char>)
    ensures
        r@ == spec_hex_upper(n as nat),
{
    digits(n, 16, true)
}

/// `s` left-padded with `0` to at least `width` characters.
pub fn zero_pad(s: Vec<char>, width: usize) -> (r: Vec<char>)
    ensures
        r@ == spec_zero_pad(s@, width as nat),
{
    if s.len() >= width {
        return s;
    }
    let k = width - s.len();
    let mut out: Vec<char> = Vec::new();
    let mut i: usize = 0;
    while i < k
        invariant
            i <= k,
            out@ == Seq::new(i as nat, |j: int| '0'),
        decreases k - i,
    {
        out.push('0');
        i += 1;
        assert(out@ =~= Seq::new(i as nat, |j: int| '0'));
    }
    crate::text::push_all(&mut out, s.as_slice());
    out
}

} // verus!
