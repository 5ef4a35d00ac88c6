//! Building message text: literal pieces and numbers written out in a base.

use vstd::prelude::*;
use vstd::string::{StrSliceExecFns, StringExecFns};

verus! {

/// The text of a single digit below ten.
pub open spec fn digit_text(d: int) -> Seq<char> {
    if d == 0 {
        "0"@
    } else if d == 1 {
        "1"@
    } else if d == 2 {
        "2"@
    } else if d == 3 {
        "3"@
    } else if d == 4 {
        "4"@
    } else if d == 5 {
        "5"@
    } else if d == 6 {
        "6"@
    } else if d == 7 {
        "7"@
    } else if d == 8 {
        "8"@
    } else {
        "9"@
    }
}

/// The digits of `n` in base `base` (2 to 10), most significant first,
/// without leading zeros (`0` is one digit).
pub open spec fn digits(n: nat, base: nat) -> Seq<char>
    decreases n,
{
    if base < 2 || n < base {
        digit_text(n as int)
    } else {
        proof {
            assert(n / base < n) by (nonlinear_arith)
                requires
                    n >= base,
                    base >= 2,
            ;
        }
        digits(n / base, base) + digit_text((n % base) as int)
    }
}

/// `count` zero digits.
pub open spec fn zeros(count: int) -> Seq<char>
    decreases count,
{
    if count <= 0 {
        Seq::empty()
    } else {
        zeros(count - 1) + "0"@
    }
}

/// The digits of `n` in base `base`, zero-padded on the left to at least
/// `width` digits.
pub open spec fn padded_digits(n: nat, base: nat, width: int) -> Seq<char> {
    zeros(width - digits(n, base).len()) + digits(n, base)
}

/// The literal text of digit `d`.
fn digit_str(d: u32) -> (s: &'static str)
    requires
        d < 10,
    ensures
        s@ == digit_text(d as int),
{
    if d == 0 {
        "0"
    } else if d == 1 {
        "1"
    } else if d == 2 {
        "2"
    } else if d == 3 {
        "3"
    } else if d == 4 {
        "4"
    } else if d == 5 {
        "5"
    } else if d == 6 {
        "6"
    } else if d == 7 {
        "7"
    } else if d == 8 {
        "8"
    } else {
        "9"
    }
}

/// Appends the digits of `n` in base `base`.
pub fn push_digits(out: &mut String, n: u32, base: u32)
    requires
        2 <= base <= 10,
    ensures
        final(out)@ == old(out)@ + digits(n as nat, base as nat),
    decreases n,
{
    if n >= base {
        assert(n / base < n) by (nonlinear_arith)
            requires
                n >= base,
                base >= 2,
        ;
        push_digits(out, n / base, base);
        out.append(digit_str(n % base));
        assert(final(out)@ =~= old(out)@ + digits(n as nat, base as nat));
    } else {
        out.append(digit_str(n));
    }
}

/// Appends the digits of `n` in base `base`, zero-padded to `width`.
pub fn push_padded_digits(out: &mut String, n: u32, base: u32, width: usize)
    requires
        2 <= base <= 10,
    ensures
        final(out)@ == old(out)@ + padded_digits(n as nat, base as nat, width as int),
{
    let mut number = String::new();
    push_digits(&mut number, n, base);
    assert(number@ =~= digits(n as nat, base as nat));
    let len = number.as_str().unicode_len();
    let ghost start = out@;
    let mut pad = len;
    while pad < width
        invariant
            len <= pad,
            pad <= width || pad == len,
            len == digits(n as nat, base as nat).len(),
            out@ == start + zeros(pad - len),
        decreases width - pad,
    {
        out.append("0");
        pad = pad + 1;
    }
    assert(zeros(pad - len) == zeros(width - digits(n as nat, base as nat).len())) by {
        if width <= len {
            assert(pad == len);
        }
    }
    out.append(number.as_str());
    assert(out@ =~= start + padded_digits(n as nat, base as nat, width as int));
}

} // verus!
