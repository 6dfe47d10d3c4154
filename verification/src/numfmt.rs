//! Decimal and hexadecimal text formatting.
//!
//! The brace-tuple strings of the plist format hold decimal integers,
//! frame names hold zero-padded counters, and the smartupdate hash is
//! hex-encoded; these routines build them with exact character-level
//! contracts.

use vstd::prelude::*;
use vstd::string::StringExecFns;

verus! {

/// The decimal digit character for `d` in `[0, 10)`.
pub open spec fn digit_char(d: int) -> char {
    if d == 0 { '0' }
    else if d == 1 { '1' }
    else if d == 2 { '2' }
    else if d == 3 { '3' }
    else if d == 4 { '4' }
    else if d == 5 { '5' }
    else if d == 6 { '6' }
    else if d == 7 { '7' }
    else if d == 8 { '8' }
    else { '9' }
}

/// The lower-case hex digit character for `d` in `[0, 16)`.
pub open spec fn hex_digit_char(d: int) -> char {
    if d < 10 { digit_char(d) }
    else if d == 10 { 'a' }
    else if d == 11 { 'b' }
    else if d == 12 { 'c' }
    else if d == 13 { 'd' }
    else if d == 14 { 'e' }
    else { 'f' }
}

/// Decimal digits of a non-negative integer, most significant first.
pub open spec fn dec_str(n: int) -> Seq<char>
    decreases n,
{
    if n < 10 {
        seq![digit_char(n)]
    } else {
        dec_str(n / 10) + seq![digit_char(n % 10)]
    }
}

/// Decimal form of a signed integer: a leading minus when negative.
pub open spec fn int_str(n: int) -> Seq<char> {
    if n < 0 {
        seq!['-'] + dec_str(-n)
    } else {
        dec_str(n)
    }
}

/// Two-digit zero-padded decimal form used in frame names.
pub open spec fn dec_str_pad2(n: int) -> Seq<char> {
    if 0 <= n < 10 {
        seq!['0'] + dec_str(n)
    } else {
        dec_str(n)
    }
}

/// Lower-case hex encoding of a byte sequence, two digits per byte.
pub open spec fn hex_str(data: Seq<u8>) -> Seq<char>
    decreases data.len(),
{
    if data.len() == 0 {
        Seq::empty()
    } else {
        hex_str(data.drop_last())
            + seq![hex_digit_char(data.last() as int / 16), hex_digit_char(data.last() as int % 16)]
    }
}

/// Appends the decimal digit `d`.
fn push_digit(s: &mut String, d: u64)
    requires
        d < 10,
    ensures
        final(s)@ == old(s)@ + seq![digit_char(d as int)],
{
    if d == 0 {
        proof { reveal_strlit("0"); }
        s.append("0");
        proof { assert(s@ =~= old(s)@ + seq![digit_char(d as int)]); }
    } else if d == 1 {
        proof { reveal_strlit("1"); }
        s.append("1");
        proof { assert(s@ =~= old(s)@ + seq![digit_char(d as int)]); }
    } else if d == 2 {
        proof { reveal_strlit("2"); }
        s.append("2");
        proof { assert(s@ =~= old(s)@ + seq![digit_char(d as int)]); }
    } else if d == 3 {
        proof { reveal_strlit("3"); }
        s.append("3");
        proof { assert(s@ =~= old(s)@ + seq![digit_char(d as int)]); }
    } else if d == 4 {
        proof { reveal_strlit("4"); }
        s.append("4");
        proof { assert(s@ =~= old(s)@ + seq![digit_char(d as int)]); }
    } else if d == 5 {
        proof { reveal_strlit("5"); }
        s.append("5");
        proof { assert(s@ =~= old(s)@ + seq![digit_char(d as int)]); }
    } else if d == 6 {
        proof { reveal_strlit("6"); }
        s.append("6");
        proof { assert(s@ =~= old(s)@ + seq![digit_char(d as int)]); }
    } else if d == 7 {
        proof { reveal_strlit("7"); }
        s.append("7");
        proof { assert(s@ =~= old(s)@ + seq![digit_char(d as int)]); }
    } else if d == 8 {
        proof { reveal_strlit("8"); }
        s.append("8");
        proof { assert(s@ =~= old(s)@ + seq![digit_char(d as int)]); }
    } else {
        proof { reveal_strlit("9"); }
        s.append("9");
        proof { assert(s@ =~= old(s)@ + seq![digit_char(d as int)]); }
    }
}

/// Appends the lower-case hex digit `d`.
fn push_hex_digit(s: &mut String, d: u64)
    requires
        d < 16,
    ensures
        final(s)@ == old(s)@ + seq![hex_digit_char(d as int)],
{
    if d < 10 {
        push_digit(s, d);
    } else if d == 10 {
        proof { reveal_strlit("a"); }
        s.append("a");
        proof { assert(s@ =~= old(s)@ + seq![hex_digit_char(d as int)]); }
    } else if d == 11 {
        proof { reveal_strlit("b"); }
        s.append("b");
        proof { assert(s@ =~= old(s)@ + seq![hex_digit_char(d as int)]); }
    } else if d == 12 {
        proof { reveal_strlit("c"); }
        s.append("c");
        proof { assert(s@ =~= old(s)@ + seq![hex_digit_char(d as int)]); }
    } else if d == 13 {
        proof { reveal_strlit("d"); }
        s.append("d");
        proof { assert(s@ =~= old(s)@ + seq![hex_digit_char(d as int)]); }
    } else if d == 14 {
        proof { reveal_strlit("e"); }
        s.append("e");
        proof { assert(s@ =~= old(s)@ + seq![hex_digit_char(d as int)]); }
    } else {
        proof { reveal_strlit("f"); }
        s.append("f");
        proof { assert(s@ =~= old(s)@ + seq![hex_digit_char(d as int)]); }
    }
}

fn fmt_u64_into(s: &mut String, n: u64)
    ensures
        final(s)@ == old(s)@ + dec_str(n as int),
    decreases n,
{
    if n < 10 {
        push_digit(s, n);
    } else {
        fmt_u64_into(s, n / 10);
        push_digit(s, n % 10);
        proof {
            assert(s@ =~= old(s)@ + dec_str(n as int));
        }
    }
}

/// Decimal form of an unsigned integer.
pub fn fmt_u64(n: u64) -> (s: String)
    ensures
        s@ == dec_str(n as int),
{
    let mut s = String::new();
    fmt_u64_into(&mut s, n);
    proof {
        assert(s@ =~= dec_str(n as int));
    }
    s
}

/// Decimal form of a `u32`.
pub fn fmt_u32(n: u32) -> (s: String)
    ensures
        s@ == dec_str(n as int),
{
    fmt_u64(n as u64)
}

/// Decimal form of a signed integer, with a leading minus if negative.
pub fn fmt_i32(n: i32) -> (s: String)
    ensures
        s@ == int_str(n as int),
{
    if n >= 0 {
        fmt_u64(n as u64)
    } else {
        let m: u64 = (-(n as i64)) as u64;
        let mut s = String::new();
        proof { reveal_strlit("-"); }
        s.append("-");
        proof {
            assert(s@ =~= seq!['-']);
        }
        fmt_u64_into(&mut s, m);
        proof {
            assert(s@ =~= int_str(n as int));
        }
        s
    }
}

/// Two-digit zero-padded decimal form of a `u32`.
pub fn fmt_u32_pad2(n: u32) -> (s: String)
    ensures
        s@ == dec_str_pad2(n as int),
{
    if n < 10 {
        let mut s = String::new();
        push_digit(&mut s, 0);
        proof {
            assert(s@ =~= seq!['0']);
        }
        push_digit(&mut s, n as u64);
        proof {
            assert(s@ =~= dec_str_pad2(n as int));
        }
        s
    } else {
        fmt_u64(n as u64)
    }
}

/// Lower-case hex encoding of a byte slice.
pub fn fmt_hex(data: &[u8]) -> (s: String)
    ensures
        s@ == hex_str(data@),
        s@.len() == 2 * data@.len(),
{
    let n = data.len();
    let mut s = String::new();
    let mut i: usize = 0;
    while i < n
        invariant
            i <= n,
            n == data@.len(),
            s@ == hex_str(data@.subrange(0, i as int)),
            s@.len() == 2 * i,
        decreases n - i,
    {
        let b = data[i];
        proof {
            let pre = data@.subrange(0, i as int);
            let cur = data@.subrange(0, i as int + 1);
            assert(cur.drop_last() =~= pre);
            assert(cur.last() == data@[i as int]);
        }
        push_hex_digit(&mut s, (b / 16) as u64);
        push_hex_digit(&mut s, (b % 16) as u64);
        proof {
            assert(s@ =~= hex_str(data@.subrange(0, i as int + 1)));
        }
        i = i + 1;
    }
    proof {
        assert(data@.subrange(0, n as int) =~= data@);
    }
    s
}

} // verus!
