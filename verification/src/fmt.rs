//! Decimal rendering of identities and chunk keys.  The patch overlay names
//! grid folders after persistent identities and chunk files after chunk
//! keys, so the names are part of the assembler's contract.

use crate::entity::ChunkKey;
use vstd::prelude::*;

verus! {

/// The decimal digit character for `d` (`0 <= d <= 9`).
pub open spec fn dec_digit(d: int) -> char {
    if d == 0 {
        '0'
    } else if d == 1 {
        '1'
    } else if d == 2 {
        '2'
    } else if d == 3 {
        '3'
    } else if d == 4 {
        '4'
    } else if d == 5 {
        '5'
    } else if d == 6 {
        '6'
    } else if d == 7 {
        '7'
    } else if d == 8 {
        '8'
    } else {
        '9'
    }
}

/// The decimal rendering of a nonnegative integer, most significant digit
/// first, with no leading zeroes except on zero itself.
pub open spec fn dec_seq(n: int) -> Seq<char>
    recommends
        0 <= n,
    decreases n,
{
    if n < 10 {
        seq![dec_digit(n)]
    } else {
        dec_seq(n / 10).push(dec_digit(n % 10))
    }
}

/// The decimal rendering of a signed integer: a minus sign before the
/// magnitude for negative values.
pub open spec fn dec_seq_signed(n: int) -> Seq<char> {
    if n < 0 {
        seq!['-'] + dec_seq(-n)
    } else {
        dec_seq(n)
    }
}

/// The file name of a chunk's record blob: the three key components joined
/// by underscores, then the record-blob suffix.
pub open spec fn chunk_file_name_seq(key: ChunkKey) -> Seq<char> {
    dec_seq_signed(key.x as int) + seq!['_'] + dec_seq_signed(key.y as int) + seq!['_']
        + dec_seq_signed(key.z as int) + seq!['.', 'm', 'p', 's']
}

/// The one-character string for the decimal digit `d`.
fn digit_str(d: u32) -> (s: &'static str)
    requires
        d < 10,
    ensures
        s@ =~= seq![dec_digit(d as int)],
{
    proof {
        reveal_strlit("0");
        reveal_strlit("1");
        reveal_strlit("2");
        reveal_strlit("3");
        reveal_strlit("4");
        reveal_strlit("5");
        reveal_strlit("6");
        reveal_strlit("7");
        reveal_strlit("8");
        reveal_strlit("9");
    }
    match d {
        0 => "0",
        1 => "1",
        2 => "2",
        3 => "3",
        4 => "4",
        5 => "5",
        6 => "6",
        7 => "7",
        8 => "8",
        _ => "9",
    }
}

/// Renders an identity in decimal.
pub fn fmt_u32(n: u32) -> (s: String)
    ensures
        s@ =~= dec_seq(n as int),
    decreases n,
{
    if n < 10 {
        digit_str(n).to_owned()
    } else {
        let mut s = fmt_u32(n / 10);
        s.append(digit_str(n % 10));
        s
    }
}

/// Renders a signed chunk key component in decimal.
pub fn fmt_i16(n: i16) -> (s: String)
    ensures
        s@ =~= dec_seq_signed(n as int),
{
    if n >= 0 {
        fmt_u32(n as u32)
    } else {
        let magnitude: u32 = (-(n as i32)) as u32;
        proof {
            reveal_strlit("-");
        }
        let mut s = String::from_str("-");
        s.append(fmt_u32(magnitude).as_str());
        s
    }
}

/// The file name under which a chunk's re-encoded record blob is stored.
pub fn chunk_file_name(key: ChunkKey) -> (s: String)
    ensures
        s@ =~= chunk_file_name_seq(key),
{
    proof {
        reveal_strlit("_");
        reveal_strlit(".mps");
    }
    let mut s = fmt_i16(key.x);
    s.append("_");
    s.append(fmt_i16(key.y).as_str());
    s.append("_");
    s.append(fmt_i16(key.z).as_str());
    s.append(".mps");
    s
}

} // verus!
