//! Identifiers made of a time stamp, a counter and a random number, in
//! several text forms.

use crate::native::datetime::zeros;
use crate::native::hash::hex_digit;
use crate::text::{chars_of, copy_range, find_char, index_of, string_of};
use vstd::prelude::*;

verus! {

/// The shortest notation of `n` in lower-case hexadecimal.
pub open spec fn hex(n: nat) -> Seq<char>
    decreases n,
{
    if n < 16 {
        seq![hex_digit(n as u8)]
    } else {
        hex(n / 16).push(hex_digit((n % 16) as u8))
    }
}

/// The hexadecimal notation of `n`, filled with zeros on the left up to
/// `width` characters.
pub open spec fn hex_padded(n: nat, width: nat) -> Seq<char> {
    if hex(n).len() >= width {
        hex(n)
    } else {
        zeros((width - hex(n).len()) as nat) + hex(n)
    }
}

fn hex_char(d: u8) -> (r: char)
    requires
        d < 16,
    ensures
        r == hex_digit(d),
{
    if d < 10 {
        (d + 48) as char
    } else {
        (d + 87) as char
    }
}

fn push_hex(out: &mut Vec<char>, n: u128)
    ensures
        final(out)@ == old(out)@ + hex(n as nat),
    decreases n,
{
    if n >= 16 {
        push_hex(out, n / 16);
    }
    out.push(hex_char((n % 16) as u8));
    assert(out@ == old(out)@ + hex(n as nat));
}

fn push_hex_padded(out: &mut Vec<char>, n: u128, width: usize)
    ensures
        final(out)@ == old(out)@ + hex_padded(n as nat, width as nat),
{
    let mut digits: Vec<char> = Vec::new();
    push_hex(&mut digits, n);
    assert(digits@ =~= hex(n as nat));
    let ghost before = out@;
    if digits.len() < width {
        let fill = width - digits.len();
        let mut i: usize = 0;
        assert(out@ =~= before + zeros(0));
        while i < fill
            invariant
                i <= fill,
                out@ == before + zeros(i as nat),
            decreases fill - i,
        {
            out.push('0');
            assert(out@ =~= before + zeros((i + 1) as nat));
            i += 1;
        }
    }
    crate::text::push_range(out, &digits, 0, digits.len());
    proof {
        assert(digits@.subrange(0, digits.len() as int) =~= digits@);
        if digits.len() < width {
            assert(out@ =~= before + (zeros((width - digits.len()) as nat) + hex(n as nat)));
        } else {
            assert(out@ =~= before + hex(n as nat));
        }
    }
}

/// The identifier of a time stamp in milliseconds, a counter and a random
/// number: the three in hexadecimal with hyphens between them.
pub open spec fn id_text(timestamp: nat, counter: nat, random: nat) -> Seq<char> {
    hex(timestamp) + seq!['-'] + hex(counter) + seq!['-'] + hex(random)
}

/// The identifier `{timestamp}-{counter}-{random}`, each in hexadecimal. It
/// sorts by time first, and differs from every other identifier with
/// another counter.
pub fn generate_id(timestamp: u128, counter: u64, random: u64) -> (r: String)
    ensures
        r@ == id_text(timestamp as nat, counter as nat, random as nat),
{
    let mut out: Vec<char> = Vec::new();
    push_hex(&mut out, timestamp);
    out.push('-');
    push_hex(&mut out, counter as u128);
    out.push('-');
    push_hex(&mut out, random as u128);
    assert(out@ =~= id_text(timestamp as nat, counter as nat, random as nat));
    string_of(&out)
}

/// The short identifier: the lowest sixteen bits of the time stamp and of
/// the random number, four hexadecimal digits each.
pub fn generate_short_id(timestamp: u128, random: u64) -> (r: String)
    ensures
        r@ == hex_padded((timestamp & 0xffff) as nat, 4) + hex_padded((random & 0xffff) as nat, 4),
{
    let mut out: Vec<char> = Vec::new();
    push_hex_padded(&mut out, timestamp & 0xffff, 4);
    let low = random & 0xffff;
    push_hex_padded(&mut out, low as u128, 4);
    assert(out@ =~= hex_padded((timestamp & 0xffff) as nat, 4) + hex_padded(
        (random & 0xffff) as nat,
        4,
    ));
    string_of(&out)
}

/// The text of the form `xxxxxxxx-xxxx-4xxx-xxxx-xxxxxxxxxxxx` made of the
/// bits of two random numbers.
pub open spec fn uuid_text(r1: u64, r2: u64) -> Seq<char> {
    hex_padded((r1 >> 32) as nat, 8) + seq!['-'] + hex_padded(((r1 >> 16) & 0xffff) as nat, 4)
        + seq!['-', '4'] + hex_padded((r1 & 0xfff) as nat, 3) + seq!['-'] + hex_padded(
        ((r2 >> 48) & 0xffff) as nat,
        4,
    ) + seq!['-'] + hex_padded((r2 & 0xffff_ffff_ffff) as nat, 12)
}

/// An identifier in the form of a version 4 UUID, made of two random
/// numbers.
pub fn generate_uuid_v4(r1: u64, r2: u64) -> (r: String)
    ensures
        r@ == uuid_text(r1, r2),
{
    let mut out: Vec<char> = Vec::new();
    let a = r1 >> 32;
    let b = (r1 >> 16) & 0xffff;
    let c = r1 & 0xfff;
    let d = (r2 >> 48) & 0xffff;
    let e = r2 & 0xffff_ffff_ffff;
    push_hex_padded(&mut out, a as u128, 8);
    out.push('-');
    push_hex_padded(&mut out, b as u128, 4);
    out.push('-');
    out.push('4');
    push_hex_padded(&mut out, c as u128, 3);
    out.push('-');
    push_hex_padded(&mut out, d as u128, 4);
    out.push('-');
    push_hex_padded(&mut out, e as u128, 12);
    assert(out@ =~= uuid_text(r1, r2));
    string_of(&out)
}

/// The same as [`generate_uuid_v4`].
pub fn new(r1: u64, r2: u64) -> (r: String)
    ensures
        r@ == uuid_text(r1, r2),
{
    generate_uuid_v4(r1, r2)
}

/// The digit for a number below 32 in the alphabet of digits and capital
/// letters without I, L, O and U.
pub open spec fn base32_digit(d: nat) -> char {
    "0123456789ABCDEFGHJKMNPQRSTVWXYZ"@[d as int]
}

/// The lowest `len` digits of `n` in base 32, highest first.
pub open spec fn base32(n: nat, len: nat) -> Seq<char>
    decreases len,
{
    if len == 0 {
        Seq::empty()
    } else {
        base32(n / 32, (len - 1) as nat).push(base32_digit(n % 32))
    }
}

fn push_base32(out: &mut Vec<char>, n: u64, len: usize, alphabet: &Vec<char>)
    requires
        alphabet@ == "0123456789ABCDEFGHJKMNPQRSTVWXYZ"@,
    ensures
        final(out)@ == old(out)@ + base32(n as nat, len as nat),
    decreases len,
{
    proof {
        reveal_strlit("0123456789ABCDEFGHJKMNPQRSTVWXYZ");
    }
    if len > 0 {
        push_base32(out, n / 32, len - 1, alphabet);
        out.push(alphabet[(n % 32) as usize]);
        assert(out@ =~= old(out)@ + base32(n as nat, len as nat));
    } else {
        assert(out@ =~= old(out)@ + base32(n as nat, 0));
    }
}

/// The lowest `len` digits of `num` in base 32, highest first.
pub fn to_base32(num: u64, len: usize) -> (r: String)
    ensures
        r@ == base32(num as nat, len as nat),
{
    let alphabet = chars_of("0123456789ABCDEFGHJKMNPQRSTVWXYZ");
    let mut out: Vec<char> = Vec::new();
    push_base32(&mut out, num, len, &alphabet);
    assert(out@ =~= base32(num as nat, len as nat));
    string_of(&out)
}

/// The identifier that sorts as its time stamp: ten digits of the time
/// stamp's lowest 64 bits and sixteen of the random number, in base 32.
pub fn generate_sortable_id(timestamp: u128, random: u64) -> (r: String)
    ensures
        r@ == base32((timestamp as u64) as nat, 10) + base32(random as nat, 16),
{
    let alphabet = chars_of("0123456789ABCDEFGHJKMNPQRSTVWXYZ");
    let low = #[verifier::truncate]
    (timestamp as u64);
    let mut out: Vec<char> = Vec::new();
    push_base32(&mut out, low, 10, &alphabet);
    push_base32(&mut out, random, 16, &alphabet);
    assert(out@ =~= base32(low as nat, 10) + base32(random as nat, 16));
    string_of(&out)
}

/// The number that mixing a time in nanoseconds and a counter yields.
pub open spec fn mixed(time: u64, counter: u64) -> u64 {
    let x = time.wrapping_add(counter);
    let y = (x ^ (x >> 30)).wrapping_mul(0xbf58476d1ce4e5b9);
    let z = (y ^ (y >> 27)).wrapping_mul(0x94d049bb133111eb);
    z ^ (z >> 31)
}

/// A number that looks random, mixed from a time in nanoseconds and a
/// counter. It is no secret.
pub fn generate_random_u64(time: u64, counter: u64) -> (r: u64)
    ensures
        r == mixed(time, counter),
{
    let x = time.wrapping_add(counter);
    let y = (x ^ (x >> 30)).wrapping_mul(0xbf58476d1ce4e5b9);
    let z = (y ^ (y >> 27)).wrapping_mul(0x94d049bb133111eb);
    z ^ (z >> 31)
}

/// The value of a hexadecimal digit of either case.
pub open spec fn hex_value(c: char) -> Option<nat> {
    if '0' <= c && c <= '9' {
        Some((c as u32 - '0' as u32) as nat)
    } else if 'a' <= c && c <= 'f' {
        Some((c as u32 - 'a' as u32 + 10) as nat)
    } else if 'A' <= c && c <= 'F' {
        Some((c as u32 - 'A' as u32 + 10) as nat)
    } else {
        None
    }
}

/// The number that the hexadecimal digits of `s` denote; nothing where one
/// of them is no digit.
pub open spec fn hex_number(s: Seq<char>) -> Option<nat>
    decreases s.len(),
{
    if s.len() == 0 {
        Some(0)
    } else {
        match (hex_number(s.drop_last()), hex_value(s.last())) {
            (Some(n), Some(d)) => Some(n * 16 + d),
            _ => None,
        }
    }
}

/// The time stamp of an identifier: the number that its text before the
/// first hyphen denotes in hexadecimal, after an optional `+`, where that
/// is a number below 2^128 with at least one digit.
pub open spec fn timestamp_spec(id: Seq<char>) -> Option<u128> {
    let first = id.subrange(0, index_of(id, '-', 0));
    let digits = if first.len() > 0 && first[0] == '+' {
        first.subrange(1, first.len() as int)
    } else {
        first
    };
    match hex_number(digits) {
        Some(n) => if digits.len() > 0 && n <= u128::MAX {
            Some(n as u128)
        } else {
            None
        },
        None => None,
    }
}

fn digit_value(c: char) -> (r: Option<u8>)
    ensures
        match r {
            Some(d) => hex_value(c) == Some(d as nat) && d < 16,
            None => hex_value(c) is None,
        },
{
    if c >= '0' && c <= '9' {
        Some((c as u32 - '0' as u32) as u8)
    } else if c >= 'a' && c <= 'f' {
        Some((c as u32 - 'a' as u32 + 10) as u8)
    } else if c >= 'A' && c <= 'F' {
        Some((c as u32 - 'A' as u32 + 10) as u8)
    } else {
        None
    }
}

/// The value of a digit string never shrinks when digits are appended.
proof fn lemma_hex_number_grows(s: Seq<char>, k: int)
    requires
        0 <= k <= s.len(),
        hex_number(s) is Some,
    ensures
        hex_number(s.take(k)) is Some,
        hex_number(s.take(k))->0 <= hex_number(s)->0,
    decreases s.len(),
{
    if k < s.len() {
        lemma_hex_number_grows(s.drop_last(), k);
        assert(s.drop_last().take(k) == s.take(k));
    } else {
        assert(s.take(k) == s);
    }
}

/// A text with a character that is no digit denotes no number.
proof fn lemma_hex_number_none(s: Seq<char>, k: int)
    requires
        0 <= k < s.len(),
        hex_value(s[k]) is None,
    ensures
        hex_number(s) is None,
    decreases s.len(),
{
    if k < s.len() - 1 {
        lemma_hex_number_none(s.drop_last(), k);
    }
}

/// The time stamp in milliseconds that an identifier begins with.
pub fn parse_timestamp(id: &str) -> (r: Option<u128>)
    ensures
        r == timestamp_spec(id@),
{
    let all = chars_of(id);
    let end = find_char(&all, '-', 0);
    let first = copy_range(&all, 0, end);
    let lo: usize = if first.len() > 0 && first[0] == '+' {
        1
    } else {
        0
    };
    let digits = copy_range(&first, lo, first.len());
    assert(lo == 0 ==> digits@ =~= first@);
    if digits.len() == 0 {
        return None;
    }
    let mut acc: u128 = 0;
    let mut i: usize = 0;
    assert(digits@.take(0) =~= Seq::<char>::empty());
    assert(first@ == id@.subrange(0, index_of(id@, '-', 0)));
    while i < digits.len()
        invariant
            i <= digits.len(),
            digits@.len() > 0,
            timestamp_spec(id@) == (match hex_number(digits@) {
                Some(n) => if n <= u128::MAX {
                    Some(n as u128)
                } else {
                    None
                },
                None => None,
            }),
            hex_number(digits@.take(i as int)) == Some(acc as nat),
        decreases digits.len() - i,
    {
        proof {
            let next = digits@.take(i + 1);
            assert(next.drop_last() == digits@.take(i as int));
            assert(next.last() == digits@[i as int]);
        }
        match digit_value(digits[i]) {
            None => {
                proof {
                    lemma_hex_number_none(digits@, i as int);
                }
                return None;
            },
            Some(d) => {
                if acc > (u128::MAX - d as u128) / 16 {
                    proof {
                        if hex_number(digits@) is Some {
                            lemma_hex_number_grows(digits@, i + 1);
                        }
                    }
                    return None;
                }
                acc = acc * 16 + d as u128;
            },
        }
        i += 1;
    }
    assert(digits@.take(digits.len() as int) =~= digits@);
    Some(acc)
}

} // verus!
