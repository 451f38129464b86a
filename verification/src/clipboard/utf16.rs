//! Text in UTF-16, lowest byte first, as clipboards of RDP clients hold it.

use crate::text::{chars_of, string_of};
use crate::wire::{get16, le16, lemma_le16_reads_back, push_u16, read_u16};
use vstd::prelude::*;
use vstd::utf8::is_scalar;

verus! {

/// `char::from_u32` gives the character of a Unicode scalar value, and none for other numbers, as
/// its documentation says.
pub assume_specification[ char::from_u32 ](i: u32) -> (r: Option<char>)
    ensures
        match r {
            Some(c) => c as u32 == i,
            None => !is_scalar(i),
        },
;

/// What stands for text that is none.
pub const REPLACEMENT: u32 = 0xfffd;

pub open spec fn is_high(u: u16) -> bool {
    0xd800 <= u < 0xdc00
}

pub open spec fn is_low(u: u16) -> bool {
    0xdc00 <= u < 0xe000
}

/// The units of a character: itself, or a pair of surrogates.
pub open spec fn units_of(c: char) -> Seq<u16> {
    let v = c as u32;
    if v < 0x10000 {
        seq![v as u16]
    } else {
        seq![
            (0xd800 + (v - 0x10000) / 0x400) as u16,
            (0xdc00 + (v - 0x10000) % 0x400) as u16,
        ]
    }
}

/// The units of a text.
pub open spec fn encoded(s: Seq<char>) -> Seq<u16>
    decreases s.len(),
{
    if s.len() == 0 {
        Seq::empty()
    } else {
        units_of(s[0]) + encoded(s.skip(1))
    }
}

/// The text of units. A surrogate without its partner reads as the replacement character.
pub open spec fn decoded(u: Seq<u16>) -> Seq<char>
    decreases u.len(),
{
    if u.len() == 0 {
        Seq::empty()
    } else if !is_high(u[0]) && !is_low(u[0]) {
        seq![u[0] as char] + decoded(u.skip(1))
    } else if is_high(u[0]) && u.len() >= 2 && is_low(u[1]) {
        seq![(0x10000 + (u[0] - 0xd800) * 0x400 + (u[1] - 0xdc00)) as char] + decoded(u.skip(2))
    } else {
        seq![REPLACEMENT as char] + decoded(u.skip(1))
    }
}

/// Text that is encoded reads back as itself.
pub proof fn lemma_decode_encode(s: Seq<char>)
    ensures
        decoded(encoded(s)) == s,
    decreases s.len(),
{
    if s.len() > 0 {
        let rest = s.skip(1);
        lemma_decode_encode(rest);
        let u = encoded(s);
        let v = s[0] as u32;
        vstd::utf8::char_is_scalar(s[0]);
        vstd::utf8::char_u32_cast(s[0], v);
        if v < 0x10000 {
            assert(u.skip(1) =~= encoded(rest));
            assert(u[0] == v as u16);
            assert(!is_high(u[0]) && !is_low(u[0]));
        } else {
            assert(u.skip(2) =~= encoded(rest));
            assert(u[0] == (0xd800 + (v - 0x10000) / 0x400) as u16);
            assert(u[1] == (0xdc00 + (v - 0x10000) % 0x400) as u16);
            assert(is_high(u[0]) && is_low(u[1]));
            assert(0x10000 + (u[0] - 0xd800) * 0x400 + (u[1] - 0xdc00) == v);
            assert((0x10000 + (u[0] - 0xd800) * 0x400 + (u[1] - 0xdc00)) as char == v as char);
        }
        assert(decoded(u) =~= seq![s[0]] + rest);
        assert(seq![s[0]] + rest =~= s);
    } else {
        assert(decoded(encoded(s)) =~= s);
    }
}

/// Units as bytes.
pub open spec fn unit_bytes(u: Seq<u16>) -> Seq<u8>
    decreases u.len(),
{
    if u.len() == 0 {
        Seq::empty()
    } else {
        unit_bytes(u.drop_last()) + le16(u.last() as int)
    }
}

/// The units in bytes. A last single byte does not count.
pub open spec fn byte_units(data: Seq<u8>) -> Seq<u16> {
    Seq::new((data.len() / 2) as nat, |i: int| get16(data, 2 * i) as u16)
}

/// Units that are written as bytes read back as themselves.
pub proof fn lemma_units_read_back(u: Seq<u16>)
    ensures
        unit_bytes(u).len() == 2 * u.len(),
        byte_units(unit_bytes(u)) == u,
    decreases u.len(),
{
    if u.len() > 0 {
        let shorter = u.drop_last();
        lemma_units_read_back(shorter);
        let b = unit_bytes(u);
        let before = unit_bytes(shorter);
        assert forall|i: int| 0 <= i < u.len() implies byte_units(b)[i] == u[i] by {
            if i < shorter.len() {
                assert(byte_units(before)[i] == shorter[i]);
                assert(b[2 * i] == before[2 * i] && b[2 * i + 1] == before[2 * i + 1]);
            } else {
                lemma_le16_reads_back(u.last() as int);
            }
        }
        assert(byte_units(b) =~= u);
    } else {
        assert(byte_units(unit_bytes(u)) =~= u);
    }
}

/// A text without the zero characters at its end.
pub open spec fn without_zeros(s: Seq<char>) -> Seq<char>
    decreases s.len(),
{
    if s.len() > 0 && s.last() == '\0' {
        without_zeros(s.drop_last())
    } else {
        s
    }
}

/// A text as the clipboard holds it: in UTF-16, with a zero behind.
pub open spec fn text_bytes(s: Seq<char>) -> Seq<u8> {
    unit_bytes(encoded(s).push(0))
}

/// The text that the clipboard holds.
pub open spec fn bytes_text(data: Seq<u8>) -> Seq<char> {
    without_zeros(decoded(byte_units(data)))
}

/// Units in front do not change how a whole text behind them reads.
proof fn lemma_encode_push(s: Seq<char>)
    ensures
        encoded(s.push('\0')) == encoded(s).push(0),
    decreases s.len(),
{
    let t = s.push('\0');
    if s.len() > 0 {
        lemma_encode_push(s.skip(1));
        assert(t.skip(1) =~= s.skip(1).push('\0'));
        assert(encoded(t) =~= encoded(s).push(0));
    } else {
        assert(t.skip(1) =~= s);
        assert(units_of('\0') =~= seq![0u16]);
        assert(encoded(t) =~= encoded(s).push(0));
    }
}

/// A text that does not end in a zero goes through the clipboard unchanged.
pub proof fn lemma_text_survives(s: Seq<char>)
    requires
        s.len() > 0 ==> s.last() != '\0',
    ensures
        bytes_text(text_bytes(s)) == s,
{
    lemma_encode_push(s);
    lemma_units_read_back(encoded(s).push(0));
    lemma_decode_encode(s.push('\0'));
    assert(s.push('\0').drop_last() =~= s);
    reveal_with_fuel(without_zeros, 2);
}

/// A text as the clipboard holds it.
pub fn encode_text(text: &str) -> (r: Vec<u8>)
    ensures
        r@ == text_bytes(text@),
{
    let s = chars_of(text);
    let mut r: Vec<u8> = Vec::new();
    let ghost mut done = Seq::<u16>::empty();
    let mut i: usize = 0;
    assert(s@.skip(0) =~= s@);
    assert(done + encoded(s@) =~= encoded(s@));
    while i < s.len()
        invariant
            i <= s@.len(),
            done + encoded(s@.skip(i as int)) == encoded(s@),
            r@ == unit_bytes(done),
        decreases s@.len() - i,
    {
        let c: char = s[i];
        let v: u32 = c as u32;
        let ghost rest = s@.skip(i as int);
        assert(rest[0] == c);
        assert(rest.skip(1) =~= s@.skip(i + 1));
        proof {
            vstd::utf8::char_is_scalar(c);
        }
        if v < 0x10000 {
            push_u16(&mut r, v as u16);
            proof {
                let next = done.push(v as u16);
                assert(next.drop_last() =~= done);
                assert(next + encoded(rest.skip(1)) =~= done + encoded(rest));
                done = next;
            }
        } else {
            let high: u16 = (0xd800 + (v - 0x10000) / 0x400) as u16;
            let low: u16 = (0xdc00 + (v - 0x10000) % 0x400) as u16;
            push_u16(&mut r, high);
            push_u16(&mut r, low);
            proof {
                let one = done.push(high);
                let two = one.push(low);
                assert(one.drop_last() =~= done);
                assert(two.drop_last() =~= one);
                assert(unit_bytes(one) == unit_bytes(done) + le16(high as int));
                assert(two + encoded(rest.skip(1)) =~= done + encoded(rest));
                done = two;
            }
        }
        i = i + 1;
    }
    push_u16(&mut r, 0);
    proof {
        assert(done =~= encoded(s@));
        assert(done.push(0).drop_last() =~= done);
    }
    r
}

/// The text that the clipboard holds.
pub fn decode_text(data: &[u8]) -> (r: String)
    ensures
        r@ == bytes_text(data@),
{
    let n: usize = data.len() / 2;
    assert(data@.len() == data.len());
    let mut chars: Vec<char> = Vec::new();
    let ghost u = byte_units(data@);
    let mut i: usize = 0;
    assert(u.skip(0) =~= u);
    assert(chars@ + decoded(u) =~= decoded(u));
    while i < n
        invariant
            n == data@.len() / 2,
            data@.len() <= usize::MAX,
            i <= n,
            u == byte_units(data@),
            chars@ + decoded(u.skip(i as int)) == decoded(u),
        decreases n - i,
    {
        let a: u16 = read_u16(data, 2 * i);
        let ghost rest = u.skip(i as int);
        let ghost before = chars@;
        assert(rest[0] == a);
        assert(rest.skip(1) =~= u.skip(i + 1));
        if a < 0xd800 || a >= 0xe000 {
            let c: char = scalar(a as u32);
            chars.push(c);
            assert(decoded(rest) == seq![a as char] + decoded(rest.skip(1)));
            assert(chars@ + decoded(rest.skip(1)) =~= before + decoded(rest));
            i = i + 1;
        } else if a < 0xdc00 && i + 1 < n {
            let b: u16 = read_u16(data, 2 * (i + 1));
            assert(rest[1] == b);
            if 0xdc00 <= b && b < 0xe000 {
                assert(rest.skip(2) =~= u.skip(i + 2));
                let v: u32 = 0x10000 + (a as u32 - 0xd800) * 0x400 + (b as u32 - 0xdc00);
                let c: char = scalar(v);
                chars.push(c);
                assert(decoded(rest) == seq![v as char] + decoded(rest.skip(2)));
                assert(chars@ + decoded(rest.skip(2)) =~= before + decoded(rest));
                i = i + 2;
            } else {
                chars.push(scalar(REPLACEMENT));
                assert(chars@ + decoded(rest.skip(1)) =~= before + decoded(rest));
                i = i + 1;
            }
        } else {
            chars.push(scalar(REPLACEMENT));
            assert(chars@ + decoded(rest.skip(1)) =~= before + decoded(rest));
            i = i + 1;
        }
    }
    assert(u.skip(i as int) =~= Seq::<u16>::empty());
    assert(chars@ =~= decoded(u));
    let mut end: usize = chars.len();
    assert(chars@.take(end as int) =~= chars@);
    while end > 0 && chars[end - 1] == '\0'
        invariant
            end <= chars@.len(),
            without_zeros(chars@.take(end as int)) == without_zeros(chars@),
        decreases end,
    {
        assert(chars@.take(end as int).drop_last() =~= chars@.take(end - 1));
        end = end - 1;
    }
    let mut kept: Vec<char> = Vec::new();
    let mut k: usize = 0;
    while k < end
        invariant
            k <= end <= chars@.len(),
            kept@ =~= chars@.take(k as int),
        decreases end - k,
    {
        kept.push(chars[k]);
        k = k + 1;
    }
    string_of(&kept)
}

fn scalar(v: u32) -> (r: char)
    requires
        is_scalar(v),
    ensures
        r == v as char,
{
    match char::from_u32(v) {
        Some(c) => {
            proof {
                vstd::utf8::char_u32_cast(c, v);
            }
            c
        },
        None => '\0',
    }
}

} // verus!
