//! Decoding of the record's file name: little-endian UTF-16 code units,
//! with lossy replacement of unpaired surrogates.

use crate::bytes::{le16, read_le16};
use vstd::prelude::*;

verus! {

/// The `count` 16-bit little-endian code units stored from byte index `start`.
pub open spec fn name_units(b: Seq<u8>, start: int, count: int) -> Seq<u16> {
    Seq::new(count as nat, |j: int| le16(b, start + 2 * j))
}

/// The character that a single non-surrogate code unit stands for.
pub open spec fn unit_char(u: u16) -> char {
    (u as u32) as char
}

/// The character encoded by a high/low surrogate pair.
pub open spec fn pair_char(hi: u16, lo: u16) -> char {
    (((0x10000 + (hi - 0xD800) * 0x400 + (lo - 0xDC00)) as u32) as char)
}

/// The lossy decoding of a UTF-16 code-unit sequence: a non-surrogate unit
/// is its own character, a high surrogate followed by a low surrogate is
/// one supplementary character, and any unpaired surrogate becomes U+FFFD.
pub open spec fn utf16_lossy(units: Seq<u16>) -> Seq<char>
    decreases units.len(),
{
    if units.len() == 0 {
        Seq::empty()
    } else {
        let u = units[0];
        if u < 0xD800 || u >= 0xE000 {
            seq![unit_char(u)] + utf16_lossy(units.skip(1))
        } else if u < 0xDC00 && units.len() >= 2 && 0xDC00 <= units[1] && units[1] < 0xE000 {
            seq![pair_char(u, units[1])] + utf16_lossy(units.skip(2))
        } else {
            seq!['\u{FFFD}'] + utf16_lossy(units.skip(1))
        }
    }
}

/// Relies on char::from_u32: Some of the character with that code for every
/// value except surrogates and values above char::MAX, None for those.
pub assume_specification[ char::from_u32 ](i: u32) -> (r: Option<char>)
    ensures
        (i < 0xD800 || (0xE000 <= i && i <= 0x10FFFF)) ==> r == Some(i as char),
        !(i < 0xD800 || (0xE000 <= i && i <= 0x10FFFF)) ==> r is None,
;

/// Relies on String's FromIterator impl over char: collecting appends the
/// characters in order.
#[verifier::external_body]
fn chars_to_string(v: Vec<char>) -> (r: String)
    ensures
        r@ == v@,
{
    v.into_iter().collect()
}

/// Reads `count` little-endian code units starting at byte `start`.
pub fn read_name_units(b: &Vec<u8>, start: usize, count: usize) -> (r: Vec<u16>)
    requires
        start + 2 * count <= b@.len(),
    ensures
        r@ == name_units(b@, start as int, count as int),
{
    let bn: usize = b.len();
    let mut r: Vec<u16> = Vec::new();
    let mut j: usize = 0;
    while j < count
        invariant
            j <= count,
            start + 2 * count <= b@.len(),
            b@.len() <= usize::MAX,
            r@ == name_units(b@, start as int, j as int),
        decreases count - j,
    {
        let u = read_le16(b, start + 2 * j);
        r.push(u);
        j = j + 1;
        proof {
            assert(r@ =~= name_units(b@, start as int, j as int));
        }
    }
    r
}

/// Decodes a UTF-16 code-unit sequence into a string, replacing unpaired
/// surrogates with U+FFFD.
pub fn decode_utf16_lossy(units: &Vec<u16>) -> (r: String)
    ensures
        r@ == utf16_lossy(units@),
{
    let n = units.len();
    let mut chars: Vec<char> = Vec::new();
    let mut j: usize = 0;
    proof {
        assert(units@.skip(0) =~= units@);
        assert(chars@ + utf16_lossy(units@) =~= utf16_lossy(units@));
    }
    while j < n
        invariant
            j <= n,
            n == units@.len(),
            chars@ + utf16_lossy(units@.skip(j as int)) == utf16_lossy(units@),
        decreases n - j,
    {
        let ghost pending = units@.skip(j as int);
        let u = units[j];
        if u < 0xD800 || u >= 0xE000 {
            let c = match char::from_u32(u as u32) {
                Some(c) => c,
                None => '\u{FFFD}',
            };
            chars.push(c);
            j = j + 1;
            proof {
                assert(pending.skip(1) =~= units@.skip(j as int));
                assert(chars@ + utf16_lossy(units@.skip(j as int)) =~= utf16_lossy(units@));
            }
        } else if u < 0xDC00 && j + 1 < n && units[j + 1] >= 0xDC00 && units[j + 1] < 0xE000 {
            let lo = units[j + 1];
            let cp: u32 = 0x10000 + (u as u32 - 0xD800) * 0x400 + (lo as u32 - 0xDC00);
            let c = match char::from_u32(cp) {
                Some(c) => c,
                None => '\u{FFFD}',
            };
            chars.push(c);
            j = j + 2;
            proof {
                assert(pending[1] == units@[j - 1]);
                assert(pending.skip(2) =~= units@.skip(j as int));
                assert(c == pair_char(u, lo));
                assert(chars@ + utf16_lossy(units@.skip(j as int)) =~= utf16_lossy(units@));
            }
        } else {
            chars.push('\u{FFFD}');
            j = j + 1;
            proof {
                assert(pending.skip(1) =~= units@.skip(j as int));
                assert(chars@ + utf16_lossy(units@.skip(j as int)) =~= utf16_lossy(units@));
            }
        }
    }
    proof {
        assert(units@.skip(n as int) =~= Seq::<u16>::empty());
        assert(chars@ =~= utf16_lossy(units@));
    }
    chars_to_string(chars)
}

} // verus!
