//! Parsing of 64-character hexadecimal identifiers from text.

use vstd::prelude::*;

use vstd::string::StrSliceExecFns;

verus! {

/// The character is a hexadecimal digit.
pub open spec fn is_hex_char(c: char) -> bool {
    (48 <= c as u32 && c as u32 <= 57) || (97 <= c as u32 && c as u32 <= 102) || (65 <= c as u32
        && c as u32 <= 70)
}

/// The numeric value of a hexadecimal digit.
pub open spec fn hex_char_value(c: char) -> u8 {
    if 48 <= c as u32 && c as u32 <= 57 {
        (c as u32 - 48) as u8
    } else if 97 <= c as u32 && c as u32 <= 102 {
        (c as u32 - 87) as u8
    } else {
        (c as u32 - 55) as u8
    }
}

/// A well-formed identifier: exactly 64 hexadecimal digits.
pub open spec fn spec_hex64_ok(s: Seq<char>) -> bool {
    s.len() == 64 && forall|i: int| 0 <= i < 64 ==> is_hex_char(#[trigger] s[i])
}

/// The 32 bytes a well-formed identifier denotes.
pub open spec fn spec_parse_hex64(s: Seq<char>) -> Seq<u8> {
    Seq::new(32, |i: int| (16 * hex_char_value(s[2 * i]) + hex_char_value(s[2 * i + 1])) as u8)
}

/// The value of one hexadecimal character, if it is one.
fn hex_value(c: char) -> (r: Option<u8>)
    ensures
        match r {
            Some(v) => is_hex_char(c) && v == hex_char_value(c),
            None => !is_hex_char(c),
        },
{
    let x = c as u32;
    if 48 <= x && x <= 57 {
        Some((x - 48) as u8)
    } else if 97 <= x && x <= 102 {
        Some((x - 87) as u8)
    } else if 65 <= x && x <= 70 {
        Some((x - 55) as u8)
    } else {
        None
    }
}

/// Parse 64 hexadecimal characters into 32 bytes.
fn parse_hex64(s: &str) -> (r: Result<[u8; 32], String>)
    ensures
        match r {
            Ok(h) => spec_hex64_ok(s@) && h@ == spec_parse_hex64(s@),
            Err(_) => !spec_hex64_ok(s@),
        },
        spec_hex64_ok(s@) ==> r is Ok,
{
    if s.unicode_len() != 64 {
        return Err(String::from_str("value must be 64 hexadecimal characters long"));
    }
    let mut out = [0u8; 32];
    let mut i: usize = 0;
    while i < 32
        invariant
            s@.len() == 64,
            i <= 32,
            forall|k: int| 0 <= k < 2 * i ==> is_hex_char(#[trigger] s@[k]),
            forall|k: int|
                0 <= k < i ==> out@[k] == 16 * hex_char_value(s@[2 * k]) + hex_char_value(
                    s@[2 * k + 1],
                ),
        decreases 32 - i,
    {
        let c1 = s.get_char(2 * i);
        let c2 = s.get_char(2 * i + 1);
        let v1 = match hex_value(c1) {
            Some(v) => v,
            None => {
                return Err(String::from_str("invalid hexadecimal character"));
            },
        };
        let v2 = match hex_value(c2) {
            Some(v) => v,
            None => {
                return Err(String::from_str("invalid hexadecimal character"));
            },
        };
        out[i] = 16 * v1 + v2;
        i = i + 1;
    }
    proof {
        assert(out@ =~= spec_parse_hex64(s@));
    }
    Ok(out)
}

/// Parse a vertex hash from its 64-character hexadecimal form.
pub fn parse_vertex_hash(hash_str: &str) -> (r: Result<crate::VertexHash, String>)
    ensures
        match r {
            Ok(h) => spec_hex64_ok(hash_str@) && h@ == spec_parse_hex64(hash_str@),
            Err(_) => !spec_hex64_ok(hash_str@),
        },
        spec_hex64_ok(hash_str@) ==> r is Ok,
{
    parse_hex64(hash_str)
}

/// Parse a 32-byte account address from its 64-character hexadecimal
/// form.
pub fn parse_address(addr_str: &str) -> (r: Result<[u8; 32], String>)
    ensures
        match r {
            Ok(h) => spec_hex64_ok(addr_str@) && h@ == spec_parse_hex64(addr_str@),
            Err(_) => !spec_hex64_ok(addr_str@),
        },
        spec_hex64_ok(addr_str@) ==> r is Ok,
{
    parse_hex64(addr_str)
}

} // verus!
