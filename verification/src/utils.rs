//! Small helpers shared across the daemon: decoding the scalar values the
//! persistent store hands back, the map-pinning name filter, and parsing a
//! client's `NAME=HEXVALUE` global-data argument.

use vstd::prelude::*;
use vstd::string::*;
use crate::store::dec_u32;
use crate::store::dec_u64;
use crate::strutil::find_char;
use crate::strutil::str_contains;
use crate::strutil::has_subseq;

verus! {

/// Signed reading of a 32-bit two's-complement value.
pub open spec fn i32_of_u32(u: u32) -> i32 {
    if u < 0x8000_0000 {
        u as i32
    } else {
        (u - 0x1_0000_0000) as i32
    }
}

/// Little-endian 32-bit value of a four-byte store entry.
pub fn bytes_to_u32(bytes: Vec<u8>) -> (r: u32)
    requires
        bytes@.len() == 4,
    ensures
        r == dec_u32(bytes@),
{
    let b0 = bytes[0] as u32;
    let b1 = bytes[1] as u32;
    let b2 = bytes[2] as u32;
    let b3 = bytes[3] as u32;
    b0 + 256 * b1 + 65536 * b2 + 16777216 * b3
}

/// Signed little-endian 32-bit value of a four-byte store entry.
pub fn bytes_to_i32(bytes: Vec<u8>) -> (r: i32)
    requires
        bytes@.len() == 4,
    ensures
        r == i32_of_u32(dec_u32(bytes@)),
{
    let u = bytes_to_u32(bytes);
    if u < 0x8000_0000 {
        u as i32
    } else {
        ((u as i64) - 0x1_0000_0000i64) as i32
    }
}

/// Little-endian 64-bit value of an eight-byte store entry.
pub fn bytes_to_u64(bytes: Vec<u8>) -> (r: u64)
    requires
        bytes@.len() == 8,
    ensures
        r == dec_u64(bytes@),
{
    let b0 = bytes[0] as u64;
    let b1 = bytes[1] as u64;
    let b2 = bytes[2] as u64;
    let b3 = bytes[3] as u64;
    let b4 = bytes[4] as u64;
    let b5 = bytes[5] as u64;
    let b6 = bytes[6] as u64;
    let b7 = bytes[7] as u64;
    let lo = b0 + 256 * b1 + 65536 * b2 + 16777216 * b3;
    let hi = b4 + 256 * b5 + 65536 * b6 + 16777216 * b7;
    proof {
        assert(bytes@.subrange(0, 4)[0] == bytes@[0]);
        assert(bytes@.subrange(0, 4)[1] == bytes@[1]);
        assert(bytes@.subrange(0, 4)[2] == bytes@[2]);
        assert(bytes@.subrange(0, 4)[3] == bytes@[3]);
        assert(bytes@.subrange(4, 8)[0] == bytes@[4]);
        assert(bytes@.subrange(4, 8)[1] == bytes@[5]);
        assert(bytes@.subrange(4, 8)[2] == bytes@[6]);
        assert(bytes@.subrange(4, 8)[3] == bytes@[7]);
    }
    lo + 0x1_0000_0000u64 * hi
}

/// Word-sized value of an eight-byte store entry; the value must fit the
/// machine's word.
pub fn bytes_to_usize(bytes: Vec<u8>) -> (r: usize)
    requires
        bytes@.len() == 8,
        dec_u64(bytes@) <= usize::MAX,
    ensures
        r == dec_u64(bytes@),
{
    let v = bytes_to_u64(bytes);
    v as usize
}

/// Truth value of a one-byte store entry: nonzero means true.
pub fn bytes_to_bool(bytes: Vec<u8>) -> (r: bool)
    requires
        bytes@.len() == 1,
    ensures
        r == (bytes@[0] != 0),
{
    bytes[0] != 0
}

/// Text of a store entry holding UTF-8.
pub fn bytes_to_string(bytes: &[u8]) -> (r: String)
    requires
        vstd::utf8::valid_utf8(bytes@),
    ensures
        r@ == vstd::utf8::decode_utf8(bytes@),
{
    match core::str::from_utf8(bytes) {
        Ok(s) => {
            proof {
                vstd::utf8::encode_utf8_decode_utf8(s@);
            }
            s.to_owned()
        },
        Err(_) => String::new(),
    }
}

/// Whether a map of this name is pinned when its program owns the map
/// directory: section-backed maps (`.rodata`, `.bss`, `.data`) are not.
pub fn should_map_be_pinned(name: &str) -> (r: bool)
    ensures
        r == !(has_subseq(name@, ".rodata"@) || has_subseq(name@, ".bss"@) || has_subseq(
            name@,
            ".data"@,
        )),
{
    !(str_contains(name, ".rodata") || str_contains(name, ".bss") || str_contains(name, ".data"))
}

/// Value of one hexadecimal digit, or a negative marker.
pub open spec fn hex_digit_val(c: char) -> int {
    if 48 <= c as u32 <= 57 {
        c as u32 - 48
    } else if 97 <= c as u32 <= 102 {
        c as u32 - 87
    } else if 65 <= c as u32 <= 70 {
        c as u32 - 55
    } else {
        -1
    }
}

/// Bytes a hexadecimal string denotes: two digits per byte, upper or lower
/// case; odd length or a stray character denotes nothing.
pub open spec fn spec_hex_decode(s: Seq<char>) -> Option<Seq<u8>>
    decreases s.len(),
{
    if s.len() == 0 {
        Some(Seq::<u8>::empty())
    } else if s.len() == 1 {
        None
    } else {
        let h = hex_digit_val(s[0]);
        let l = hex_digit_val(s[1]);
        if h < 0 || l < 0 {
            None
        } else {
            match spec_hex_decode(s.skip(2)) {
                None => None,
                Some(rest) => Some(seq![(h * 16 + l) as u8] + rest),
            }
        }
    }
}

/// Relies on `hex::FromHex` for `Vec<u8>`: decodes exactly the even-length
/// strings of hexadecimal digits, two digits to a byte, high digit first.
#[verifier::external_body]
fn hex_decode(s: &str) -> (r: Option<Vec<u8>>)
    ensures
        r matches Some(v) ==> spec_hex_decode(s@) == Some(v@),
        r is None ==> spec_hex_decode(s@) is None,
{
    match <Vec<u8> as hex::FromHex>::from_hex(s) {
        Ok(v) => Some(v),
        Err(_) => None,
    }
}

/// A client-supplied global-data constant: a name and the raw bytes to
/// patch in at load.
#[derive(Debug)]
pub struct GlobalArg {
    pub name: String,
    pub value: Vec<u8>,
}

/// First index of `c` in `s`, or a negative marker.
pub open spec fn first_index_of(s: Seq<char>, c: char) -> int
    decreases s.len(),
{
    if s.len() == 0 {
        -1
    } else if s[0] == c {
        0
    } else {
        let r = first_index_of(s.drop_first(), c);
        if r < 0 {
            -1
        } else {
            r + 1
        }
    }
}

/// What `parse_global_arg` accepts: a name before the first `=`, then a
/// non-empty hexadecimal value running to the next `=` or the end.
pub open spec fn spec_parse_global(s: Seq<char>) -> Option<(Seq<char>, Seq<u8>)> {
    let i = first_index_of(s, '=');
    if i < 0 {
        None
    } else {
        let name = s.take(i);
        let rest = s.skip(i + 1);
        let j = first_index_of(rest, '=');
        let vstr = if j < 0 {
            rest
        } else {
            rest.take(j)
        };
        match spec_hex_decode(vstr) {
            None => None,
            Some(v) => if v.len() == 0 {
                None
            } else {
                Some((name, v))
            },
        }
    }
}

/// The index scan and the first-index function agree.
proof fn lemma_first_index(s: Seq<char>, c: char, i: int)
    requires
        0 <= i < s.len(),
        s[i] == c,
        forall|j: int| 0 <= j < i ==> s[j] != c,
    ensures
        first_index_of(s, c) == i,
    decreases s.len(),
{
    if s[0] == c {
        assert(i == 0);
    } else {
        assert(i >= 1);
        assert forall|j: int| 0 <= j < i - 1 implies s.drop_first()[j] != c by {
            assert(s.drop_first()[j] == s[j + 1]);
        }
        assert(s.drop_first()[i - 1] == s[i]);
        lemma_first_index(s.drop_first(), c, i - 1);
    }
}

/// A scan over characters none of which are `c` finds nothing.
proof fn lemma_first_index_none(s: Seq<char>, c: char)
    requires
        forall|j: int| 0 <= j < s.len() ==> s[j] != c,
    ensures
        first_index_of(s, c) == -1,
    decreases s.len(),
{
    if s.len() > 0 {
        assert forall|j: int| 0 <= j < s.drop_first().len() implies s.drop_first()[j] != c by {
            assert(s.drop_first()[j] == s[j + 1]);
        }
        lemma_first_index_none(s.drop_first(), c);
    }
}

/// Parses a client's `NAME=HEXVALUE` global-data argument: the name runs
/// to the first `=`, the value is hexadecimal and must not be empty.
pub fn parse_global_arg(global_arg: &str) -> (r: Result<GlobalArg, crate::errors::BpfmanError>)
    ensures
        r matches Ok(g) ==> spec_parse_global(global_arg@) == Some((g.name@, g.value@)),
        r is Err ==> spec_parse_global(global_arg@) is None,
{
    let n = global_arg.unicode_len();
    let i = match find_char(global_arg, '=') {
        Some(i) => i,
        None => {
            proof {
                lemma_first_index_none(global_arg@, '=');
            }
            return Err(
                crate::errors::BpfmanError::Error(String::from_str("invalid global argument")),
            );
        },
    };
    proof {
        lemma_first_index(global_arg@, '=', i as int);
    }
    let name = global_arg.substring_char(0, i);
    let rest = global_arg.substring_char(i + 1, n);
    let rn = rest.unicode_len();
    let value_str = match find_char(rest, '=') {
        Some(j) => {
            proof {
                lemma_first_index(rest@, '=', j as int);
            }
            rest.substring_char(0, j)
        },
        None => {
            proof {
                lemma_first_index_none(rest@, '=');
            }
            rest
        },
    };
    proof {
        assert(rest@ =~= global_arg@.skip(i + 1));
        assert(name@ =~= global_arg@.take(i as int));
    }
    let value = match hex_decode(value_str) {
        Some(v) => v,
        None => {
            return Err(
                crate::errors::BpfmanError::Error(String::from_str("invalid global argument")),
            );
        },
    };
    if value.len() == 0 {
        return Err(
            crate::errors::BpfmanError::Error(String::from_str("invalid global argument")),
        );
    }
    Ok(GlobalArg { name: String::from_str(name), value })
}

} // verus!

verus! {

/// Relies on `nix::net::if_::if_nametoindex`: asks the kernel which index
/// the named network interface has.  The answer depends on the machine, so
/// nothing is promised of it beyond success or failure.
#[verifier::external_body]
fn if_nametoindex_raw(iface: &str) -> (r: Option<u32>) {
    match nix::net::if_::if_nametoindex(iface) {
        Ok(i) => Some(i),
        Err(_) => None,
    }
}

/// Resolves an interface name to its kernel index; an unknown interface is
/// an `InvalidInterface` error.
pub fn get_ifindex(iface: &str) -> (r: Result<u32, crate::errors::BpfmanError>)
    ensures
        r matches Err(e) ==> e is InvalidInterface,
{
    match if_nametoindex_raw(iface) {
        Some(i) => Ok(i),
        None => Err(crate::errors::BpfmanError::InvalidInterface),
    }
}

} // verus!
