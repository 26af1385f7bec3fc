//! Binary codec for the persistent store: the little-endian scalar,
//! string, list and option shapes that program metadata is written in, each
//! encoder paired with a parser whose contract pins the bytes it reads.

use vstd::prelude::*;
use vstd::string::*;

verus! {

/// Relies on `str::from_utf8`: succeeds exactly on valid UTF-8 and hands
/// back a view of those bytes.
pub assume_specification[ core::str::from_utf8 ](v: &[u8]) -> (r: Result<
    &str,
    core::str::Utf8Error,
>)
    ensures
        r is Ok <==> vstd::utf8::valid_utf8(v@),
        r matches Ok(s) ==> s.spec_bytes() == v@,
;

#[verifier::external_type_specification]
#[verifier::external_body]
pub struct ExUtf8Error(core::str::Utf8Error);

/// Little-endian four-byte encoding of `v`.
pub open spec fn enc_u32(v: u32) -> Seq<u8> {
    seq![
        (v % 256) as u8,
        ((v / 256) % 256) as u8,
        ((v / 65536) % 256) as u8,
        ((v / 16777216) % 256) as u8,
    ]
}

/// Value of a little-endian four-byte group.
pub open spec fn dec_u32(s: Seq<u8>) -> u32
    recommends
        s.len() == 4,
{
    ((s[0] as int) + 256 * (s[1] as int) + 65536 * (s[2] as int) + 16777216 * (s[3] as int)) as u32
}

/// The four-byte encoding round-trips.
pub proof fn lemma_u32_codec(v: u32)
    ensures
        enc_u32(v).len() == 4,
        dec_u32(enc_u32(v)) == v,
{
    assert(dec_u32(enc_u32(v)) == v) by (nonlinear_arith);
}

/// Little-endian eight-byte encoding of `v`.
pub open spec fn enc_u64(v: u64) -> Seq<u8> {
    enc_u32((v % 0x1_0000_0000) as u32) + enc_u32((v / 0x1_0000_0000) as u32)
}

/// Value of a little-endian eight-byte group.
pub open spec fn dec_u64(s: Seq<u8>) -> u64
    recommends
        s.len() == 8,
{
    ((dec_u32(s.subrange(0, 4)) as int) + 0x1_0000_0000 * (dec_u32(s.subrange(4, 8)) as int)) as u64
}

/// The eight-byte encoding round-trips.
pub proof fn lemma_u64_codec(v: u64)
    ensures
        enc_u64(v).len() == 8,
        dec_u64(enc_u64(v)) == v,
{
    let lo = (v % 0x1_0000_0000) as u32;
    let hi = (v / 0x1_0000_0000) as u32;
    lemma_u32_codec(lo);
    lemma_u32_codec(hi);
    assert(enc_u64(v).subrange(0, 4) =~= enc_u32(lo));
    assert(enc_u64(v).subrange(4, 8) =~= enc_u32(hi));
    assert((lo as u64) + 0x1_0000_0000 * (hi as u64) == v) by (nonlinear_arith)
        requires
            lo == (v % 0x1_0000_0000) as u32,
            hi == (v / 0x1_0000_0000) as u32,
    ;
}

/// Appends the four-byte encoding of `v`.
pub fn put_u32(buf: &mut Vec<u8>, v: u32)
    ensures
        final(buf)@ == old(buf)@ + enc_u32(v),
{
    buf.push((v % 256) as u8);
    buf.push(((v / 256) % 256) as u8);
    buf.push(((v / 65536) % 256) as u8);
    buf.push(((v / 16777216) % 256) as u8);
    proof {
        assert(final(buf)@ =~= old(buf)@ + enc_u32(v));
    }
}

/// Appends the eight-byte encoding of `v`.
pub fn put_u64(buf: &mut Vec<u8>, v: u64)
    ensures
        final(buf)@ == old(buf)@ + enc_u64(v),
{
    put_u32(buf, (v % 0x1_0000_0000) as u32);
    put_u32(buf, ((v / 0x1_0000_0000) as u64) as u32);
    proof {
        assert(final(buf)@ =~= old(buf)@ + enc_u64(v));
    }
}

/// Reads the four-byte group at `pos`.
pub fn parse_u32(buf: &Vec<u8>, pos: usize) -> (r: Option<(u32, usize)>)
    ensures
        r matches Some((v, p2)) ==> v == dec_u32(buf@.subrange(pos as int, pos + 4)) && p2 == pos
            + 4 && pos + 4 <= buf@.len(),
        r is None ==> pos + 4 > buf@.len(),
{
    if pos >= buf.len() || buf.len() - pos < 4 {
        return None;
    }
    let b0 = buf[pos] as u32;
    let b1 = buf[pos + 1] as u32;
    let b2 = buf[pos + 2] as u32;
    let b3 = buf[pos + 3] as u32;
    let v = b0 + 256 * b1 + 65536 * b2 + 16777216 * b3;
    proof {
        let w = buf@.subrange(pos as int, pos + 4);
        assert(w[0] == buf@[pos as int]);
        assert(w[1] == buf@[pos + 1]);
        assert(w[2] == buf@[pos + 2]);
        assert(w[3] == buf@[pos + 3]);
    }
    Some((v, pos + 4))
}

/// Reads the eight-byte group at `pos`.
pub fn parse_u64(buf: &Vec<u8>, pos: usize) -> (r: Option<(u64, usize)>)
    ensures
        r matches Some((v, p2)) ==> v == dec_u64(buf@.subrange(pos as int, pos + 8)) && p2 == pos
            + 8 && pos + 8 <= buf@.len(),
        r is None ==> pos + 8 > buf@.len(),
{
    let r1 = parse_u32(buf, pos);
    proof {
        if pos + 4 > buf@.len() {
            assert(r1 is None);
        }
    }
    let (lo, p1) = match r1 {
        Some(x) => x,
        None => {
            return None;
        },
    };
    proof {
        assert(pos + 4 <= buf@.len());
        assert(p1 == pos + 4);
    }
    let r2 = parse_u32(buf, p1);
    let (hi, p2) = match r2 {
        Some(x) => x,
        None => {
            return None;
        },
    };
    proof {
        assert(p1 + 4 <= buf@.len());
        assert(p2 == p1 + 4);
    }
    let v = (lo as u64) + 0x1_0000_0000u64 * (hi as u64);
    proof {
        assert(pos + 8 <= buf@.len());
        let w = buf@.subrange(pos as int, pos + 8);
        assert(w.subrange(0, 4) =~= buf@.subrange(pos as int, pos + 4));
        assert(w.subrange(4, 8) =~= buf@.subrange(pos + 4, pos + 8));
        assert(lo == dec_u32(w.subrange(0, 4)));
        assert(hi == dec_u32(w.subrange(4, 8)));
        assert(v as int == (lo as int) + 0x1_0000_0000 * (hi as int));
        assert(v == dec_u64(w));
        assert(p2 == pos + 8);
    }
    Some((v, p2))
}

} // verus!

verus! {

/// Byte count prefix, then the UTF-8 bytes of the string.
pub open spec fn enc_string(s: Seq<char>) -> Seq<u8> {
    enc_bytes(vstd::utf8::encode_utf8(s))
}

/// Byte count prefix, then the raw bytes.
pub open spec fn enc_bytes(b: Seq<u8>) -> Seq<u8> {
    enc_u32(b.len() as u32) + b
}

/// Concatenated four-byte encodings of the values of `l`.
pub open spec fn enc_u32s(l: Seq<u32>) -> Seq<u8>
    decreases l.len(),
{
    if l.len() == 0 {
        Seq::<u8>::empty()
    } else {
        enc_u32(l[0]) + enc_u32s(l.drop_first())
    }
}

/// Count prefix, then the values.
pub open spec fn enc_u32_list(l: Seq<u32>) -> Seq<u8> {
    enc_u32(l.len() as u32) + enc_u32s(l)
}

/// Presence byte, then the value when present.
pub open spec fn enc_opt_u32(o: Option<u32>) -> Seq<u8> {
    match o {
        None => seq![0u8],
        Some(v) => seq![1u8] + enc_u32(v),
    }
}

/// Presence byte, then the value when present.
pub open spec fn enc_opt_u64(o: Option<u64>) -> Seq<u8> {
    match o {
        None => seq![0u8],
        Some(v) => seq![1u8] + enc_u64(v),
    }
}

/// One byte, nonzero for true.
pub open spec fn enc_bool(b: bool) -> Seq<u8> {
    seq![if b { 1u8 } else { 0u8 }]
}

/// Presence byte, then the string when present.
pub open spec fn enc_opt_string(o: Option<Seq<char>>) -> Seq<u8> {
    match o {
        None => seq![0u8],
        Some(s) => seq![1u8] + enc_string(s),
    }
}

/// Appending a value extends the list encoding at its tail.
pub proof fn lemma_enc_u32s_push(l: Seq<u32>, v: u32)
    ensures
        enc_u32s(l.push(v)) == enc_u32s(l) + enc_u32(v),
    decreases l.len(),
{
    let t = l.push(v);
    if l.len() == 0 {
        assert(t[0] == v);
        assert(t.drop_first() =~= Seq::<u32>::empty());
        assert(enc_u32s(Seq::<u32>::empty()) =~= Seq::<u8>::empty());
        assert(enc_u32s(t) =~= enc_u32(v));
        assert(enc_u32s(l) + enc_u32(v) =~= enc_u32(v));
    } else {
        assert(t[0] == l[0]);
        assert(t.drop_first() =~= l.drop_first().push(v));
        lemma_enc_u32s_push(l.drop_first(), v);
        assert(enc_u32s(t) == enc_u32(l[0]) + (enc_u32s(l.drop_first()) + enc_u32(v)));
        assert(enc_u32(l[0]) + (enc_u32s(l.drop_first()) + enc_u32(v)) =~= (enc_u32(l[0])
            + enc_u32s(l.drop_first())) + enc_u32(v));
    }
}

/// The list encoding takes four bytes per value.
pub proof fn lemma_enc_u32s_len(l: Seq<u32>)
    ensures
        enc_u32s(l).len() == 4 * l.len(),
    decreases l.len(),
{
    if l.len() > 0 {
        lemma_enc_u32s_len(l.drop_first());
    }
}

/// Appends the count-prefixed UTF-8 encoding of `s`.
pub fn put_string(buf: &mut Vec<u8>, s: &str)
    requires
        vstd::utf8::encode_utf8(s@).len() <= u32::MAX,
    ensures
        final(buf)@ == old(buf)@ + enc_string(s@),
{
    let b = s.as_bytes_vec();
    put_bytes(buf, &b);
}

/// Appends the count-prefixed raw bytes of `b`.
pub fn put_bytes(buf: &mut Vec<u8>, b: &Vec<u8>)
    requires
        b@.len() <= u32::MAX,
    ensures
        final(buf)@ == old(buf)@ + enc_bytes(b@),
{
    let n = b.len();
    put_u32(buf, n as u32);
    let mut i: usize = 0;
    proof {
        assert(buf@ + b@.take(0) =~= buf@);
    }
    let ghost mid = buf@;
    while i < n
        invariant
            0 <= i <= n,
            n == b@.len(),
            buf@ == mid + b@.take(i as int),
        decreases n - i,
    {
        buf.push(b[i]);
        proof {
            assert(b@.take(i + 1) =~= b@.take(i as int).push(b@[i as int]));
            assert((mid + b@.take(i as int)).push(b@[i as int]) =~= mid + b@.take(i + 1));
        }
        i = i + 1;
    }
    proof {
        assert(b@.take(n as int) =~= b@);
        assert(final(buf)@ =~= old(buf)@ + enc_bytes(b@));
    }
}

/// Appends the count-prefixed values of `l`.
pub fn put_u32_list(buf: &mut Vec<u8>, l: &Vec<u32>)
    requires
        l@.len() <= u32::MAX,
    ensures
        final(buf)@ == old(buf)@ + enc_u32_list(l@),
{
    let n = l.len();
    put_u32(buf, n as u32);
    let ghost mid = buf@;
    let mut i: usize = 0;
    proof {
        assert(mid + enc_u32s(l@.take(0)) =~= mid);
    }
    while i < n
        invariant
            0 <= i <= n,
            n == l@.len(),
            buf@ == mid + enc_u32s(l@.take(i as int)),
        decreases n - i,
    {
        put_u32(buf, l[i]);
        proof {
            assert(l@.take(i + 1) =~= l@.take(i as int).push(l@[i as int]));
            lemma_enc_u32s_push(l@.take(i as int), l@[i as int]);
            assert((mid + enc_u32s(l@.take(i as int))) + enc_u32(l@[i as int]) =~= mid + enc_u32s(
                l@.take(i + 1),
            ));
        }
        i = i + 1;
    }
    proof {
        assert(l@.take(n as int) =~= l@);
        assert(final(buf)@ =~= old(buf)@ + enc_u32_list(l@));
    }
}

/// Appends a presence byte and the value when present.
pub fn put_opt_u32(buf: &mut Vec<u8>, o: &Option<u32>)
    ensures
        final(buf)@ == old(buf)@ + enc_opt_u32(*o),
{
    match o {
        None => {
            buf.push(0);
            proof {
                assert(final(buf)@ =~= old(buf)@ + enc_opt_u32(None));
            }
        },
        Some(v) => {
            buf.push(1);
            put_u32(buf, *v);
            proof {
                assert(final(buf)@ =~= old(buf)@ + enc_opt_u32(Some(*v)));
            }
        },
    }
}

/// Appends a presence byte and the value when present.
pub fn put_opt_u64(buf: &mut Vec<u8>, o: &Option<u64>)
    ensures
        final(buf)@ == old(buf)@ + enc_opt_u64(*o),
{
    match o {
        None => {
            buf.push(0);
            proof {
                assert(final(buf)@ =~= old(buf)@ + enc_opt_u64(None));
            }
        },
        Some(v) => {
            buf.push(1);
            put_u64(buf, *v);
            proof {
                assert(final(buf)@ =~= old(buf)@ + enc_opt_u64(Some(*v)));
            }
        },
    }
}

/// Appends one byte, nonzero for true.
pub fn put_bool(buf: &mut Vec<u8>, b: bool)
    ensures
        final(buf)@ == old(buf)@ + enc_bool(b),
{
    buf.push(if b { 1 } else { 0 });
    proof {
        assert(final(buf)@ =~= old(buf)@ + enc_bool(b));
    }
}

/// Appends a presence byte and the string when present.
pub fn put_opt_string(buf: &mut Vec<u8>, o: &Option<String>)
    requires
        o matches Some(s) ==> vstd::utf8::encode_utf8(s@).len() <= u32::MAX,
    ensures
        final(buf)@ == old(buf)@ + enc_opt_string(crate::image::opt_string_view(o)),
{
    match o {
        None => {
            buf.push(0);
            proof {
                assert(final(buf)@ =~= old(buf)@ + enc_opt_string(None));
            }
        },
        Some(s) => {
            buf.push(1);
            put_string(buf, s.as_str());
            proof {
                assert(final(buf)@ =~= old(buf)@ + enc_opt_string(Some(s@)));
            }
        },
    }
}

} // verus!

verus! {

/// Reads the byte at `pos` as a truth value.
pub fn parse_bool(buf: &Vec<u8>, pos: usize) -> (r: Option<(bool, usize)>)
    ensures
        r matches Some((v, p2)) ==> p2 == pos + 1 && pos + 1 <= buf@.len() && v == (buf@[pos as int]
            != 0),
        r is None ==> pos + 1 > buf@.len(),
{
    if pos >= buf.len() {
        return None;
    }
    Some((buf[pos] != 0, pos + 1))
}

/// Reads a presence byte and, when set, a four-byte value.
pub fn parse_opt_u32(buf: &Vec<u8>, pos: usize) -> (r: Option<(Option<u32>, usize)>)
    ensures
        r matches Some((v, p2)) ==> pos + 1 <= buf@.len() && (if buf@[pos as int] == 0 {
            v is None && p2 == pos + 1
        } else {
            v matches Some(x) && x == dec_u32(buf@.subrange(pos + 1, pos + 5)) && p2 == pos + 5
                && pos + 5 <= buf@.len()
        }),
        r is None ==> pos + 1 > buf@.len() || (buf@[pos as int] != 0 && pos + 5 > buf@.len()),
{
    if pos >= buf.len() {
        return None;
    }
    if buf[pos] == 0 {
        Some((None, pos + 1))
    } else {
        match parse_u32(buf, pos + 1) {
            Some((v, p2)) => Some((Some(v), p2)),
            None => None,
        }
    }
}

/// Reads a presence byte and, when set, an eight-byte value.
pub fn parse_opt_u64(buf: &Vec<u8>, pos: usize) -> (r: Option<(Option<u64>, usize)>)
    ensures
        r matches Some((v, p2)) ==> pos + 1 <= buf@.len() && (if buf@[pos as int] == 0 {
            v is None && p2 == pos + 1
        } else {
            v matches Some(x) && x == dec_u64(buf@.subrange(pos + 1, pos + 9)) && p2 == pos + 9
                && pos + 9 <= buf@.len()
        }),
        r is None ==> pos + 1 > buf@.len() || (buf@[pos as int] != 0 && pos + 9 > buf@.len()),
{
    if pos >= buf.len() {
        return None;
    }
    if buf[pos] == 0 {
        Some((None, pos + 1))
    } else {
        match parse_u64(buf, pos + 1) {
            Some((v, p2)) => Some((Some(v), p2)),
            None => None,
        }
    }
}

/// Reads a count-prefixed run of raw bytes.
pub fn parse_bytes(buf: &Vec<u8>, pos: usize) -> (r: Option<(Vec<u8>, usize)>)
    ensures
        r matches Some((b, p2)) ==> pos + 4 <= buf@.len() && b@.len() == dec_u32(
            buf@.subrange(pos as int, pos + 4),
        ) && p2 == pos + 4 + b@.len() && p2 <= buf@.len() && b@ == buf@.subrange(pos + 4, p2 as int),
        r is None ==> pos + 4 > buf@.len() || pos + 4 + dec_u32(
            buf@.subrange(pos as int, pos + 4),
        ) > buf@.len(),
{
    let (n, p1) = match parse_u32(buf, pos) {
        Some(x) => x,
        None => {
            return None;
        },
    };
    let n = n as usize;
    if n > buf.len() || p1 > buf.len() - n {
        return None;
    }
    let bl = buf.len();
    let mut out: Vec<u8> = Vec::new();
    let mut i: usize = 0;
    while i < n
        invariant
            0 <= i <= n,
            p1 + n <= bl,
            bl == buf@.len(),
            out@.len() == i,
            out@ == buf@.subrange(p1 as int, p1 + i),
        decreases n - i,
    {
        out.push(buf[p1 + i]);
        proof {
            assert(out@ =~= buf@.subrange(p1 as int, p1 + i + 1));
        }
        i = i + 1;
    }
    Some((out, p1 + n))
}

/// Reads a count-prefixed UTF-8 string.
pub fn parse_string(buf: &Vec<u8>, pos: usize) -> (r: Option<(String, usize)>)
    ensures
        r matches Some((s, p2)) ==> pos + 4 <= buf@.len() && p2 == pos + 4 + dec_u32(
            buf@.subrange(pos as int, pos + 4),
        ) && p2 <= buf@.len() && vstd::utf8::encode_utf8(s@) == buf@.subrange(pos + 4, p2 as int),
        r is None ==> pos + 4 > buf@.len() || pos + 4 + dec_u32(
            buf@.subrange(pos as int, pos + 4),
        ) > buf@.len() || !vstd::utf8::valid_utf8(
            buf@.subrange(pos + 4, pos + 4 + dec_u32(buf@.subrange(pos as int, pos + 4))),
        ),
{
    broadcast use vstd::utf8::encode_utf8_decode_utf8, vstd::utf8::decode_utf8_encode_utf8;

    let (b, p2) = match parse_bytes(buf, pos) {
        Some(x) => x,
        None => {
            return None;
        },
    };
    match core::str::from_utf8(b.as_slice()) {
        Ok(s) => {
            let owned = s.to_owned();
            proof {
                assert(vstd::utf8::encode_utf8(owned@) == b@);
            }
            Some((owned, p2))
        },
        Err(_) => None,
    }
}

/// Reads a presence byte and, when set, a string.
pub fn parse_opt_string(buf: &Vec<u8>, pos: usize) -> (r: Option<(Option<String>, usize)>)
    ensures
        r matches Some((v, p2)) ==> pos + 1 <= buf@.len() && (if buf@[pos as int] == 0 {
            v is None && p2 == pos + 1
        } else {
            v matches Some(s) && pos + 5 <= buf@.len() && p2 == pos + 5 + dec_u32(
                buf@.subrange(pos + 1, pos + 5),
            ) && p2 <= buf@.len() && vstd::utf8::encode_utf8(s@) == buf@.subrange(
                pos + 5,
                p2 as int,
            )
        }),
        r is None ==> pos + 1 > buf@.len() || (buf@[pos as int] != 0 && (pos + 5 > buf@.len() || pos
            + 5 + dec_u32(buf@.subrange(pos + 1, pos + 5)) > buf@.len() || !vstd::utf8::valid_utf8(
            buf@.subrange(pos + 5, pos + 5 + dec_u32(buf@.subrange(pos + 1, pos + 5))),
        ))),
{
    if pos >= buf.len() {
        return None;
    }
    if buf[pos] == 0 {
        Some((None, pos + 1))
    } else {
        match parse_string(buf, pos + 1) {
            Some((s, p2)) => Some((Some(s), p2)),
            None => None,
        }
    }
}

/// The list encoding holds each value at its four-byte slot.
pub proof fn lemma_enc_u32s_index(l: Seq<u32>, i: int)
    requires
        0 <= i < l.len(),
    ensures
        enc_u32s(l).len() == 4 * l.len(),
        enc_u32s(l).subrange(4 * i, 4 * i + 4) == enc_u32(l[i]),
    decreases l.len(),
{
    lemma_enc_u32s_len(l);
    lemma_u32_codec(l[0]);
    if i == 0 {
        lemma_enc_u32s_len(l.drop_first());
        assert(enc_u32s(l).subrange(0, 4) =~= enc_u32(l[0]));
    } else {
        lemma_enc_u32s_index(l.drop_first(), i - 1);
        lemma_enc_u32s_len(l.drop_first());
        assert(enc_u32s(l).subrange(4 * i, 4 * i + 4) =~= enc_u32s(l.drop_first()).subrange(
            4 * (i - 1),
            4 * (i - 1) + 4,
        ));
        assert(l.drop_first()[i - 1] == l[i]);
    }
}

/// Reads a count-prefixed run of four-byte values.
pub fn parse_u32_list(buf: &Vec<u8>, pos: usize) -> (r: Option<(Vec<u32>, usize)>)
    ensures
        r matches Some((l, p2)) ==> pos + 4 <= buf@.len() && l@.len() == dec_u32(
            buf@.subrange(pos as int, pos + 4),
        ) && p2 == pos + 4 + 4 * l@.len() && p2 <= buf@.len() && (forall|i: int|
            0 <= i < l@.len() ==> l@[i] == dec_u32(
                buf@.subrange(pos + 4 + 4 * i, pos + 8 + 4 * i),
            )),
        r is None ==> pos + 4 > buf@.len() || pos + 4 + 4 * dec_u32(
            buf@.subrange(pos as int, pos + 4),
        ) > buf@.len(),
{
    let (n, p1) = match parse_u32(buf, pos) {
        Some(x) => x,
        None => {
            return None;
        },
    };
    let n = n as usize;
    if n > buf.len() / 4 || p1 > buf.len() - 4 * n {
        return None;
    }
    let bl = buf.len();
    let mut out: Vec<u32> = Vec::new();
    let mut i: usize = 0;
    while i < n
        invariant
            0 <= i <= n,
            p1 + 4 * n <= bl,
            bl == buf@.len(),
            p1 == pos + 4,
            out@.len() == i,
            forall|k: int|
                0 <= k < i ==> out@[k] == dec_u32(buf@.subrange(p1 + 4 * k, p1 + 4 + 4 * k)),
        decreases n - i,
    {
        let (v, _) = match parse_u32(buf, p1 + 4 * i) {
            Some(x) => x,
            None => {
                proof {
                    assert(false);
                }
                return None;
            },
        };
        out.push(v);
        i = i + 1;
    }
    Some((out, p1 + 4 * n))
}

} // verus!
