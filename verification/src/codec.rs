//! Wire format of the instruction payload and its codec.
//!
//! The layout is fixed, in field order and without padding: one unsigned byte
//! `id`, then `firstname` and `lastname`, each as a 4-byte little-endian
//! length prefix followed by that many bytes of UTF-8 text.

use vstd::bytes::{
    lemma_auto_spec_u32_to_from_le_bytes, spec_u32_from_le_bytes, spec_u32_to_le_bytes,
    u32_from_le_bytes, u32_to_le_bytes,
};
use vstd::prelude::*;
use vstd::slice::{slice_index_get, slice_subrange, slice_to_vec};
use vstd::utf8::{decode_utf8, encode_utf8, valid_utf8};

verus! {

/// Error for a buffer that cannot be decoded: too short for a field, a
/// declared string length past the end, or string bytes that are not UTF-8.
#[derive(Clone, Copy, Debug, PartialEq, Eq)]
pub struct DecodeError;

/// The decoded instruction payload: a discriminant byte and two names.
#[derive(Clone, Debug, PartialEq)]
pub struct StringData {
    pub id: u8,
    pub firstname: String,
    pub lastname: String,
}

/// Mathematical value of a payload: the `id` byte and both strings as
/// character sequences.
#[verifier::ext_equal]
pub ghost struct StringDataView {
    pub id: u8,
    pub firstname: Seq<char>,
    pub lastname: Seq<char>,
}

impl View for StringData {
    type V = StringDataView;

    open spec fn view(&self) -> StringDataView {
        StringDataView { id: self.id, firstname: self.firstname@, lastname: self.lastname@ }
    }
}

/// The length declared by the 4-byte little-endian prefix at `off`.
pub open spec fn str_len(b: Seq<u8>, off: int) -> int
    recommends
        off + 4 <= b.len(),
{
    spec_u32_from_le_bytes(b.subrange(off, off + 4)) as int
}

/// Does the length-prefixed string starting at `off` lie inside `b`?
pub open spec fn str_in_bounds(b: Seq<u8>, off: int) -> bool {
    &&& 0 <= off
    &&& off + 4 <= b.len()
    &&& off + 4 + str_len(b, off) <= b.len()
}

/// The bytes of the string region declared at `off`.
pub open spec fn str_region(b: Seq<u8>, off: int) -> Seq<u8>
    recommends
        str_in_bounds(b, off),
{
    b.subrange(off + 4, off + 4 + str_len(b, off))
}

/// Offset of the first byte after the string declared at `off`.
pub open spec fn str_end(b: Seq<u8>, off: int) -> int {
    off + 4 + str_len(b, off)
}

/// One length-prefixed UTF-8 string read at `off`: its characters, or
/// nothing if it runs past the end of `b` or its bytes are not UTF-8.
pub open spec fn parse_str(b: Seq<u8>, off: int) -> Option<Seq<char>> {
    if str_in_bounds(b, off) && valid_utf8(str_region(b, off)) {
        Some(decode_utf8(str_region(b, off)))
    } else {
        None
    }
}

/// What decoding `b` yields: the payload read in field order, or nothing
/// exactly when some field is missing, runs past the end, or is not UTF-8.
/// Bytes after the third field are ignored.
pub open spec fn decode_spec(b: Seq<u8>) -> Option<StringDataView> {
    if b.len() < 1 {
        None
    } else {
        match parse_str(b, 1) {
            Some(f) => match parse_str(b, str_end(b, 1)) {
                Some(l) => Some(StringDataView { id: b[0], firstname: f, lastname: l }),
                None => None,
            },
            None => None,
        }
    }
}

/// One encoded string: the 4-byte little-endian length of the UTF-8 bytes,
/// then the bytes themselves.
pub open spec fn encode_str(s: Seq<char>) -> Seq<u8>
    recommends
        encode_utf8(s).len() < 0x100000000,
{
    spec_u32_to_le_bytes(encode_utf8(s).len() as u32) + encode_utf8(s)
}

/// The encoding of a payload: `id`, then `firstname`, then `lastname`.
pub open spec fn encode_spec(v: StringDataView) -> Seq<u8> {
    seq![v.id] + encode_str(v.firstname) + encode_str(v.lastname)
}

/// Machine limits on an encodable payload: each string's UTF-8 byte length
/// fits its 4-byte prefix, and the whole buffer fits in memory.
pub open spec fn encodable(v: StringDataView) -> bool {
    &&& encode_utf8(v.firstname).len() < 0x100000000
    &&& encode_utf8(v.lastname).len() < 0x100000000
    &&& encode_spec(v).len() <= usize::MAX
}

/// Decoding inverts encoding, whatever trailing bytes follow: an encoded
/// payload decodes to the payload it came from, with anything after the
/// third field ignored.
pub proof fn lemma_decode_encode(v: StringDataView, extra: Seq<u8>)
    requires
        encode_utf8(v.firstname).len() < 0x100000000,
        encode_utf8(v.lastname).len() < 0x100000000,
    ensures
        decode_spec(encode_spec(v) + extra) == Some(v),
{
    lemma_auto_spec_u32_to_from_le_bytes();
    let e1 = encode_utf8(v.firstname);
    let e2 = encode_utf8(v.lastname);
    let n1 = e1.len() as int;
    let n2 = e2.len() as int;
    let b = encode_spec(v) + extra;
    assert(b.len() == 9 + n1 + n2 + extra.len());
    assert(b[0] == v.id);
    assert(b.subrange(1, 5) =~= spec_u32_to_le_bytes(n1 as u32));
    assert(str_len(b, 1) == n1);
    assert(str_in_bounds(b, 1));
    assert(str_region(b, 1) =~= e1);
    vstd::utf8::encode_utf8_valid_utf8(v.firstname);
    vstd::utf8::encode_utf8_decode_utf8(v.firstname);
    assert(parse_str(b, 1) == Some(v.firstname));
    assert(str_end(b, 1) == 5 + n1);
    assert(b.subrange(5 + n1, 9 + n1) =~= spec_u32_to_le_bytes(n2 as u32));
    assert(str_len(b, 5 + n1) == n2);
    assert(str_in_bounds(b, 5 + n1));
    assert(str_region(b, 5 + n1) =~= e2);
    vstd::utf8::encode_utf8_valid_utf8(v.lastname);
    vstd::utf8::encode_utf8_decode_utf8(v.lastname);
    assert(parse_str(b, 5 + n1) == Some(v.lastname));
    assert(decode_spec(b) matches Some(w) && w =~= v);
}

/// Every proper prefix of an encoded payload is rejected: cutting the buffer
/// anywhere before the end of the last field leaves some field missing or
/// short, and decoding yields nothing.
pub proof fn lemma_truncation(v: StringDataView, n: int)
    requires
        encode_utf8(v.firstname).len() < 0x100000000,
        encode_utf8(v.lastname).len() < 0x100000000,
        0 <= n < encode_spec(v).len(),
    ensures
        decode_spec(encode_spec(v).subrange(0, n)) is None,
{
    lemma_auto_spec_u32_to_from_le_bytes();
    let e1 = encode_utf8(v.firstname);
    let e2 = encode_utf8(v.lastname);
    let n1 = e1.len() as int;
    let n2 = e2.len() as int;
    let full = encode_spec(v);
    assert(full.len() == 9 + n1 + n2);
    let b = full.subrange(0, n);
    if n < 1 {
        assert(decode_spec(b) is None);
    } else if n < 5 {
        assert(!str_in_bounds(b, 1));
        assert(decode_spec(b) is None);
    } else {
        assert(b.subrange(1, 5) =~= spec_u32_to_le_bytes(n1 as u32));
        assert(str_len(b, 1) == n1);
        if n < 5 + n1 {
            assert(!str_in_bounds(b, 1));
            assert(decode_spec(b) is None);
        } else {
            assert(str_end(b, 1) == 5 + n1);
            if n < 9 + n1 {
                assert(!str_in_bounds(b, 5 + n1));
            } else {
                assert(b.subrange(5 + n1, 9 + n1) =~= spec_u32_to_le_bytes(n2 as u32));
                assert(str_len(b, 5 + n1) == n2);
                assert(n < 9 + n1 + n2);
                assert(!str_in_bounds(b, 5 + n1));
            }
            assert(parse_str(b, 5 + n1) is None);
            assert(decode_spec(b) is None);
        }
    }
}

/// Decoding succeeds only when both declared string regions lie inside the
/// buffer and hold valid UTF-8: a buffer whose declared string region holds
/// bytes that are not valid UTF-8 is rejected.
pub proof fn lemma_utf8_required(b: Seq<u8>)
    ensures
        decode_spec(b) is Some ==> {
            &&& str_in_bounds(b, 1)
            &&& valid_utf8(str_region(b, 1))
            &&& str_in_bounds(b, str_end(b, 1))
            &&& valid_utf8(str_region(b, str_end(b, 1)))
        },
{
}

/// Relies on `String::from_utf8`: it succeeds exactly when the input bytes
/// are valid UTF-8, and the returned string's UTF-8 encoding is the input.
#[verifier::external_body]
fn utf8_to_string(v: Vec<u8>) -> (r: Option<String>)
    ensures
        match r {
            Some(s) => valid_utf8(v@) && encode_utf8(s@) == v@,
            None => !valid_utf8(v@),
        },
{
    String::from_utf8(v).ok()
}

/// Read the length-prefixed UTF-8 string at `off`, returning it together
/// with the offset just past it.
fn read_string(bytes: &[u8], off: usize) -> (r: Option<(String, usize)>)
    requires
        off <= bytes@.len(),
    ensures
        match r {
            Some(p) => {
                &&& parse_str(bytes@, off as int) == Some(p.0@)
                &&& p.1 == str_end(bytes@, off as int)
                &&& str_in_bounds(bytes@, off as int)
            },
            None => parse_str(bytes@, off as int) is None,
        },
{
    if bytes.len() - off < 4 {
        return None;
    }
    let n = u32_from_le_bytes(slice_subrange(bytes, off, off + 4));
    assert(n == str_len(bytes@, off as int));
    let rest = bytes.len() - (off + 4);
    if n as usize > rest {
        return None;
    }
    let start = off + 4;
    let end = start + n as usize;
    let region = slice_to_vec(slice_subrange(bytes, start, end));
    assert(region@ == str_region(bytes@, off as int));
    match utf8_to_string(region) {
        Some(s) => {
            proof {
                vstd::utf8::encode_utf8_decode_utf8(s@);
            }
            Some((s, end))
        },
        None => None,
    }
}

/// Decode the wire format: `id`, then `firstname`, then `lastname`.
/// Succeeds exactly when all three fields are present, in bounds and valid
/// UTF-8; trailing bytes are tolerated.
pub fn decode(bytes: &[u8]) -> (r: Result<StringData, DecodeError>)
    ensures
        match r {
            Ok(d) => decode_spec(bytes@) == Some(d@),
            Err(_) => decode_spec(bytes@) is None,
        },
{
    if bytes.len() < 1 {
        return Err(DecodeError);
    }
    let id = *slice_index_get(bytes, 0);
    let (firstname, off2) = match read_string(bytes, 1) {
        Some(p) => p,
        None => {
            return Err(DecodeError);
        },
    };
    let (lastname, _end) = match read_string(bytes, off2) {
        Some(p) => p,
        None => {
            return Err(DecodeError);
        },
    };
    let d = StringData { id, firstname, lastname };
    proof {
        assert(decode_spec(bytes@) matches Some(v) && v =~= d@);
    }
    Ok(d)
}

/// Append one encoded string to `out`: the 4-byte little-endian byte length,
/// then the UTF-8 bytes.
fn push_str_bytes(out: &mut Vec<u8>, s: &String)
    requires
        encode_utf8(s@).len() < 0x100000000,
        old(out)@.len() + 4 + encode_utf8(s@).len() <= usize::MAX,
    ensures
        final(out)@ == old(out)@ + encode_str(s@),
{
    proof {
        lemma_auto_spec_u32_to_from_le_bytes();
    }
    let bs: &[u8] = s.as_str().as_bytes();
    let lenv = u32_to_le_bytes(bs.len() as u32);
    out.push(lenv[0]);
    out.push(lenv[1]);
    out.push(lenv[2]);
    out.push(lenv[3]);
    let ghost with_len = out@;
    let mut i: usize = 0;
    while i < bs.len()
        invariant
            i <= bs@.len(),
            bs@ == encode_utf8(s@),
            out@ == with_len + bs@.subrange(0, i as int),
            with_len == old(out)@ + spec_u32_to_le_bytes(bs@.len() as u32),
        decreases bs@.len() - i,
    {
        out.push(*slice_index_get(bs, i));
        proof {
            assert(out@ =~= with_len + bs@.subrange(0, i + 1));
        }
        i = i + 1;
    }
    proof {
        assert(bs@.subrange(0, bs@.len() as int) =~= bs@);
        assert(out@ =~= old(out)@ + encode_str(s@));
    }
}

/// Encode a payload in the wire format. The result decodes back to the same
/// payload, also when arbitrary bytes are appended to it.
pub fn encode(p: &StringData) -> (r: Vec<u8>)
    requires
        encodable(p@),
    ensures
        r@ == encode_spec(p@),
        decode_spec(r@) == Some(p@),
        forall|extra: Seq<u8>| decode_spec(r@ + extra) == Some(p@),
{
    let mut out: Vec<u8> = Vec::new();
    out.push(p.id);
    proof {
        lemma_auto_spec_u32_to_from_le_bytes();
        assert(encode_spec(p@).len() == 1 + (4 + encode_utf8(p@.firstname).len()) + (4
            + encode_utf8(p@.lastname).len()));
    }
    push_str_bytes(&mut out, &p.firstname);
    push_str_bytes(&mut out, &p.lastname);
    proof {
        assert(out@ =~= encode_spec(p@));
        assert forall|extra: Seq<u8>| decode_spec(out@ + extra) == Some(p@) by {
            lemma_decode_encode(p@, extra);
        }
        lemma_decode_encode(p@, Seq::<u8>::empty());
        assert(out@ + Seq::<u8>::empty() =~= out@);
    }
    out
}

/// Encode a payload if its strings fit the 4-byte length prefixes and the
/// buffer fits in memory; yield nothing, and encode nothing, otherwise.
pub fn try_encode(p: &StringData) -> (r: Option<Vec<u8>>)
    ensures
        match r {
            Some(bytes) => {
                &&& encodable(p@)
                &&& bytes@ == encode_spec(p@)
                &&& decode_spec(bytes@) == Some(p@)
            },
            None => !encodable(p@),
        },
{
    proof {
        lemma_auto_spec_u32_to_from_le_bytes();
    }
    let nf = p.firstname.as_str().as_bytes().len() as u64;
    let nl = p.lastname.as_str().as_bytes().len() as u64;
    if nf >= 0x100000000u64 || nl >= 0x100000000u64 {
        return None;
    }
    if 9u64 + nf + nl > usize::MAX as u64 {
        return None;
    }
    proof {
        assert(encode_spec(p@).len() == 9 + nf + nl);
    }
    Some(encode(p))
}

} // verus!
