//! Encoding of a memory's tags: for each tag, its byte length as a
//! little-endian `u16`, then its UTF-8 bytes (cut at 65535 bytes).

use vstd::prelude::*;
use vstd::bytes::{spec_u16_to_le_bytes, spec_u16_from_le_bytes, lemma_auto_spec_u16_to_from_le_bytes};
use vstd::utf8::{valid_utf8, decode_utf8, encode_utf8, encode_utf8_decode_utf8, encode_utf8_valid_utf8};
use crate::bytes::{push_u16_le, push_bytes, read_u16_le};
use crate::text::text_from_utf8;

verus! {

/// Longest tag, in bytes, that the encoding keeps whole.
pub const MAX_TAG_BYTES: usize = 0xffff;

/// Why a tags buffer does not decode.
#[derive(Debug, Clone, Copy, PartialEq, Eq, Structural)]
pub enum TagFault {
    TruncatedLength,
    TruncatedBytes,
    NotUtf8,
}

/// The message `decode_tags` reports for each fault.
pub open spec fn spec_fault_message(f: TagFault) -> Seq<char> {
    match f {
        TagFault::TruncatedLength => "truncated tag length"@,
        TagFault::TruncatedBytes => "truncated tag bytes"@,
        TagFault::NotUtf8 => "tag is not valid utf-8"@,
    }
}

/// Number of bytes of a tag that are stored.
pub open spec fn spec_tag_stored_len(t: Seq<char>) -> nat {
    let n = encode_utf8(t).len();
    if n < 0xffff { n } else { 0xffff }
}

/// The bytes one tag is stored as.
pub open spec fn spec_encode_tag(t: Seq<char>) -> Seq<u8> {
    spec_u16_to_le_bytes(spec_tag_stored_len(t) as u16) + encode_utf8(t).subrange(0, spec_tag_stored_len(t) as int)
}

/// The bytes a list of tags is stored as.
pub open spec fn spec_encode_tags(tags: Seq<Seq<char>>) -> Seq<u8>
    decreases tags.len(),
{
    if tags.len() == 0 {
        seq![]
    } else {
        spec_encode_tag(tags[0]) + spec_encode_tags(tags.drop_first())
    }
}

/// Decoding of the tags stored from byte `i` on.
pub open spec fn spec_decode_tags_from(buf: Seq<u8>, i: nat) -> Result<Seq<Seq<char>>, TagFault>
    decreases buf.len() - i,
{
    if i >= buf.len() {
        Ok(seq![])
    } else if i + 2 > buf.len() {
        Err(TagFault::TruncatedLength)
    } else {
        let k = i as int;
        let n = spec_u16_from_le_bytes(buf.subrange(k, k + 2)) as int;
        if k + 2 + n > buf.len() {
            Err(TagFault::TruncatedBytes)
        } else if !valid_utf8(buf.subrange(k + 2, k + 2 + n)) {
            Err(TagFault::NotUtf8)
        } else {
            match spec_decode_tags_from(buf, (k + 2 + n) as nat) {
                Ok(rest) => Ok(seq![decode_utf8(buf.subrange(k + 2, k + 2 + n))] + rest),
                Err(f) => Err(f),
            }
        }
    }
}

/// Decoding of a whole tags buffer.
pub open spec fn spec_decode_tags(buf: Seq<u8>) -> Result<Seq<Seq<char>>, TagFault> {
    spec_decode_tags_from(buf, 0)
}

/// Puts already decoded tags in front of a decoding result.
pub open spec fn spec_prepend_tags(done: Seq<Seq<char>>, r: Result<Seq<Seq<char>>, TagFault>) -> Result<Seq<Seq<char>>, TagFault> {
    match r {
        Ok(rest) => Ok(done + rest),
        Err(f) => Err(f),
    }
}

/// Whether every tag fits the encoding whole.
pub open spec fn spec_tags_fit(tags: Seq<Seq<char>>) -> bool {
    forall|i: int| 0 <= i < tags.len() ==> #[trigger] encode_utf8(tags[i]).len() <= 0xffff
}

proof fn lemma_encode_tags_push(a: Seq<Seq<char>>, x: Seq<char>)
    ensures
        spec_encode_tags(a.push(x)) == spec_encode_tags(a) + spec_encode_tag(x),
    decreases a.len(),
{
    if a.len() == 0 {
        assert(a.push(x).drop_first() =~= Seq::<Seq<char>>::empty());
        assert(spec_encode_tags(a.push(x)) =~= spec_encode_tag(x) + spec_encode_tags(Seq::<Seq<char>>::empty()));
        assert(spec_encode_tags(a) =~= Seq::<u8>::empty());
        assert(spec_encode_tags(a.push(x)) =~= spec_encode_tags(a) + spec_encode_tag(x));
    } else {
        lemma_encode_tags_push(a.drop_first(), x);
        assert(a.push(x).drop_first() =~= a.drop_first().push(x));
        assert(a.push(x)[0] == a[0]);
        assert(spec_encode_tags(a.push(x)) =~= spec_encode_tags(a) + spec_encode_tag(x));
    }
}

/// Decoding from a position inside a suffix does not see what precedes it.
proof fn lemma_decode_tags_shift(a: Seq<u8>, b: Seq<u8>, j: nat)
    ensures
        spec_decode_tags_from(a + b, a.len() + j) == spec_decode_tags_from(b, j),
    decreases b.len() - j,
{
    let ab = a + b;
    let i = a.len() + j;
    if j >= b.len() {
    } else if j + 2 > b.len() {
    } else {
        let ii = i as int;
        let jj = j as int;
        assert(ab.subrange(ii, ii + 2) =~= b.subrange(jj, jj + 2));
        let n = spec_u16_from_le_bytes(b.subrange(jj, jj + 2)) as nat;
        if j + 2 + n <= b.len() {
            assert(ab.subrange(ii + 2, ii + 2 + n) =~= b.subrange(jj + 2, jj + 2 + n));
            lemma_decode_tags_shift(a, b, j + 2 + n);
            assert(a.len() + (j + 2 + n) == i + 2 + n);
        }
    }
}

/// Tags that each fit in 65535 bytes decode back to themselves.
pub proof fn lemma_tags_round_trip(tags: Seq<Seq<char>>)
    requires
        spec_tags_fit(tags),
    ensures
        spec_decode_tags(spec_encode_tags(tags)) == Ok::<Seq<Seq<char>>, TagFault>(tags),
    decreases tags.len(),
{
    if tags.len() == 0 {
        assert(spec_encode_tags(tags) =~= Seq::<u8>::empty());
        assert(tags =~= Seq::<Seq<char>>::empty());
    } else {
        let t = tags[0];
        let rest = tags.drop_first();
        assert(spec_tags_fit(rest)) by {
            assert forall|i: int| 0 <= i < rest.len() implies #[trigger] encode_utf8(rest[i]).len() <= 0xffff by {
                assert(rest[i] == tags[i + 1]);
            }
        }
        lemma_tags_round_trip(rest);
        lemma_auto_spec_u16_to_from_le_bytes();
        let e = encode_utf8(t);
        assert(encode_utf8(tags[0]).len() <= 0xffff);
        let n = e.len() as int;
        let head = spec_encode_tag(t);
        assert(e.subrange(0, n) =~= e);
        assert(spec_u16_to_le_bytes(n as u16).len() == 2);
        assert(spec_tag_stored_len(t) == n);
        let whole = spec_encode_tags(tags);
        assert(whole == head + spec_encode_tags(rest));
        assert(whole.subrange(0, 2) =~= spec_u16_to_le_bytes(n as u16));
        assert(whole.subrange(2, 2 + n as int) =~= e);
        encode_utf8_valid_utf8(t);
        encode_utf8_decode_utf8(t);
        lemma_decode_tags_shift(head, spec_encode_tags(rest), 0);
        assert(head.len() == 2 + n);
        assert(spec_u16_from_le_bytes(whole.subrange(0, 2)) == n as u16);
        assert(spec_decode_tags_from(whole, (2 + n) as nat) == Ok::<Seq<Seq<char>>, TagFault>(rest));
        assert(valid_utf8(whole.subrange(2, 2 + n)));
        assert(decode_utf8(whole.subrange(2, 2 + n)) == t);
        assert(seq![t] + rest =~= tags);
    }
}

/// Encodes tags: per tag, `[len: u16 LE][utf8 bytes]`, a tag longer than
/// 65535 bytes being cut to its first 65535 bytes.
pub fn encode_tags(tags: &[String]) -> (out: Vec<u8>)
    ensures
        out@ == spec_encode_tags(tags.deep_view()),
{
    let mut out: Vec<u8> = Vec::new();
    let mut i: usize = 0;
    while i < tags.len()
        invariant
            i <= tags@.len(),
            out@ == spec_encode_tags(tags.deep_view().take(i as int)),
        decreases tags@.len() - i,
    {
        let bytes = tags[i].as_str().as_bytes();
        let len: usize = if bytes.len() < MAX_TAG_BYTES { bytes.len() } else { MAX_TAG_BYTES };
        push_u16_le(&mut out, len as u16);
        push_bytes(&mut out, vstd::slice::slice_subrange(bytes, 0, len));
        proof {
            let dv = tags.deep_view();
            assert(dv[i as int] == tags@[i as int]@);
            assert(dv.take(i + 1) =~= dv.take(i as int).push(dv[i as int]));
            lemma_encode_tags_push(dv.take(i as int), dv[i as int]);
        }
        i = i + 1;
    }
    assert(tags.deep_view().take(i as int) =~= tags.deep_view());
    out
}

/// Decodes a tags buffer, failing on the first tag whose length or bytes
/// run past the end or whose bytes are not UTF-8.
pub fn decode_tags(buf: &[u8]) -> (r: Result<Vec<String>, &'static str>)
    ensures
        match r {
            Ok(v) => spec_decode_tags(buf@) == Ok::<Seq<Seq<char>>, TagFault>(v.deep_view()),
            Err(m) => spec_decode_tags(buf@) matches Err(f) && m@ == spec_fault_message(f),
        },
{
    let mut out: Vec<String> = Vec::new();
    let mut i: usize = 0;
    assert(out.deep_view() =~= Seq::<Seq<char>>::empty());
    while i < buf.len()
        invariant
            i <= buf@.len(),
            spec_decode_tags(buf@) == spec_prepend_tags(out.deep_view(), spec_decode_tags_from(buf@, i as nat)),
        decreases buf@.len() - i,
    {
        if buf.len() - i < 2 {
            return Err("truncated tag length");
        }
        let len = read_u16_le(buf, i) as usize;
        let start = i + 2;
        if len > buf.len() - start {
            return Err("truncated tag bytes");
        }
        match text_from_utf8(vstd::slice::slice_subrange(buf, start, start + len)) {
            Some(s) => {
                let ghost before = out.deep_view();
                out.push(s);
                proof {
                    assert(out.deep_view() =~= before.push(s@));
                    let rest = spec_decode_tags_from(buf@, (start + len) as nat);
                    match rest {
                        Ok(x) => {
                            assert(before + (seq![s@] + x) =~= before.push(s@) + x);
                        },
                        Err(_) => {},
                    }
                }
            },
            None => {
                return Err("tag is not valid utf-8");
            },
        }
        i = start + len;
    }
    assert(out.deep_view() + Seq::<Seq<char>>::empty() =~= out.deep_view());
    Ok(out)
}

} // verus!
