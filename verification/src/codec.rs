//! The snapshot codec: serializes an ordered sequence of annotated regions to
//! a compact binary form and back. Integers are fixed-width 64-bit
//! little-endian values; strings are UTF-8 bytes behind a 64-bit byte-length
//! prefix; records are contiguous concatenations; the sequence is prefixed
//! with its record count. Decoding accepts exactly the byte strings the
//! encoder produces and inverts them field for field.

use vstd::prelude::*;
use vstd::bytes::lemma_auto_spec_u64_to_from_le_bytes;
use vstd::bytes::u64_from_le_bytes;
use vstd::bytes::u64_to_le_bytes;
use vstd::slice::slice_index_get;
use vstd::slice::slice_subrange;
use vstd::slice::slice_to_vec;
use vstd::bytes::spec_u64_from_le_bytes;
use vstd::bytes::spec_u64_to_le_bytes;
use vstd::utf8::decode_utf8;
use vstd::utf8::encode_utf8;
use vstd::utf8::encode_utf8_decode_utf8;
use vstd::utf8::encode_utf8_valid_utf8;
use vstd::utf8::valid_utf8;

use crate::code::CommentedCode;
use crate::code::Point;
use crate::code::RegionView;

verus! {

/// A string is stored as its UTF-8 byte count, then its UTF-8 bytes.
pub open spec fn enc_str(s: Seq<char>) -> Seq<u8> {
    spec_u64_to_le_bytes(encode_utf8(s).len() as u64) + encode_utf8(s)
}

/// A position is stored as its row, then its column.
pub open spec fn enc_point(p: Point) -> Seq<u8> {
    spec_u64_to_le_bytes(p.row as u64) + spec_u64_to_le_bytes(p.column as u64)
}

/// A region is stored as its five fields, contiguously.
pub open spec fn enc_region(r: RegionView) -> Seq<u8> {
    enc_str(r.path) + enc_str(r.comment) + enc_str(r.content) + enc_point(r.start) + enc_point(
        r.end,
    )
}

pub open spec fn enc_region_list(rs: Seq<RegionView>) -> Seq<u8>
    decreases rs.len(),
{
    if rs.len() == 0 {
        Seq::empty()
    } else {
        enc_region(rs.first()) + enc_region_list(rs.drop_first())
    }
}

/// The binary form of a snapshot: the region count, then each region.
pub open spec fn spec_encode_snapshot(rs: Seq<RegionView>) -> Seq<u8> {
    spec_u64_to_le_bytes(rs.len() as u64) + enc_region_list(rs)
}

/// A region whose text fields fit the 64-bit length prefixes. Every region
/// built from in-memory strings does.
pub open spec fn wf_region(r: RegionView) -> bool {
    &&& encode_utf8(r.path).len() <= u64::MAX
    &&& encode_utf8(r.comment).len() <= u64::MAX
    &&& encode_utf8(r.content).len() <= u64::MAX
}

/// A snapshot whose count and regions fit the binary form.
pub open spec fn wf_snapshot(rs: Seq<RegionView>) -> bool {
    &&& rs.len() <= u64::MAX
    &&& forall|i: int| 0 <= i < rs.len() ==> wf_region(#[trigger] rs[i])
}

/// Reads one 64-bit little-endian integer, returning it and the rest.
pub open spec fn dec_u64(b: Seq<u8>) -> Option<(u64, Seq<u8>)> {
    if b.len() >= 8 {
        Some((spec_u64_from_le_bytes(b.take(8)), b.skip(8)))
    } else {
        None
    }
}

/// Reads one 64-bit integer that must fit the platform's word size.
pub open spec fn dec_u64_usize(b: Seq<u8>) -> Option<(usize, Seq<u8>)> {
    match dec_u64(b) {
        Some((n, rest)) => if n <= usize::MAX {
            Some((n as usize, rest))
        } else {
            None
        },
        None => None,
    }
}

/// Reads one length-prefixed string; the prefixed bytes must be present and
/// must be valid UTF-8.
pub open spec fn dec_str(b: Seq<u8>) -> Option<(Seq<char>, Seq<u8>)> {
    match dec_u64(b) {
        Some((n, rest)) => if n <= rest.len() && valid_utf8(rest.take(n as int)) {
            Some((decode_utf8(rest.take(n as int)), rest.skip(n as int)))
        } else {
            None
        },
        None => None,
    }
}

pub open spec fn dec_point(b: Seq<u8>) -> Option<(Point, Seq<u8>)> {
    match dec_u64_usize(b) {
        Some((row, b1)) => match dec_u64_usize(b1) {
            Some((column, b2)) => Some((Point { row, column }, b2)),
            None => None,
        },
        None => None,
    }
}

pub open spec fn dec_region(b: Seq<u8>) -> Option<(RegionView, Seq<u8>)> {
    match dec_str(b) {
        Some((path, b1)) => match dec_str(b1) {
            Some((comment, b2)) => match dec_str(b2) {
                Some((content, b3)) => match dec_point(b3) {
                    Some((start, b4)) => match dec_point(b4) {
                        Some((end, b5)) => Some(
                            (RegionView { path, comment, content, start, end }, b5),
                        ),
                        None => None,
                    },
                    None => None,
                },
                None => None,
            },
            None => None,
        },
        None => None,
    }
}

/// Reads exactly `n` regions, requiring that they consume the whole input.
pub open spec fn dec_region_list(b: Seq<u8>, n: nat) -> Option<Seq<RegionView>>
    decreases n,
{
    if n == 0 {
        if b.len() == 0 {
            Some(Seq::empty())
        } else {
            None
        }
    } else {
        match dec_region(b) {
            Some((r, rest)) => match dec_region_list(rest, (n - 1) as nat) {
                Some(rs) => Some(seq![r] + rs),
                None => None,
            },
            None => None,
        }
    }
}

/// The snapshot a byte string decodes to, if it is a well-formed encoding.
pub open spec fn spec_decode_snapshot(b: Seq<u8>) -> Option<Seq<RegionView>> {
    match dec_u64(b) {
        Some((n, rest)) => dec_region_list(rest, n as nat),
        None => None,
    }
}

proof fn lemma_dec_u64_enc(x: u64, rest: Seq<u8>)
    ensures
        dec_u64(spec_u64_to_le_bytes(x) + rest) == Some((x, rest)),
{
    lemma_auto_spec_u64_to_from_le_bytes();
    let b = spec_u64_to_le_bytes(x) + rest;
    assert(b.take(8) =~= spec_u64_to_le_bytes(x));
    assert(b.skip(8) =~= rest);
}

proof fn lemma_dec_str_enc(s: Seq<char>, rest: Seq<u8>)
    requires
        encode_utf8(s).len() <= u64::MAX,
    ensures
        dec_str(enc_str(s) + rest) == Some((s, rest)),
{
    let bytes = encode_utf8(s);
    let n = bytes.len() as u64;
    assert(enc_str(s) + rest =~= spec_u64_to_le_bytes(n) + (bytes + rest));
    lemma_dec_u64_enc(n, bytes + rest);
    assert((bytes + rest).take(n as int) =~= bytes);
    assert((bytes + rest).skip(n as int) =~= rest);
    encode_utf8_valid_utf8(s);
    encode_utf8_decode_utf8(s);
}

proof fn lemma_dec_point_enc(p: Point, rest: Seq<u8>)
    ensures
        dec_point(enc_point(p) + rest) == Some((p, rest)),
{
    let second = spec_u64_to_le_bytes(p.column as u64);
    assert(enc_point(p) + rest =~= spec_u64_to_le_bytes(p.row as u64) + (second + rest));
    lemma_dec_u64_enc(p.row as u64, second + rest);
    lemma_dec_u64_enc(p.column as u64, rest);
}

proof fn lemma_dec_region_enc(r: RegionView, rest: Seq<u8>)
    requires
        wf_region(r),
    ensures
        dec_region(enc_region(r) + rest) == Some((r, rest)),
{
    let t_end = enc_point(r.end) + rest;
    let t_start = enc_point(r.start) + t_end;
    let t_content = enc_str(r.content) + t_start;
    let t_comment = enc_str(r.comment) + t_content;
    assert(enc_region(r) + rest =~= enc_str(r.path) + t_comment);
    assert(t_comment =~= enc_str(r.comment) + t_content);
    assert(t_content =~= enc_str(r.content) + t_start);
    assert(t_start =~= enc_point(r.start) + t_end);
    lemma_dec_str_enc(r.path, t_comment);
    lemma_dec_str_enc(r.comment, t_content);
    lemma_dec_str_enc(r.content, t_start);
    lemma_dec_point_enc(r.start, t_end);
    lemma_dec_point_enc(r.end, rest);
}

#[verifier::rlimit(50)]
proof fn lemma_dec_region_list_enc(rs: Seq<RegionView>)
    requires
        forall|i: int| 0 <= i < rs.len() ==> wf_region(#[trigger] rs[i]),
    ensures
        dec_region_list(enc_region_list(rs), rs.len()) == Some(rs),
    decreases rs.len(),
{
    if rs.len() == 0 {
        assert(enc_region_list(rs).len() == 0);
        assert(Seq::<RegionView>::empty() =~= rs);
    } else {
        lemma_dec_region_enc(rs.first(), enc_region_list(rs.drop_first()));
        lemma_dec_region_list_enc(rs.drop_first());
        assert(seq![rs.first()] + rs.drop_first() =~= rs);
    }
}

/// Round-trip law: decoding the binary encoding of any snapshot yields that
/// snapshot back, field for field and in the same order.
pub proof fn lemma_snapshot_round_trip(rs: Seq<RegionView>)
    requires
        wf_snapshot(rs),
    ensures
        spec_decode_snapshot(spec_encode_snapshot(rs)) == Some(rs),
{
    lemma_dec_u64_enc(rs.len() as u64, enc_region_list(rs));
    lemma_dec_region_list_enc(rs);
}

fn push_u64(out: &mut Vec<u8>, x: u64)
    ensures
        final(out)@ == old(out)@ + spec_u64_to_le_bytes(x),
{
    let bytes = u64_to_le_bytes(x);
    let mut k: usize = 0;
    proof {
        assert(out@ =~= old(out)@ + bytes@.take(0));
    }
    while k < bytes.len()
        invariant
            k <= bytes@.len(),
            bytes@ == spec_u64_to_le_bytes(x),
            out@ == old(out)@ + bytes@.take(k as int),
        decreases bytes@.len() - k,
    {
        out.push(bytes[k]);
        proof {
            assert(bytes@.take(k as int + 1) =~= bytes@.take(k as int).push(bytes@[k as int]));
            assert(old(out)@ + bytes@.take(k as int).push(bytes@[k as int]) =~= (old(out)@
                + bytes@.take(k as int)).push(bytes@[k as int]));
        }
        k = k + 1;
    }
    proof {
        assert(bytes@.take(bytes@.len() as int) =~= bytes@);
    }
}

fn push_bytes(out: &mut Vec<u8>, bytes: &[u8])
    ensures
        final(out)@ == old(out)@ + bytes@,
{
    let mut k: usize = 0;
    proof {
        assert(out@ =~= old(out)@ + bytes@.take(0));
    }
    while k < bytes.len()
        invariant
            k <= bytes@.len(),
            out@ == old(out)@ + bytes@.take(k as int),
        decreases bytes@.len() - k,
    {
        out.push(*slice_index_get(bytes, k));
        proof {
            assert(bytes@.take(k as int + 1) =~= bytes@.take(k as int).push(bytes@[k as int]));
            assert(old(out)@ + bytes@.take(k as int).push(bytes@[k as int]) =~= (old(out)@
                + bytes@.take(k as int)).push(bytes@[k as int]));
        }
        k = k + 1;
    }
    proof {
        assert(bytes@.take(bytes@.len() as int) =~= bytes@);
    }
}

fn push_str(out: &mut Vec<u8>, s: &str)
    ensures
        final(out)@ == old(out)@ + enc_str(s@),
        encode_utf8(s@).len() <= u64::MAX,
{
    let bytes = s.as_bytes();
    let n = bytes.len();
    push_u64(out, n as u64);
    push_bytes(out, bytes);
    proof {
        assert(out@ =~= old(out)@ + (spec_u64_to_le_bytes(n as u64) + bytes@));
    }
}

fn push_point(out: &mut Vec<u8>, p: Point)
    ensures
        final(out)@ == old(out)@ + enc_point(p),
{
    push_u64(out, p.row as u64);
    push_u64(out, p.column as u64);
    proof {
        assert(out@ =~= old(out)@ + (spec_u64_to_le_bytes(p.row as u64) + spec_u64_to_le_bytes(
            p.column as u64,
        )));
    }
}

fn push_region(out: &mut Vec<u8>, c: &CommentedCode)
    ensures
        final(out)@ == old(out)@ + enc_region(c@),
        wf_region(c@),
{
    let path = c.get_path();
    let comment = c.get_comment();
    let content = c.get_content();
    push_str(out, path.as_str());
    push_str(out, comment.as_str());
    push_str(out, content.as_str());
    push_point(out, c.get_start());
    push_point(out, c.get_end());
    proof {
        assert(out@ =~= old(out)@ + (enc_str(c@.path) + enc_str(c@.comment) + enc_str(c@.content)
            + enc_point(c@.start) + enc_point(c@.end)));
    }
}

/// Serializes a snapshot into its binary form: the region count, then each
/// region's five fields, strings as length-prefixed UTF-8 bytes and integers
/// as fixed-width 64-bit little-endian values.
pub fn encode_snapshot(regions: &Vec<CommentedCode>) -> (r: Vec<u8>)
    ensures
        r@ == spec_encode_snapshot(regions.deep_view()),
        wf_snapshot(regions.deep_view()),
{
    let ghost dv = regions.deep_view();
    let mut out: Vec<u8> = Vec::new();
    push_u64(&mut out, regions.len() as u64);
    let ghost header = spec_u64_to_le_bytes(dv.len() as u64);
    proof {
        assert(out@ =~= Seq::<u8>::empty() + header);
        assert(out@ =~= header);
        assert(dv.skip(0) =~= dv);
    }
    let mut i: usize = 0;
    while i < regions.len()
        invariant
            i <= regions@.len(),
            dv == regions.deep_view(),
            header == spec_u64_to_le_bytes(dv.len() as u64),
            out@ + enc_region_list(dv.skip(i as int)) == header + enc_region_list(dv),
            forall|k: int| 0 <= k < i ==> wf_region(#[trigger] dv[k]),
        decreases regions@.len() - i,
    {
        let ghost suffix = dv.skip(i as int);
        let ghost out_before = out@;
        proof {
            assert(suffix.len() > 0);
            assert(suffix.first() == dv[i as int]);
            assert(suffix.drop_first() =~= dv.skip(i as int + 1));
        }
        push_region(&mut out, &regions[i]);
        proof {
            assert(out@ =~= out_before + enc_region(dv[i as int]));
            assert(out@ + enc_region_list(dv.skip(i as int + 1)) =~= out_before + (enc_region(
                suffix.first(),
            ) + enc_region_list(suffix.drop_first())));
        }
        i = i + 1;
    }
    proof {
        assert(dv.skip(dv.len() as int) =~= Seq::<RegionView>::empty());
        assert(out@ + Seq::<u8>::empty() =~= out@);
    }
    out
}

/// Relies on String::from_utf8: it accepts exactly the valid UTF-8 byte
/// sequences and decodes them to the characters they encode.
#[verifier::external_body]
fn string_from_utf8(bytes: Vec<u8>) -> (r: Option<String>)
    ensures
        match r {
            Some(s) => valid_utf8(bytes@) && s@ == decode_utf8(bytes@),
            None => !valid_utf8(bytes@),
        },
{
    String::from_utf8(bytes).ok()
}

fn read_u64(bytes: &Vec<u8>, pos: usize) -> (r: Option<(u64, usize)>)
    requires
        pos <= bytes@.len(),
    ensures
        match r {
            Some(vp) => {
                &&& dec_u64(bytes@.skip(pos as int)) == Some((vp.0, bytes@.skip(vp.1 as int)))
                &&& pos <= vp.1 <= bytes@.len()
            },
            None => dec_u64(bytes@.skip(pos as int)) is None,
        },
{
    if bytes.len() - pos < 8 {
        return None;
    }
    let sl = slice_subrange(bytes.as_slice(), pos, pos + 8);
    let x = u64_from_le_bytes(sl);
    proof {
        assert(sl@ =~= bytes@.skip(pos as int).take(8));
        assert(bytes@.skip(pos as int + 8) =~= bytes@.skip(pos as int).skip(8));
    }
    Some((x, pos + 8))
}

fn read_string(bytes: &Vec<u8>, pos: usize) -> (r: Option<(String, usize)>)
    requires
        pos <= bytes@.len(),
    ensures
        match r {
            Some(sp) => {
                &&& dec_str(bytes@.skip(pos as int)) == Some((sp.0@, bytes@.skip(sp.1 as int)))
                &&& pos <= sp.1 <= bytes@.len()
            },
            None => dec_str(bytes@.skip(pos as int)) is None,
        },
{
    match read_u64(bytes, pos) {
        None => None,
        Some((n, p1)) => {
            if n > (bytes.len() - p1) as u64 {
                return None;
            }
            let nn = n as usize;
            let sl = slice_subrange(bytes.as_slice(), p1, p1 + nn);
            proof {
                assert(sl@ =~= bytes@.skip(p1 as int).take(n as int));
                assert(bytes@.skip(p1 as int + nn as int) =~= bytes@.skip(p1 as int).skip(n as int));
            }
            let owned = slice_to_vec(sl);
            match string_from_utf8(owned) {
                Some(s) => Some((s, p1 + nn)),
                None => None,
            }
        },
    }
}

fn read_point(bytes: &Vec<u8>, pos: usize) -> (r: Option<(Point, usize)>)
    requires
        pos <= bytes@.len(),
    ensures
        match r {
            Some(pp) => {
                &&& dec_point(bytes@.skip(pos as int)) == Some((pp.0, bytes@.skip(pp.1 as int)))
                &&& pos <= pp.1 <= bytes@.len()
            },
            None => dec_point(bytes@.skip(pos as int)) is None,
        },
{
    match read_u64(bytes, pos) {
        None => None,
        Some((row, p1)) => {
            if row > usize::MAX as u64 {
                return None;
            }
            match read_u64(bytes, p1) {
                None => None,
                Some((column, p2)) => {
                    if column > usize::MAX as u64 {
                        return None;
                    }
                    Some((Point::new(row as usize, column as usize), p2))
                },
            }
        },
    }
}

fn read_region(bytes: &Vec<u8>, pos: usize) -> (r: Option<(CommentedCode, usize)>)
    requires
        pos <= bytes@.len(),
    ensures
        match r {
            Some(cp) => {
                &&& dec_region(bytes@.skip(pos as int)) == Some((cp.0@, bytes@.skip(cp.1 as int)))
                &&& pos <= cp.1 <= bytes@.len()
            },
            None => dec_region(bytes@.skip(pos as int)) is None,
        },
{
    match read_string(bytes, pos) {
        None => None,
        Some((path, p1)) => match read_string(bytes, p1) {
            None => None,
            Some((comment, p2)) => match read_string(bytes, p2) {
                None => None,
                Some((content, p3)) => match read_point(bytes, p3) {
                    None => None,
                    Some((start, p4)) => match read_point(bytes, p4) {
                        None => None,
                        Some((end, p5)) => Some(
                            (CommentedCode::new(path, comment, content, start, end), p5),
                        ),
                    },
                },
            },
        },
    }
}

/// An error of the snapshot codec: the byte string was not produced by the
/// supported compression codec, or the decompressed bytes are not a
/// well-formed snapshot encoding.
#[derive(Clone, Copy, Debug, PartialEq, Eq, Structural)]
pub enum SnapshotError {
    Compression,
    Malformed,
}

spec fn opt_prepend(pre: Seq<RegionView>, o: Option<Seq<RegionView>>) -> Option<Seq<RegionView>> {
    match o {
        Some(s) => Some(pre + s),
        None => None,
    }
}

/// Deserializes a snapshot from its binary form. Succeeds exactly on the byte
/// strings that are a well-formed encoding, returning the encoded regions in
/// order; everything else is rejected as malformed rather than silently
/// coerced to an empty or partial snapshot.
pub fn decode_snapshot(bytes: &Vec<u8>) -> (r: Result<Vec<CommentedCode>, SnapshotError>)
    ensures
        match r {
            Ok(regions) => spec_decode_snapshot(bytes@) == Some(regions.deep_view()),
            Err(e) => spec_decode_snapshot(bytes@) is None && e == SnapshotError::Malformed,
        },
{
    proof {
        assert(bytes@.skip(0) =~= bytes@);
    }
    let header = read_u64(bytes, 0);
    match header {
        None => Err(SnapshotError::Malformed),
        Some((count, body_start)) => {
            let mut out: Vec<CommentedCode> = Vec::new();
            let mut pos: usize = body_start;
            let mut k: u64 = 0;
            proof {
                assert(out.deep_view() =~= Seq::<RegionView>::empty());
                assert(match dec_region_list(bytes@.skip(pos as int), count as nat) {
                    Some(rs) => Seq::<RegionView>::empty() + rs =~= rs,
                    None => true,
                });
            }
            while k < count
                invariant
                    pos <= bytes@.len(),
                    k <= count,
                    spec_decode_snapshot(bytes@) == opt_prepend(
                        out.deep_view(),
                        dec_region_list(bytes@.skip(pos as int), (count - k) as nat),
                    ),
                decreases count - k,
            {
                let ghost rem = (count - k) as nat;
                let ghost dv = out.deep_view();
                match read_region(bytes, pos) {
                    None => {
                        proof {
                            assert(dec_region_list(bytes@.skip(pos as int), rem) is None);
                        }
                        return Err(SnapshotError::Malformed);
                    },
                    Some((c, p2)) => {
                        proof {
                            let tail = dec_region_list(bytes@.skip(p2 as int), (rem - 1) as nat);
                            assert(opt_prepend(dv, dec_region_list(bytes@.skip(pos as int), rem))
                                == opt_prepend(dv + seq![c@], tail)) by {
                                match tail {
                                    Some(rs) => {
                                        assert(dv + (seq![c@] + rs) =~= (dv + seq![c@]) + rs);
                                    },
                                    None => {},
                                }
                            }
                        }
                        out.push(c);
                        proof {
                            assert(out.deep_view() =~= dv + seq![out@[out@.len() - 1]@]);
                        }
                        pos = p2;
                    },
                }
                k = k + 1;
            }
            if pos == bytes.len() {
                proof {
                    assert(bytes@.skip(pos as int) =~= Seq::<u8>::empty());
                    assert(dec_region_list(bytes@.skip(pos as int), 0) == Some(
                        Seq::<RegionView>::empty(),
                    ));
                    assert(out.deep_view() + Seq::<RegionView>::empty() =~= out.deep_view());
                }
                Ok(out)
            } else {
                proof {
                    assert(bytes@.skip(pos as int).len() > 0);
                }
                Err(SnapshotError::Malformed)
            }
        },
    }
}

/// What brotli decompression yields on a byte string. Decompression is a pure
/// function of the input bytes, so its outcome carries a name that the
/// wrappers below share; `None` stands for a rejected input.
pub uninterp spec fn brotli_decompressed(bytes: Seq<u8>) -> Option<Seq<u8>>;

/// What brotli compression (quality 5, window 22, as the snapshot file format
/// uses) yields on a byte string. Compression too is a pure function of the
/// input bytes; `None` stands for a failed compression, which an in-memory
/// sink never produces but which the name leaves the compressor free to
/// report.
pub uninterp spec fn brotli_compressed(bytes: Seq<u8>) -> Option<Seq<u8>>;

/// Relies on brotli::CompressorWriter (quality 5, window 22, as the snapshot
/// file format uses): compression is deterministic, and the codec is
/// lossless, so decompressing its output yields back the bytes that were
/// written.
#[verifier::external_body]
fn brotli_compress(data: &Vec<u8>) -> (r: Option<Vec<u8>>)
    ensures
        match r {
            Some(v) => brotli_compressed(data@) == Some(v@) && brotli_decompressed(v@) == Some(
                data@,
            ),
            None => brotli_compressed(data@) is None,
        },
{
    let mut writer = brotli::CompressorWriter::new(Vec::new(), 4096, 5, 22);
    match std::io::Write::write_all(&mut writer, data.as_slice()) {
        Ok(()) => Some(writer.into_inner()),
        Err(_) => None,
    }
}

/// Relies on brotli::Decompressor: reading to the end yields the bytes of the
/// complete stream the input begins with (anything after that stream is
/// ignored), and fails where the input begins with no complete stream.
#[verifier::external_body]
fn brotli_decompress(data: &Vec<u8>) -> (r: Option<Vec<u8>>)
    ensures
        match r {
            Some(v) => brotli_decompressed(data@) == Some(v@),
            None => brotli_decompressed(data@) is None,
        },
{
    let mut decoder = brotli::Decompressor::new(data.as_slice(), 4096);
    let mut out = Vec::new();
    match std::io::Read::read_to_end(&mut decoder, &mut out) {
        Ok(_) => Some(out),
        Err(_) => None,
    }
}

/// Serializes a snapshot to its binary form and compresses it: the full
/// content of a snapshot file. The result is exactly the compression of the
/// binary encoding; on success, decompressing the returned bytes yields that
/// encoding back, and failure is allowed only where the compression codec
/// itself rejects the encoded bytes.
pub fn compress_snapshot(regions: &Vec<CommentedCode>) -> (r: Result<Vec<u8>, SnapshotError>)
    ensures
        match r {
            Ok(bytes) => brotli_compressed(spec_encode_snapshot(regions.deep_view())) == Some(
                bytes@,
            ) && brotli_decompressed(bytes@) == Some(spec_encode_snapshot(regions.deep_view()))
                && wf_snapshot(regions.deep_view()),
            Err(e) => e == SnapshotError::Compression && brotli_compressed(
                spec_encode_snapshot(regions.deep_view()),
            ) is None,
        },
{
    let plain = encode_snapshot(regions);
    match brotli_compress(&plain) {
        Some(v) => Ok(v),
        None => Err(SnapshotError::Compression),
    }
}

/// Decompresses a snapshot file's content and deserializes the result,
/// inverting both stages of `compress_snapshot` in reverse order. A failure
/// of the decompression codec and a malformed binary snapshot are reported as
/// distinct errors; neither is ever coerced to an empty snapshot.
pub fn decompress_snapshot(bytes: &Vec<u8>) -> (r: Result<Vec<CommentedCode>, SnapshotError>)
    ensures
        match r {
            Ok(regions) => brotli_decompressed(bytes@) matches Some(plain)
                && spec_decode_snapshot(plain) == Some(regions.deep_view()),
            Err(SnapshotError::Compression) => brotli_decompressed(bytes@) is None,
            Err(SnapshotError::Malformed) => brotli_decompressed(bytes@) matches Some(plain)
                && spec_decode_snapshot(plain) is None,
        },
{
    match brotli_decompress(bytes) {
        None => Err(SnapshotError::Compression),
        Some(plain) => match decode_snapshot(&plain) {
            Ok(regions) => Ok(regions),
            Err(_) => Err(SnapshotError::Malformed),
        },
    }
}

} // verus!
