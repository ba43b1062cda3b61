//! PNG chunk engine.
//!
//! Reads a PNG byte stream into chunks, writes chunks back with fresh
//! CRCs, and injects, replaces or removes `tEXt`/`iTXt`/`zTXt` chunks
//! carrying embedded character cards — while preserving every other
//! chunk, in particular the image data (`IDAT`), byte for byte.

use vstd::prelude::*;
use crate::error::ArcaferryError;

verus! {

// ---------------------------------------------------------------------------
// Model
// ---------------------------------------------------------------------------

/// The model of a chunk: its four type bytes and its data bytes.
pub type ChunkView = (Seq<u8>, Seq<u8>);

/// A PNG chunk: type and data.
#[derive(Debug, Clone)]
pub struct PngChunk {
    pub chunk_type: [u8; 4],
    pub data: Vec<u8>,
}

impl View for PngChunk {
    type V = ChunkView;

    open spec fn view(&self) -> ChunkView {
        (self.chunk_type@, self.data@)
    }
}

/// The models of a chunk list.
pub open spec fn chunk_views(chunks: Seq<PngChunk>) -> Seq<ChunkView> {
    chunks.map_values(|c: PngChunk| c@)
}

/// The eight PNG signature bytes.
pub open spec fn png_sig() -> Seq<u8> {
    seq![0x89u8, 0x50u8, 0x4eu8, 0x47u8, 0x0du8, 0x0au8, 0x1au8, 0x0au8]
}

pub open spec fn iend_type() -> Seq<u8> {
    seq![0x49u8, 0x45u8, 0x4eu8, 0x44u8]
}

pub open spec fn idat_type() -> Seq<u8> {
    seq![0x49u8, 0x44u8, 0x41u8, 0x54u8]
}

pub open spec fn text_type() -> Seq<u8> {
    seq![0x74u8, 0x45u8, 0x58u8, 0x74u8]
}

pub open spec fn itxt_type() -> Seq<u8> {
    seq![0x69u8, 0x54u8, 0x58u8, 0x74u8]
}

pub open spec fn ztxt_type() -> Seq<u8> {
    seq![0x7au8, 0x54u8, 0x58u8, 0x74u8]
}

/// The value of four big-endian bytes.
pub open spec fn be32(b0: u8, b1: u8, b2: u8, b3: u8) -> int {
    b0 * 0x1000000 + b1 * 0x10000 + b2 * 0x100 + b3
}

/// The four big-endian bytes of a value below 2^32.
pub open spec fn u32_be(x: int) -> Seq<u8> {
    seq![
        (x / 0x1000000) as u8,
        ((x / 0x10000) % 0x100) as u8,
        ((x / 0x100) % 0x100) as u8,
        (x % 0x100) as u8,
    ]
}

/// Whether the stream begins with the PNG signature.
pub open spec fn sig_ok(data: Seq<u8>) -> bool {
    data.len() >= 8 && data.subrange(0, 8) =~= png_sig()
}

/// Parses chunks from `pos` on: `(length, type, data, crc)` records up
/// to and including the first `IEND`; a header that does not fit ends
/// the stream; a body that does not fit is an error (`None`).
pub open spec fn parse_chunks_at(data: Seq<u8>, pos: int) -> Option<Seq<ChunkView>>
    recommends
        0 <= pos <= data.len(),
    decreases data.len() - pos,
    when 0 <= pos <= data.len()
{
    if pos + 8 > data.len() {
        Some(Seq::empty())
    } else {
        let len = be32(data[pos], data[pos + 1], data[pos + 2], data[pos + 3]);
        let ctype = data.subrange(pos + 4, pos + 8);
        if pos + 8 + len + 4 > data.len() {
            None
        } else {
            let cdata = data.subrange(pos + 8, pos + 8 + len);
            if ctype =~= iend_type() {
                Some(seq![(ctype, cdata)])
            } else {
                match parse_chunks_at(data, pos + 12 + len) {
                    Some(rest) => Some(seq![(ctype, cdata)] + rest),
                    None => None,
                }
            }
        }
    }
}

/// The chunks of a PNG byte stream, or `None` when it is malformed.
pub open spec fn png_parse(data: Seq<u8>) -> Option<Seq<ChunkView>> {
    if sig_ok(data) {
        parse_chunks_at(data, 8)
    } else {
        None
    }
}

/// The CRC-32 (IEEE, as PNG uses it) of a byte sequence; what
/// `calculate_crc` returns on it.
pub uninterp spec fn crc32_of(bytes: Seq<u8>) -> u32;

/// The serialized bytes of one chunk, with a fresh CRC.
pub open spec fn chunk_ser(c: ChunkView) -> Seq<u8> {
    u32_be(c.1.len() as int) + c.0 + c.1 + u32_be(crc32_of(c.0 + c.1) as int)
}

/// The serialized bytes of a chunk list.
pub open spec fn chunks_ser(chunks: Seq<ChunkView>) -> Seq<u8>
    decreases chunks.len(),
{
    if chunks.len() == 0 {
        Seq::empty()
    } else {
        chunk_ser(chunks[0]) + chunks_ser(chunks.drop_first())
    }
}

/// The serialized bytes of a whole PNG.
pub open spec fn png_ser(chunks: Seq<ChunkView>) -> Seq<u8> {
    png_sig() + chunks_ser(chunks)
}

/// A chunk that can be serialized and parsed back: a four-byte type
/// and a body below 2^32 bytes.
pub open spec fn chunk_wf(c: ChunkView) -> bool {
    c.0.len() == 4 && c.1.len() < 0x100000000
}

/// A chunk list in which `IEND` appears at most as the last chunk.
pub open spec fn chunks_wf(chunks: Seq<ChunkView>) -> bool {
    &&& forall|i: int| 0 <= i < chunks.len() ==> chunk_wf(#[trigger] chunks[i])
    &&& forall|i: int| 0 <= i < chunks.len() - 1 ==> !(#[trigger] chunks[i].0 =~= iend_type())
}

/// Serialization inverts parsing: a well-formed chunk list written by
/// `png_ser` parses back to itself.
pub proof fn lemma_parse_ser(chunks: Seq<ChunkView>)
    requires
        chunks_wf(chunks),
    ensures
        png_parse(png_ser(chunks)) == Some(chunks),
{
    let data = png_ser(chunks);
    assert(data.subrange(0, 8) =~= png_sig());
    assert(data.len() >= 8);
    assert(data.subrange(8, data.len() as int) =~= chunks_ser(chunks));
    lemma_parse_ser_at(data, 8, chunks);
}

proof fn lemma_parse_ser_at(data: Seq<u8>, pos: int, chunks: Seq<ChunkView>)
    requires
        0 <= pos <= data.len(),
        data.subrange(pos, data.len() as int) =~= chunks_ser(chunks),
        chunks_wf(chunks),
    ensures
        parse_chunks_at(data, pos) == Some(chunks),
    decreases chunks.len(),
{
    let tail = data.subrange(pos, data.len() as int);
    if chunks.len() == 0 {
        assert(tail.len() == 0);
        assert(parse_chunks_at(data, pos) == Some(Seq::<ChunkView>::empty()));
        assert(Some(Seq::<ChunkView>::empty()) == Some(chunks));
    } else {
        let c = chunks[0];
        let rest = chunks.drop_first();
        let n = c.1.len() as int;
        let cs = chunk_ser(c);
        assert(cs.len() == 12 + n);
        assert(tail =~= cs + chunks_ser(rest));
        assert(data.len() - pos == tail.len());
        assert(tail.len() >= 12 + n);
        // the four length bytes
        assert(data[pos] == cs[0] && data[pos + 1] == cs[1] && data[pos + 2] == cs[2] && data[pos
            + 3] == cs[3]) by {
            assert(tail[0] == data[pos]);
            assert(tail[1] == data[pos + 1]);
            assert(tail[2] == data[pos + 2]);
            assert(tail[3] == data[pos + 3]);
        }
        assert(cs[0] == u32_be(n)[0] && cs[1] == u32_be(n)[1] && cs[2] == u32_be(n)[2] && cs[3]
            == u32_be(n)[3]);
        lemma_u32_be_values(n);
        let len = be32(data[pos], data[pos + 1], data[pos + 2], data[pos + 3]);
        assert(len == n) by {
            lemma_be32_of_u32_be(n);
        }
        assert(pos + 8 <= data.len());
        let ctype = data.subrange(pos + 4, pos + 8);
        assert(ctype =~= c.0) by {
            assert forall|k: int| 0 <= k < 4 implies ctype[k] == c.0[k] by {
                assert(ctype[k] == tail[4 + k]);
                assert(tail[4 + k] == cs[4 + k]);
                assert(cs[4 + k] == c.0[k]);
            }
        }
        assert(pos + 8 + len + 4 <= data.len());
        let cdata = data.subrange(pos + 8, pos + 8 + len);
        assert(cdata =~= c.1) by {
            assert forall|k: int| 0 <= k < n implies cdata[k] == c.1[k] by {
                assert(cdata[k] == tail[8 + k]);
                assert(tail[8 + k] == cs[8 + k]);
                assert(cs[8 + k] == c.1[k]);
            }
        }
        if ctype =~= iend_type() {
            assert(chunks.len() == 1) by {
                if chunks.len() > 1 {
                    assert(!(chunks[0].0 =~= iend_type()));
                }
            }
            assert(seq![(ctype, cdata)] =~= chunks);
        } else {
            assert(!(c.0 =~= iend_type()));
            let pos2 = pos + 12 + len;
            assert(chunks_wf(rest)) by {
                assert(forall|i: int|
                    0 <= i < rest.len() ==> #[trigger] rest[i] == chunks[i + 1]);
            }
            assert(data.subrange(pos2, data.len() as int) =~= chunks_ser(rest)) by {
                assert forall|k: int|
                    0 <= k < data.len() - pos2 implies data.subrange(pos2, data.len() as int)[k]
                    == chunks_ser(rest)[k] by {
                    assert(data.subrange(pos2, data.len() as int)[k] == tail[12 + n + k]);
                    assert(tail[12 + n + k] == (cs + chunks_ser(rest))[12 + n + k]);
                }
            }
            lemma_parse_ser_at(data, pos2, rest);
            assert(parse_chunks_at(data, pos) == Some(seq![(ctype, cdata)] + rest));
            assert(seq![(ctype, cdata)] + rest =~= chunks);
        }
    }
}

proof fn lemma_u32_be_values(n: int)
    requires
        0 <= n < 0x100000000,
    ensures
        0 <= u32_be(n)[0] < 256,
        0 <= u32_be(n)[1] < 256,
        0 <= u32_be(n)[2] < 256,
        0 <= u32_be(n)[3] < 256,
{
    assert(0 <= n / 0x1000000 < 256) by (nonlinear_arith)
        requires
            0 <= n < 0x100000000,
    ;
}

proof fn lemma_be32_of_u32_be(n: int)
    requires
        0 <= n < 0x100000000,
    ensures
        be32(
            (n / 0x1000000) as u8,
            ((n / 0x10000) % 0x100) as u8,
            ((n / 0x100) % 0x100) as u8,
            (n % 0x100) as u8,
        ) == n,
{
    assert((n / 0x1000000) * 0x1000000 + ((n / 0x10000) % 0x100) * 0x10000 + ((n / 0x100) % 0x100)
        * 0x100 + n % 0x100 == n) by (nonlinear_arith)
        requires
            0 <= n < 0x100000000,
    ;
    assert(0 <= n / 0x1000000 < 256) by (nonlinear_arith)
        requires
            0 <= n < 0x100000000,
    ;
}

/// The parser yields a well-formed chunk list.
pub proof fn lemma_parse_wf(data: Seq<u8>, pos: int)
    requires
        0 <= pos <= data.len(),
        parse_chunks_at(data, pos) is Some,
    ensures
        chunks_wf(parse_chunks_at(data, pos).unwrap()),
    decreases data.len() - pos,
{
    let chunks = parse_chunks_at(data, pos).unwrap();
    if pos + 8 > data.len() {
    } else {
        let len = be32(data[pos], data[pos + 1], data[pos + 2], data[pos + 3]);
        let ctype = data.subrange(pos + 4, pos + 8);
        if pos + 8 + len + 4 > data.len() {
        } else if ctype =~= iend_type() {
        } else {
            lemma_parse_wf(data, pos + 12 + len);
            let rest = parse_chunks_at(data, pos + 12 + len).unwrap();
            assert(forall|i: int| 1 <= i < chunks.len() ==> #[trigger] chunks[i] == rest[i - 1]);
            assert(chunk_wf(chunks[0]));
        }
    }
}

// ---------------------------------------------------------------------------
// Trusted CRC
// ---------------------------------------------------------------------------

/// Relies on `crc32fast::Hasher`: the CRC-32 (IEEE) of the bytes fed
/// in, a function of those bytes alone.
#[verifier::external_body]
fn calculate_crc(chunk_type: &[u8], data: &[u8]) -> (r: u32)
    ensures
        r == crc32_of(chunk_type@ + data@),
{
    let mut hasher = crc32fast::Hasher::new();
    hasher.update(chunk_type);
    hasher.update(data);
    hasher.finalize()
}

// ---------------------------------------------------------------------------
// Reading and writing
// ---------------------------------------------------------------------------

impl PngChunk {
    /// A chunk with the given type and data.
    pub fn new(chunk_type: &[u8; 4], data: Vec<u8>) -> (r: Self)
        ensures
            r@ == (chunk_type@, data@),
    {
        PngChunk { chunk_type: *chunk_type, data }
    }
}

fn is_type(chunk_type: &[u8; 4], t0: u8, t1: u8, t2: u8, t3: u8) -> (r: bool)
    ensures
        r == (chunk_type@ =~= seq![t0, t1, t2, t3]),
{
    let r = chunk_type[0] == t0 && chunk_type[1] == t1 && chunk_type[2] == t2 && chunk_type[3]
        == t3;
    proof {
        if r {
            assert(chunk_type@ =~= seq![t0, t1, t2, t3]);
        }
    }
    r
}

/// Reads all chunks of a PNG stream, stopping at the first `IEND` and
/// ignoring anything after it.  Fails on a missing signature or a
/// chunk whose body runs past the end of the data.
pub fn read_chunks(data: &[u8]) -> (r: Result<Vec<PngChunk>, ArcaferryError>)
    ensures
        match r {
            Ok(chunks) => sig_ok(data@) && parse_chunks_at(data@, 8) == Some(
                chunk_views(chunks@),
            ),
            Err(e) => {
                &&& png_parse(data@) is None
                &&& e is InvalidPngSignature <==> !sig_ok(data@)
                &&& sig_ok(data@) ==> e is PngChunkError
            },
        },
        r is Ok <==> png_parse(data@) is Some,
{
    let n = data.len();
    if n < 8 || data[0] != 0x89 || data[1] != 0x50 || data[2] != 0x4e || data[3] != 0x47 || data[4]
        != 0x0d || data[5] != 0x0a || data[6] != 0x1a || data[7] != 0x0a {
        proof {
            if data@.len() >= 8 && data@.subrange(0, 8) =~= png_sig() {
                assert(data@[0] == 0x89 && data@[1] == 0x50 && data@[2] == 0x4e && data@[3] == 0x47
                    && data@[4] == 0x0d && data@[5] == 0x0a && data@[6] == 0x1a && data@[7]
                    == 0x0a) by {
                    assert forall|k: int| 0 <= k < 8 implies data@[k] == png_sig()[k] by {
                        assert(data@.subrange(0, 8)[k] == data@[k]);
                    }
                }
            }
        }
        return Err(ArcaferryError::InvalidPngSignature);
    }
    proof {
        assert(data@.subrange(0, 8) =~= png_sig());
    }
    let mut chunks: Vec<PngChunk> = Vec::new();
    let mut pos: usize = 8;
    loop
        invariant_except_break
            8 <= pos <= n,
            n == data@.len(),
            sig_ok(data@),
            match parse_chunks_at(data@, pos as int) {
                Some(rest) => parse_chunks_at(data@, 8) == Some(chunk_views(chunks@) + rest),
                None => parse_chunks_at(data@, 8) is None,
            },
        ensures
            parse_chunks_at(data@, 8) == Some(chunk_views(chunks@)),
        decreases n - pos,
    {
        if n - pos < 8 {
            proof {
                assert(pos + 8 > data@.len());
                assert(parse_chunks_at(data@, pos as int) == Some(Seq::<ChunkView>::empty()));
                assert(chunk_views(chunks@) + Seq::<ChunkView>::empty() =~= chunk_views(chunks@));
            }
            break;
        }
        let length: u32 = (data[pos] as u32) * 0x1000000 + (data[pos + 1] as u32) * 0x10000 + (
        data[pos + 2] as u32) * 0x100 + (data[pos + 3] as u32);
        let ctype: [u8; 4] = [data[pos + 4], data[pos + 5], data[pos + 6], data[pos + 7]];
        let ghost len_spec = be32(data@[pos as int], data@[pos + 1], data@[pos + 2], data@[pos + 3]);
        proof {
            assert(length == len_spec);
            assert(ctype@ =~= data@.subrange(pos + 4, pos + 8));
        }
        let body_start = pos + 8;
        if (length as u64) + 4 > (n - body_start) as u64 {
            proof {
                assert(pos + 8 + len_spec + 4 > data@.len());
                assert(parse_chunks_at(data@, pos as int) is None);
            }
            return Err(ArcaferryError::PngChunkError(String::from_str("Truncated chunk")));
        }
        let length_us = length as usize;
        let body = vstd::slice::slice_subrange(data, body_start, body_start + length_us);
        let chunk_data = vstd::slice::slice_to_vec(body);
        proof {
            assert(chunk_data@ =~= data@.subrange(pos + 8, pos + 8 + len_spec));
        }
        let is_iend = is_type(&ctype, 0x49, 0x45, 0x4e, 0x44);
        let ghost old_views = chunk_views(chunks@);
        chunks.push(PngChunk { chunk_type: ctype, data: chunk_data });
        proof {
            assert(chunk_views(chunks@) =~= old_views + seq![
                (
                    data@.subrange(pos + 4, pos + 8),
                    data@.subrange(pos + 8, pos + 8 + len_spec),
                ),
            ]);
        }
        if is_iend {
            proof {
                assert(parse_chunks_at(data@, pos as int) == Some(
                    seq![
                        (
                            data@.subrange(pos + 4, pos + 8),
                            data@.subrange(pos + 8, pos + 8 + len_spec),
                        ),
                    ],
                ));
                assert(old_views + seq![
                    (
                        data@.subrange(pos + 4, pos + 8),
                        data@.subrange(pos + 8, pos + 8 + len_spec),
                    ),
                ] =~= chunk_views(chunks@));
            }
            break;
        }
        proof {
            assert(!(data@.subrange(pos + 4, pos + 8) =~= iend_type()));
        }
        pos = body_start + length_us + 4;
        proof {
            match parse_chunks_at(data@, pos as int) {
                Some(rest) => {
                    assert(parse_chunks_at(data@, pos - 12 - len_spec) == Some(
                        seq![
                            (
                                data@.subrange(pos - 8 - len_spec, pos - 4 - len_spec),
                                data@.subrange(pos - 4 - len_spec, pos - 4),
                            ),
                        ] + rest,
                    ));
                    assert(chunk_views(chunks@) + rest =~= old_views + (seq![
                        (
                            data@.subrange(pos - 8 - len_spec, pos - 4 - len_spec),
                            data@.subrange(pos - 4 - len_spec, pos - 4),
                        ),
                    ] + rest));
                },
                None => {},
            }
        }
    }
    Ok(chunks)
}

/// Appends the four big-endian bytes of `x`.
fn push_be32(out: &mut Vec<u8>, x: u32)
    ensures
        final(out)@ == old(out)@ + u32_be(x as int),
{
    proof {
        assert(0 <= (x as int) / 0x1000000 < 256) by (nonlinear_arith)
            requires
                0 <= x <= 0xffffffffu32,
        ;
    }
    let b0: u8 = (x / 0x1000000) as u8;
    let b1: u8 = ((x / 0x10000) % 0x100) as u8;
    let b2: u8 = ((x / 0x100) % 0x100) as u8;
    let b3: u8 = (x % 0x100) as u8;
    out.push(b0);
    out.push(b1);
    out.push(b2);
    out.push(b3);
    proof {
        assert(final(out)@ =~= old(out)@ + u32_be(x as int));
    }
}

/// Writes the PNG signature and every chunk, computing each CRC afresh.
pub fn build_png(chunks: &[PngChunk]) -> (r: Vec<u8>)
    requires
        forall|i: int| 0 <= i < chunks@.len() ==> chunk_wf(#[trigger] chunk_views(chunks@)[i]),
    ensures
        r@ == png_ser(chunk_views(chunks@)),
{
    let mut out: Vec<u8> = Vec::new();
    out.push(0x89);
    out.push(0x50);
    out.push(0x4e);
    out.push(0x47);
    out.push(0x0d);
    out.push(0x0a);
    out.push(0x1a);
    out.push(0x0a);
    proof {
        assert(out@ =~= png_sig());
    }
    let ghost views = chunk_views(chunks@);
    let n = chunks.len();
    let mut i: usize = 0;
    while i < n
        invariant
            n == chunks@.len(),
            i <= n,
            views == chunk_views(chunks@),
            forall|k: int| 0 <= k < n ==> chunk_wf(#[trigger] views[k]),
            out@ =~= png_sig() + chunks_ser(views.take(i as int)),
        decreases n - i,
    {
        let c = vstd::slice::slice_index_get(chunks, i);
        let ghost pre = out@;
        proof {
            assert(views[i as int] == chunks@[i as int]@);
            assert(c@.1.len() < 0x100000000);
        }
        let len32: u32 = c.data.len() as u32;
        push_be32(&mut out, len32);
        out.push(c.chunk_type[0]);
        out.push(c.chunk_type[1]);
        out.push(c.chunk_type[2]);
        out.push(c.chunk_type[3]);
        let mut j: usize = 0;
        let m = c.data.len();
        let ghost mid = out@;
        while j < m
            invariant
                m == c.data@.len(),
                j <= m,
                out@ =~= mid + c.data@.take(j as int),
            decreases m - j,
        {
            out.push(c.data[j]);
            j = j + 1;
        }
        proof {
            assert(c.data@.take(m as int) =~= c.data@);
        }
        let crc = calculate_crc(c.chunk_type.as_slice(), c.data.as_slice());
        push_be32(&mut out, crc);
        proof {
            assert(c.chunk_type@ + c.data@ == c@.0 + c@.1);
            assert(out@ =~= pre + chunk_ser(views[i as int])) by {
                assert(chunk_ser(views[i as int]) == u32_be(c@.1.len() as int) + c@.0 + c@.1
                    + u32_be(crc32_of(c@.0 + c@.1) as int));
                assert(out@ =~= pre + (u32_be(len32 as int) + seq![
                    c.chunk_type@[0],
                    c.chunk_type@[1],
                    c.chunk_type@[2],
                    c.chunk_type@[3],
                ] + c.data@ + u32_be(crc as int)));
                assert(seq![
                    c.chunk_type@[0],
                    c.chunk_type@[1],
                    c.chunk_type@[2],
                    c.chunk_type@[3],
                ] =~= c.chunk_type@);
            }
        }
        i = i + 1;
        proof {
            lemma_chunks_ser_take(views, i as int);
        }
    }
    proof {
        assert(views.take(n as int) =~= views);
    }
    out
}

// ---------------------------------------------------------------------------
// Text chunk decoding
// ---------------------------------------------------------------------------

/// The first index at which `b` occurs in `d`, if any.
pub open spec fn find_byte(d: Seq<u8>, b: u8) -> Option<int>
    decreases d.len(),
{
    if d.len() == 0 {
        None
    } else if d[0] == b {
        Some(0int)
    } else {
        match find_byte(d.drop_first(), b) {
            Some(i) => Some(i + 1),
            None => None,
        }
    }
}

/// `find_byte` finds the first occurrence.
pub proof fn lemma_find_byte(d: Seq<u8>, b: u8)
    ensures
        match find_byte(d, b) {
            Some(i) => 0 <= i < d.len() && d[i] == b && forall|k: int| 0 <= k < i ==> d[k] != b,
            None => forall|k: int| 0 <= k < d.len() ==> d[k] != b,
        },
    decreases d.len(),
{
    if d.len() > 0 && d[0] != b {
        lemma_find_byte(d.drop_first(), b);
        assert(forall|k: int| 1 <= k < d.len() ==> d.drop_first()[k - 1] == d[k]);
        match find_byte(d.drop_first(), b) {
            Some(i) => {
                assert(d[i + 1] == d.drop_first()[i]);
            },
            None => {},
        }
    }
}

/// Characterization: a first occurrence pins `find_byte` down.
pub proof fn lemma_find_byte_at(d: Seq<u8>, b: u8, i: int)
    requires
        0 <= i < d.len(),
        d[i] == b,
        forall|k: int| 0 <= k < i ==> d[k] != b,
    ensures
        find_byte(d, b) == Some(i),
{
    lemma_find_byte(d, b);
    match find_byte(d, b) {
        Some(j) => {
            if j < i {
                assert(d[j] != b);
            }
            if j > i {
                assert(d[i] != b);
            }
        },
        None => {
            assert(d[i] != b);
        },
    }
}

/// Finds the first occurrence of `b` in the slice.
fn index_of_byte(d: &[u8], b: u8) -> (r: Option<usize>)
    ensures
        match r {
            Some(i) => find_byte(d@, b) == Some(i as int),
            None => find_byte(d@, b) is None,
        },
{
    let n = d.len();
    let mut i: usize = 0;
    while i < n
        invariant
            n == d@.len(),
            i <= n,
            forall|k: int| 0 <= k < i ==> d@[k] != b,
        decreases n - i,
    {
        if d[i] == b {
            proof {
                lemma_find_byte_at(d@, b, i as int);
            }
            return Some(i);
        }
        i = i + 1;
    }
    proof {
        lemma_find_byte(d@, b);
        match find_byte(d@, b) {
            Some(j) => {
                assert(d@[j] != b);
            },
            None => {},
        }
    }
    None
}

// ---------------------------------------------------------------------------
// Base64 (standard alphabet, '=' padding)
// ---------------------------------------------------------------------------

/// The standard base64 alphabet character for a 6-bit value.
pub open spec fn b64_char(v: int) -> u8
    recommends
        0 <= v < 64,
{
    if v < 26 {
        (65 + v) as u8  // 'A'..'Z'
    } else if v < 52 {
        (71 + v) as u8  // 'a'..'z'
    } else if v < 62 {
        (v - 4) as u8  // '0'..'9'
    } else if v == 62 {
        43u8  // '+'
    } else {
        47u8  // '/'
    }
}

/// Standard base64 with padding: each three bytes become four alphabet
/// characters; a final group of one or two bytes is padded with '='.
pub open spec fn b64_encode_spec(b: Seq<u8>) -> Seq<u8>
    decreases b.len(),
{
    if b.len() == 0 {
        Seq::empty()
    } else if b.len() == 1 {
        let b0 = b[0] as int;
        seq![b64_char(b0 / 4), b64_char((b0 % 4) * 16), 61u8, 61u8]
    } else if b.len() == 2 {
        let b0 = b[0] as int;
        let b1 = b[1] as int;
        seq![b64_char(b0 / 4), b64_char((b0 % 4) * 16 + b1 / 16), b64_char((b1 % 16) * 4), 61u8]
    } else {
        let b0 = b[0] as int;
        let b1 = b[1] as int;
        let b2 = b[2] as int;
        seq![
            b64_char(b0 / 4),
            b64_char((b0 % 4) * 16 + b1 / 16),
            b64_char((b1 % 16) * 4 + b2 / 64),
            b64_char(b2 % 64),
        ] + b64_encode_spec(b.skip(3))
    }
}

proof fn lemma_b64_char_nonzero(v: int)
    requires
        0 <= v < 64,
    ensures
        b64_char(v) != 0u8,
{
}

/// Base64 output never contains a zero byte.
pub proof fn lemma_b64_no_null(b: Seq<u8>)
    ensures
        forall|i: int| 0 <= i < b64_encode_spec(b).len() ==> b64_encode_spec(b)[i] != 0u8,
    decreases b.len(),
{
    let enc = b64_encode_spec(b);
    if b.len() == 0 {
    } else if b.len() == 1 {
        let b0 = b[0] as int;
        lemma_b64_char_nonzero(b0 / 4);
        lemma_b64_char_nonzero((b0 % 4) * 16);
        assert forall|i: int| 0 <= i < enc.len() implies enc[i] != 0u8 by {
            assert(enc[0] == b64_char(b0 / 4));
            assert(enc[1] == b64_char((b0 % 4) * 16));
            assert(enc[2] == 61u8);
            assert(enc[3] == 61u8);
        }
    } else if b.len() == 2 {
        let b0 = b[0] as int;
        let b1 = b[1] as int;
        lemma_b64_char_nonzero(b0 / 4);
        lemma_b64_char_nonzero((b0 % 4) * 16 + b1 / 16);
        lemma_b64_char_nonzero((b1 % 16) * 4);
        assert forall|i: int| 0 <= i < enc.len() implies enc[i] != 0u8 by {
            assert(enc[0] == b64_char(b0 / 4));
            assert(enc[1] == b64_char((b0 % 4) * 16 + b1 / 16));
            assert(enc[2] == b64_char((b1 % 16) * 4));
            assert(enc[3] == 61u8);
        }
    } else {
        let b0 = b[0] as int;
        let b1 = b[1] as int;
        let b2 = b[2] as int;
        lemma_b64_char_nonzero(b0 / 4);
        lemma_b64_char_nonzero((b0 % 4) * 16 + b1 / 16);
        lemma_b64_char_nonzero((b1 % 16) * 4 + b2 / 64);
        lemma_b64_char_nonzero(b2 % 64);
        lemma_b64_no_null(b.skip(3));
        let head = seq![
            b64_char(b0 / 4),
            b64_char((b0 % 4) * 16 + b1 / 16),
            b64_char((b1 % 16) * 4 + b2 / 64),
            b64_char(b2 % 64),
        ];
        assert forall|i: int| 0 <= i < enc.len() implies enc[i] != 0u8 by {
            if i < 4 {
                assert(enc[i] == head[i]);
            } else {
                assert(enc[i] == b64_encode_spec(b.skip(3))[i - 4]);
            }
        }
    }
}

/// What base64's strict decoder returns on a byte sequence; what
/// `b64_decode` returns on it.
pub uninterp spec fn b64_decode_spec(s: Seq<u8>) -> Option<Seq<u8>>;

/// Relies on base64's `STANDARD` engine (RFC 4648 alphabet with '='
/// padding): encodes the bytes as `b64_encode_spec` states, and the
/// engine's own decoder inverts it.
#[verifier::external_body]
fn b64_encode(b: &[u8]) -> (r: Vec<u8>)
    ensures
        r@ == b64_encode_spec(b@),
        b64_decode_spec(r@) == Some(b@),
{
    <base64::engine::general_purpose::GeneralPurpose as base64::Engine>::encode(
        &base64::engine::general_purpose::STANDARD,
        b,
    ).into_bytes()
}

/// Relies on base64's `STANDARD` engine: strict decoding, a function
/// of the input bytes alone.
#[verifier::external_body]
pub(crate) fn b64_decode(b: &[u8]) -> (r: Option<Vec<u8>>)
    ensures
        match r {
            Some(v) => b64_decode_spec(b@) == Some(v@),
            None => b64_decode_spec(b@) is None,
        },
{
    <base64::engine::general_purpose::GeneralPurpose as base64::Engine>::decode(
        &base64::engine::general_purpose::STANDARD,
        b,
    ).ok()
}

// ---------------------------------------------------------------------------
// UTF-8 and zlib
// ---------------------------------------------------------------------------

/// What `String::from_utf8_lossy` returns on bytes that are not valid
/// UTF-8 (invalid sections become replacement characters).
pub uninterp spec fn lossy_invalid_utf8_of(b: Seq<u8>) -> Seq<char>;

/// What `String::from_utf8_lossy` returns: on valid UTF-8 exactly the
/// decoded characters, otherwise a function of the bytes alone.
pub open spec fn lossy_utf8_of(b: Seq<u8>) -> Seq<char> {
    if vstd::utf8::valid_utf8(b) {
        vstd::utf8::decode_utf8(b)
    } else {
        lossy_invalid_utf8_of(b)
    }
}

/// Relies on `String::from_utf8_lossy`: a function of the bytes alone,
/// the exact decoding on valid UTF-8.
#[verifier::external_body]
fn bytes_to_string_lossy(b: &[u8]) -> (r: String)
    ensures
        r@ == lossy_utf8_of(b@),
        !vstd::utf8::valid_utf8(b@) ==> r@ == lossy_invalid_utf8_of(b@),
{
    String::from_utf8_lossy(b).to_string()
}

/// What zlib decompression returns on a byte sequence; what
/// `zlib_decompress` returns on it.
pub uninterp spec fn zlib_inflate_of(b: Seq<u8>) -> Option<Seq<u8>>;

/// Relies on `flate2::read::ZlibDecoder`: zlib decompression, a
/// function of the compressed bytes alone.
#[verifier::external_body]
pub(crate) fn zlib_decompress(b: &[u8]) -> (r: Option<Vec<u8>>)
    ensures
        match r {
            Some(v) => zlib_inflate_of(b@) == Some(v@),
            None => zlib_inflate_of(b@) is None,
        },
{
    let mut decoder = flate2::read::ZlibDecoder::new(b);
    let mut out = Vec::new();
    match std::io::Read::read_to_end(&mut decoder, &mut out) {
        Ok(_) => Some(out),
        Err(_) => None,
    }
}

/// Relies on `flate2::write::ZlibEncoder` (writing into a `Vec`, which
/// cannot fail): compresses so that zlib decompression returns the
/// input bytes.
#[verifier::external_body]
pub(crate) fn zlib_compress(b: &[u8]) -> (r: Vec<u8>)
    ensures
        zlib_inflate_of(r@) == Some(b@),
{
    let mut encoder = flate2::write::ZlibEncoder::new(Vec::new(), flate2::Compression::new(6));
    let _ = std::io::Write::write_all(&mut encoder, b);
    encoder.finish().unwrap_or_default()
}

// ---------------------------------------------------------------------------
// Decoding specifications
// ---------------------------------------------------------------------------

/// Decoding a `tEXt` body: keyword before the first null; the payload
/// is tried as base64 first, then taken as raw text.
pub open spec fn text_chunk_decode(d: Seq<u8>) -> Option<(Seq<char>, Seq<char>)> {
    match find_byte(d, 0) {
        Some(i) => {
            let kw = lossy_utf8_of(d.take(i));
            let payload = d.skip(i + 1);
            let text = match b64_decode_spec(payload) {
                Some(raw) => lossy_utf8_of(raw),
                None => lossy_utf8_of(payload),
            };
            Some((kw, text))
        },
        None => None,
    }
}

/// Decoding an `iTXt` body: keyword, two flag bytes, null-terminated
/// language tag and translated keyword, then the text, zlib-compressed
/// when the compression flag is 1.
pub open spec fn itxt_chunk_decode(d: Seq<u8>) -> Option<(Seq<char>, Seq<char>)> {
    match find_byte(d, 0) {
        Some(i) => {
            let kw = lossy_utf8_of(d.take(i));
            let rest = d.skip(i + 1);
            if rest.len() < 2 {
                None
            } else {
                let flag = rest[0];
                let rest2 = rest.skip(2);
                match find_byte(rest2, 0) {
                    Some(l) => {
                        let rest3 = rest2.skip(l + 1);
                        match find_byte(rest3, 0) {
                            Some(t) => {
                                let text_data = rest3.skip(t + 1);
                                if flag == 1 {
                                    match zlib_inflate_of(text_data) {
                                        Some(raw) => Some((kw, lossy_utf8_of(raw))),
                                        None => None,
                                    }
                                } else {
                                    Some((kw, lossy_utf8_of(text_data)))
                                }
                            },
                            None => None,
                        }
                    },
                    None => None,
                }
            }
        },
        None => None,
    }
}

/// Decoding a `zTXt` body: keyword, a compression-method byte, then a
/// zlib-compressed payload.
pub open spec fn ztxt_chunk_decode(d: Seq<u8>) -> Option<(Seq<char>, Seq<char>)> {
    match find_byte(d, 0) {
        Some(i) => {
            if i + 1 >= d.len() {
                None
            } else {
                let kw = lossy_utf8_of(d.take(i));
                match zlib_inflate_of(d.skip(i + 2)) {
                    Some(raw) => Some((kw, lossy_utf8_of(raw))),
                    None => None,
                }
            }
        },
        None => None,
    }
}

/// The keyword/text pair a chunk decodes to, for the three text chunk
/// types; `None` for every other chunk.
pub open spec fn chunk_text_decode(c: ChunkView) -> Option<(Seq<char>, Seq<char>)> {
    if c.0 =~= text_type() {
        text_chunk_decode(c.1)
    } else if c.0 =~= itxt_type() {
        itxt_chunk_decode(c.1)
    } else if c.0 =~= ztxt_type() {
        ztxt_chunk_decode(c.1)
    } else {
        None
    }
}

/// All decoded keyword/text pairs of a chunk list, in chunk order.
pub open spec fn text_pairs(chunks: Seq<ChunkView>) -> Seq<(Seq<char>, Seq<char>)>
    decreases chunks.len(),
{
    if chunks.len() == 0 {
        Seq::empty()
    } else {
        let rest = text_pairs(chunks.drop_first());
        match chunk_text_decode(chunks[0]) {
            Some(p) => seq![p] + rest,
            None => rest,
        }
    }
}

/// The text of the last pair with the given keyword — what a map
/// keyed by keyword, filled in order, would hold.
pub open spec fn pairs_lookup(pairs: Seq<(Seq<char>, Seq<char>)>, kw: Seq<char>) -> Option<
    Seq<char>,
>
    decreases pairs.len(),
{
    if pairs.len() == 0 {
        None
    } else if pairs.last().0 == kw {
        Some(pairs.last().1)
    } else {
        pairs_lookup(pairs.drop_last(), kw)
    }
}

// ---------------------------------------------------------------------------
// Exec decoding
// ---------------------------------------------------------------------------

fn decode_text_chunk(chunk_data: &[u8]) -> (r: Option<(String, String)>)
    ensures
        match r {
            Some(p) => text_chunk_decode(chunk_data@) == Some((p.0@, p.1@)),
            None => text_chunk_decode(chunk_data@) is None,
        },
{
    let n = chunk_data.len();
    match index_of_byte(chunk_data, 0) {
        Some(i) => {
            proof {
                lemma_find_byte(chunk_data@, 0);
            }
            let kw_bytes = vstd::slice::slice_subrange(chunk_data, 0, i);
            proof {
                assert(kw_bytes@ =~= chunk_data@.take(i as int));
            }
            let keyword = bytes_to_string_lossy(kw_bytes);
            let payload = vstd::slice::slice_subrange(chunk_data, i + 1, n);
            proof {
                assert(payload@ =~= chunk_data@.skip(i + 1));
            }
            let text = match b64_decode(payload) {
                Some(raw) => bytes_to_string_lossy(raw.as_slice()),
                None => bytes_to_string_lossy(payload),
            };
            Some((keyword, text))
        },
        None => None,
    }
}

fn decode_itxt_chunk(chunk_data: &[u8]) -> (r: Option<(String, String)>)
    ensures
        match r {
            Some(p) => itxt_chunk_decode(chunk_data@) == Some((p.0@, p.1@)),
            None => itxt_chunk_decode(chunk_data@) is None,
        },
{
    let n = chunk_data.len();
    match index_of_byte(chunk_data, 0) {
        Some(i) => {
            proof {
                lemma_find_byte(chunk_data@, 0);
            }
            let kw_bytes = vstd::slice::slice_subrange(chunk_data, 0, i);
            proof {
                assert(kw_bytes@ =~= chunk_data@.take(i as int));
            }
            let keyword = bytes_to_string_lossy(kw_bytes);
            let rest = vstd::slice::slice_subrange(chunk_data, i + 1, n);
            proof {
                assert(rest@ =~= chunk_data@.skip(i + 1));
            }
            if rest.len() < 2 {
                return None;
            }
            let flag = rest[0];
            let rest2 = vstd::slice::slice_subrange(rest, 2, rest.len());
            proof {
                assert(rest2@ =~= rest@.skip(2));
            }
            match index_of_byte(rest2, 0) {
                Some(l) => {
                    proof {
                        lemma_find_byte(rest2@, 0);
                    }
                    let rest3 = vstd::slice::slice_subrange(rest2, l + 1, rest2.len());
                    proof {
                        assert(rest3@ =~= rest2@.skip(l + 1));
                    }
                    match index_of_byte(rest3, 0) {
                        Some(t) => {
                            proof {
                                lemma_find_byte(rest3@, 0);
                            }
                            let text_data = vstd::slice::slice_subrange(rest3, t + 1, rest3.len());
                            proof {
                                assert(text_data@ =~= rest3@.skip(t + 1));
                            }
                            if flag == 1 {
                                match zlib_decompress(text_data) {
                                    Some(raw) => Some(
                                        (keyword, bytes_to_string_lossy(raw.as_slice())),
                                    ),
                                    None => None,
                                }
                            } else {
                                Some((keyword, bytes_to_string_lossy(text_data)))
                            }
                        },
                        None => None,
                    }
                },
                None => None,
            }
        },
        None => None,
    }
}

fn decode_ztxt_chunk(chunk_data: &[u8]) -> (r: Option<(String, String)>)
    ensures
        match r {
            Some(p) => ztxt_chunk_decode(chunk_data@) == Some((p.0@, p.1@)),
            None => ztxt_chunk_decode(chunk_data@) is None,
        },
{
    let n = chunk_data.len();
    match index_of_byte(chunk_data, 0) {
        Some(i) => {
            proof {
                lemma_find_byte(chunk_data@, 0);
            }
            if i + 1 >= n {
                return None;
            }
            let kw_bytes = vstd::slice::slice_subrange(chunk_data, 0, i);
            proof {
                assert(kw_bytes@ =~= chunk_data@.take(i as int));
            }
            let keyword = bytes_to_string_lossy(kw_bytes);
            let compressed = vstd::slice::slice_subrange(chunk_data, i + 2, n);
            proof {
                assert(compressed@ =~= chunk_data@.skip(i + 2));
            }
            match zlib_decompress(compressed) {
                Some(raw) => Some((keyword, bytes_to_string_lossy(raw.as_slice()))),
                None => None,
            }
        },
        None => None,
    }
}

fn decode_any_text_chunk(chunk: &PngChunk) -> (r: Option<(String, String)>)
    ensures
        match r {
            Some(p) => chunk_text_decode(chunk@) == Some((p.0@, p.1@)),
            None => chunk_text_decode(chunk@) is None,
        },
{
    if is_type(&chunk.chunk_type, 0x74, 0x45, 0x58, 0x74) {
        decode_text_chunk(chunk.data.as_slice())
    } else if is_type(&chunk.chunk_type, 0x69, 0x54, 0x58, 0x74) {
        decode_itxt_chunk(chunk.data.as_slice())
    } else if is_type(&chunk.chunk_type, 0x7a, 0x54, 0x58, 0x74) {
        decode_ztxt_chunk(chunk.data.as_slice())
    } else {
        None
    }
}

impl PngChunk {
    /// The chunk type as text.
    pub fn type_string(&self) -> (r: String)
        ensures
            r@ == lossy_utf8_of(self@.0),
    {
        bytes_to_string_lossy(self.chunk_type.as_slice())
    }
}

/// Decodes every `tEXt`, `iTXt` and `zTXt` chunk, in order.  A later
/// pair with the same keyword supersedes an earlier one on lookup.
pub fn read_text_chunks(data: &[u8]) -> (r: Result<Vec<(String, String)>, ArcaferryError>)
    ensures
        match r {
            Ok(pairs) => png_parse(data@) is Some && pairs@.map_values(
                |p: (String, String)| (p.0@, p.1@),
            ) == text_pairs(png_parse(data@).unwrap()),
            Err(_) => png_parse(data@) is None,
        },
        r is Ok <==> png_parse(data@) is Some,
{
    let chunks = match read_chunks(data) {
        Ok(c) => c,
        Err(e) => {
            return Err(e);
        },
    };
    let ghost views = chunk_views(chunks@);
    let mut out: Vec<(String, String)> = Vec::new();
    let n = chunks.len();
    let mut i: usize = 0;
    proof {
        assert(views.skip(0) =~= views);
    }
    while i < n
        invariant
            n == chunks@.len(),
            i <= n,
            views == chunk_views(chunks@),
            text_pairs(views) =~= out@.map_values(|p: (String, String)| (p.0@, p.1@)) + text_pairs(
                views.skip(i as int),
            ),
        decreases n - i,
    {
        let ghost pre = out@.map_values(|p: (String, String)| (p.0@, p.1@));
        let ghost restv = views.skip(i as int);
        proof {
            assert(restv[0] == views[i as int]);
            assert(views[i as int] == chunks@[i as int]@);
            assert(restv.drop_first() =~= views.skip(i + 1));
        }
        match decode_any_text_chunk(&chunks[i]) {
            Some(p) => {
                out.push(p);
                proof {
                    assert(out@.map_values(|p: (String, String)| (p.0@, p.1@)) =~= pre + seq![
                        (out@.last().0@, out@.last().1@),
                    ]);
                    assert(text_pairs(restv) == seq![(out@.last().0@, out@.last().1@)]
                        + text_pairs(restv.drop_first()));
                }
            },
            None => {},
        }
        i = i + 1;
        proof {
            assert(text_pairs(views) =~= out@.map_values(|p: (String, String)| (p.0@, p.1@))
                + text_pairs(views.skip(i as int)));
        }
    }
    proof {
        assert(views.skip(n as int) =~= Seq::<ChunkView>::empty());
        assert(text_pairs(views) =~= out@.map_values(|p: (String, String)| (p.0@, p.1@)));
    }
    Ok(out)
}

/// The text of the last pair carrying `kw`, cloned.
fn lookup_pair(pairs: &Vec<(String, String)>, kw: &str) -> (r: Option<String>)
    ensures
        match r {
            Some(t) => pairs_lookup(
                pairs@.map_values(|p: (String, String)| (p.0@, p.1@)),
                kw@,
            ) == Some(t@),
            None => pairs_lookup(pairs@.map_values(|p: (String, String)| (p.0@, p.1@)), kw@)
                is None,
        },
{
    let ghost pv = pairs@.map_values(|p: (String, String)| (p.0@, p.1@));
    let mut i: usize = pairs.len();
    proof {
        assert(pv.take(i as int) =~= pv);
    }
    while i > 0
        invariant
            i <= pairs@.len(),
            pv == pairs@.map_values(|p: (String, String)| (p.0@, p.1@)),
            pairs_lookup(pv, kw@) == pairs_lookup(pv.take(i as int), kw@),
        decreases i,
    {
        i = i - 1;
        proof {
            assert(pv.take(i + 1).last() == pv[i as int]);
            assert(pv.take(i + 1).drop_last() =~= pv.take(i as int));
        }
        if crate::strutil::str_eq(pairs[i].0.as_str(), kw) {
            return Some(pairs[i].1.clone());
        }
    }
    proof {
        assert(pv.take(0) =~= Seq::<(Seq<char>, Seq<char>)>::empty());
    }
    None
}

/// What `get_card_data` returns: the `ccv3` payload if present, else
/// the `chara` payload, else nothing.
pub open spec fn card_data_spec(chunks: Seq<ChunkView>) -> Option<(Seq<char>, Seq<char>)> {
    let pairs = text_pairs(chunks);
    match pairs_lookup(pairs, "ccv3"@) {
        Some(t) => Some(("ccv3"@, t)),
        None => match pairs_lookup(pairs, "chara"@) {
            Some(t) => Some(("chara"@, t)),
            None => None,
        },
    }
}

/// Extracts embedded card data, preferring `ccv3` over `chara`.
/// Returns the format keyword and the card text.
pub fn get_card_data(data: &[u8]) -> (r: Result<Option<(String, String)>, ArcaferryError>)
    ensures
        match r {
            Ok(Some(p)) => png_parse(data@) is Some && card_data_spec(png_parse(data@).unwrap())
                == Some((p.0@, p.1@)),
            Ok(None) => png_parse(data@) is Some && card_data_spec(png_parse(data@).unwrap())
                is None,
            Err(_) => png_parse(data@) is None,
        },
        r is Ok <==> png_parse(data@) is Some,
{
    let pairs = read_text_chunks(data)?;
    match lookup_pair(&pairs, "ccv3") {
        Some(json) => Ok(Some((String::from_str("ccv3"), json))),
        None => match lookup_pair(&pairs, "chara") {
            Some(json) => Ok(Some((String::from_str("chara"), json))),
            None => Ok(None),
        },
    }
}

// ---------------------------------------------------------------------------
// Injection and removal
// ---------------------------------------------------------------------------

/// A `tEXt` chunk whose decoded keyword is `kw`.
pub open spec fn is_text_kw(c: ChunkView, kw: Seq<char>) -> bool {
    c.0 =~= text_type() && match text_chunk_decode(c.1) {
        Some(p) => p.0 == kw,
        None => false,
    }
}

/// Whether some chunk is a `tEXt` chunk with keyword `kw`.
pub open spec fn any_text_kw(chunks: Seq<ChunkView>, kw: Seq<char>) -> bool {
    exists|i: int| 0 <= i < chunks.len() && is_text_kw(#[trigger] chunks[i], kw)
}

/// The first index of an `IEND` chunk, if any.
pub open spec fn find_iend(chunks: Seq<ChunkView>) -> Option<int>
    decreases chunks.len(),
{
    if chunks.len() == 0 {
        None
    } else if chunks[0].0 =~= iend_type() {
        Some(0int)
    } else {
        match find_iend(chunks.drop_first()) {
            Some(i) => Some(i + 1),
            None => None,
        }
    }
}

proof fn lemma_find_iend(chunks: Seq<ChunkView>)
    ensures
        match find_iend(chunks) {
            Some(i) => 0 <= i < chunks.len() && chunks[i].0 =~= iend_type() && forall|k: int|
                0 <= k < i ==> !(#[trigger] chunks[k].0 =~= iend_type()),
            None => forall|k: int| 0 <= k < chunks.len() ==> !(#[trigger] chunks[k].0
                =~= iend_type()),
        },
    decreases chunks.len(),
{
    if chunks.len() > 0 && !(chunks[0].0 =~= iend_type()) {
        lemma_find_iend(chunks.drop_first());
        assert(forall|k: int| 1 <= k < chunks.len() ==> chunks.drop_first()[k - 1] == chunks[k]);
        match find_iend(chunks.drop_first()) {
            Some(i) => {
                assert(chunks[i + 1] == chunks.drop_first()[i]);
            },
            None => {},
        }
    }
}

/// The body of an injected `tEXt` chunk:
/// `keyword ‖ 0x00 ‖ base64(text)`, both texts UTF-8 encoded.
pub open spec fn text_chunk_data_spec(kw: Seq<char>, text: Seq<char>) -> Seq<u8> {
    vstd::utf8::encode_utf8(kw) + seq![0u8] + b64_encode_spec(vstd::utf8::encode_utf8(text))
}

/// The injected chunk itself.
pub open spec fn new_text_chunk_spec(kw: Seq<char>, text: Seq<char>) -> ChunkView {
    (text_type(), text_chunk_data_spec(kw, text))
}

/// One chunk after replacement: a `tEXt` chunk carrying `kw` becomes
/// `nc`, every other chunk stays.
pub open spec fn replace_one(c: ChunkView, kw: Seq<char>, nc: ChunkView) -> ChunkView {
    if is_text_kw(c, kw) {
        nc
    } else {
        c
    }
}

/// Every `tEXt` chunk carrying `kw`, substituted by `nc`.
pub open spec fn replace_all(chunks: Seq<ChunkView>, kw: Seq<char>, nc: ChunkView) -> Seq<
    ChunkView,
> {
    Seq::new(chunks.len(), |i: int| replace_one(chunks[i], kw, nc))
}

/// The chunk type sequences are pairwise distinct where the proofs
/// need it.
pub proof fn lemma_types_distinct()
    ensures
        !(text_type() =~= idat_type()),
        !(text_type() =~= iend_type()),
        !(itxt_type() =~= idat_type()),
        !(itxt_type() =~= iend_type()),
        !(ztxt_type() =~= idat_type()),
        !(ztxt_type() =~= iend_type()),
{
    if text_type() =~= idat_type() {
        assert(text_type()[0] == idat_type()[0]);
    }
    if text_type() =~= iend_type() {
        assert(text_type()[0] == iend_type()[0]);
    }
    if itxt_type() =~= idat_type() {
        assert(itxt_type()[0] == idat_type()[0]);
    }
    if itxt_type() =~= iend_type() {
        assert(itxt_type()[0] == iend_type()[0]);
    }
    if ztxt_type() =~= idat_type() {
        assert(ztxt_type()[0] == idat_type()[0]);
    }
    if ztxt_type() =~= iend_type() {
        assert(ztxt_type()[0] == iend_type()[0]);
    }
}

/// What injection does to the chunk list: with `replace`, every `tEXt`
/// chunk carrying `kw` is substituted by `nc`; otherwise `nc` is
/// inserted just before the first `IEND` (or appended).
pub open spec fn inject_chunks(
    chunks: Seq<ChunkView>,
    kw: Seq<char>,
    nc: ChunkView,
    replace: bool,
) -> Seq<ChunkView> {
    if replace && any_text_kw(chunks, kw) {
        replace_all(chunks, kw, nc)
    } else {
        match find_iend(chunks) {
            Some(i) => chunks.insert(i, nc),
            None => chunks.push(nc),
        }
    }
}

/// A chunk removal candidate: any text chunk whose keyword is `kw`.
pub open spec fn should_remove(c: ChunkView, kw: Seq<char>) -> bool {
    match chunk_text_decode(c) {
        Some(p) => p.0 == kw,
        None => false,
    }
}

/// What removal does: drops every `tEXt`/`iTXt`/`zTXt` chunk whose
/// decoded keyword is `kw`.
pub open spec fn remove_chunks(chunks: Seq<ChunkView>, kw: Seq<char>) -> Seq<ChunkView>
    decreases chunks.len(),
{
    if chunks.len() == 0 {
        Seq::empty()
    } else {
        let rest = remove_chunks(chunks.drop_first(), kw);
        if should_remove(chunks[0], kw) {
            rest
        } else {
            seq![chunks[0]] + rest
        }
    }
}

/// The `IDAT` chunk payloads, in order.
pub open spec fn idat_payloads(chunks: Seq<ChunkView>) -> Seq<Seq<u8>>
    decreases chunks.len(),
{
    if chunks.len() == 0 {
        Seq::empty()
    } else {
        let rest = idat_payloads(chunks.drop_first());
        if chunks[0].0 =~= idat_type() {
            seq![chunks[0].1] + rest
        } else {
            rest
        }
    }
}

/// Replacing or inserting a text chunk never touches an `IDAT` chunk:
/// the image payloads of the result are those of the input, in order.
pub proof fn lemma_inject_preserves_idat(
    chunks: Seq<ChunkView>,
    kw: Seq<char>,
    nc: ChunkView,
    replace: bool,
)
    requires
        nc.0 =~= text_type(),
    ensures
        idat_payloads(inject_chunks(chunks, kw, nc, replace)) == idat_payloads(chunks),
{
    lemma_types_distinct();
    if replace && any_text_kw(chunks, kw) {
        lemma_idat_map(chunks, kw, nc);
    } else {
        lemma_find_iend(chunks);
        assert(idat_payloads(seq![nc]) =~= Seq::<Seq<u8>>::empty()) by {
            assert(seq![nc][0] == nc);
            assert(!(nc.0 =~= idat_type()));
            assert(seq![nc].drop_first() =~= Seq::<ChunkView>::empty());
            assert(idat_payloads(Seq::<ChunkView>::empty()) =~= Seq::<Seq<u8>>::empty());
        }
        match find_iend(chunks) {
            Some(i) => {
                let out = chunks.insert(i, nc);
                assert(out =~= chunks.take(i) + seq![nc] + chunks.skip(i));
                lemma_idat_append(chunks.take(i) + seq![nc], chunks.skip(i));
                lemma_idat_append(chunks.take(i), seq![nc]);
                lemma_idat_append(chunks.take(i), chunks.skip(i));
                assert(chunks.take(i) + chunks.skip(i) =~= chunks);
                assert(idat_payloads(out) =~= idat_payloads(chunks));
            },
            None => {
                let out = chunks.push(nc);
                assert(out =~= chunks + seq![nc]);
                lemma_idat_append(chunks, seq![nc]);
                assert(idat_payloads(out) =~= idat_payloads(chunks));
            },
        }
    }
}

proof fn lemma_idat_map(chunks: Seq<ChunkView>, kw: Seq<char>, nc: ChunkView)
    requires
        nc.0 =~= text_type(),
    ensures
        idat_payloads(replace_all(chunks, kw, nc)) == idat_payloads(chunks),
    decreases chunks.len(),
{
    lemma_types_distinct();
    let out = replace_all(chunks, kw, nc);
    if chunks.len() == 0 {
        assert(out =~= Seq::<ChunkView>::empty());
        assert(idat_payloads(out) =~= idat_payloads(chunks));
    } else {
        lemma_idat_map(chunks.drop_first(), kw, nc);
        assert(out.drop_first() =~= replace_all(chunks.drop_first(), kw, nc));
        assert(out[0] == replace_one(chunks[0], kw, nc));
        if is_text_kw(chunks[0], kw) {
            assert(!(chunks[0].0 =~= idat_type()));
            assert(!(out[0].0 =~= idat_type()));
        }
        assert(idat_payloads(out) =~= idat_payloads(chunks));
    }
}

/// `IDAT` payloads distribute over concatenation.
proof fn lemma_idat_append(a: Seq<ChunkView>, b: Seq<ChunkView>)
    ensures
        idat_payloads(a + b) =~= idat_payloads(a) + idat_payloads(b),
    decreases a.len(),
{
    if a.len() == 0 {
        assert(a + b =~= b);
        assert(idat_payloads(a) =~= Seq::<Seq<u8>>::empty());
    } else {
        lemma_idat_append(a.drop_first(), b);
        assert((a + b).drop_first() =~= a.drop_first() + b);
        assert((a + b)[0] == a[0]);
    }
}

/// Removing text chunks never touches an `IDAT` chunk.
pub proof fn lemma_remove_preserves_idat(chunks: Seq<ChunkView>, kw: Seq<char>)
    ensures
        idat_payloads(remove_chunks(chunks, kw)) == idat_payloads(chunks),
    decreases chunks.len(),
{
    if chunks.len() > 0 {
        lemma_remove_preserves_idat(chunks.drop_first(), kw);
        if should_remove(chunks[0], kw) {
            assert(!(chunks[0].0 =~= idat_type()));
        } else {
            lemma_idat_cons(chunks[0], remove_chunks(chunks.drop_first(), kw));
            lemma_idat_cons(chunks[0], chunks.drop_first());
        }
    }
}

proof fn lemma_idat_cons(c: ChunkView, rest: Seq<ChunkView>)
    ensures
        idat_payloads(seq![c] + rest) == if c.0 =~= idat_type() {
            seq![c.1] + idat_payloads(rest)
        } else {
            idat_payloads(rest)
        },
{
    let s = seq![c] + rest;
    assert(s[0] == c);
    assert(s.drop_first() =~= rest);
}

/// Injecting the same chunk twice in replace mode changes nothing the
/// second time.
pub proof fn lemma_inject_replace_idempotent(chunks: Seq<ChunkView>, kw: Seq<char>, nc: ChunkView)
    requires
        is_text_kw(nc, kw),
    ensures
        inject_chunks(inject_chunks(chunks, kw, nc, true), kw, nc, true) == inject_chunks(
            chunks,
            kw,
            nc,
            true,
        ),
{
    let out1 = inject_chunks(chunks, kw, nc, true);
    if any_text_kw(chunks, kw) {
        let i = choose|i: int| 0 <= i < chunks.len() && is_text_kw(#[trigger] chunks[i], kw);
        assert(out1[i] == replace_one(chunks[i], kw, nc));
        assert(out1[i] == nc);
        assert(any_text_kw(out1, kw));
        assert(replace_all(out1, kw, nc) =~= out1) by {
            assert forall|k: int| 0 <= k < out1.len() implies replace_all(out1, kw, nc)[k]
                == out1[k] by {
                assert(out1[k] == replace_one(chunks[k], kw, nc));
            }
        }
    } else {
        lemma_find_iend(chunks);
        match find_iend(chunks) {
            Some(i) => {
                assert(out1 == chunks.insert(i, nc));
                assert(out1[i] == nc);
                assert(any_text_kw(out1, kw));
                assert(replace_all(out1, kw, nc) =~= out1) by {
                    assert forall|k: int| 0 <= k < out1.len() implies replace_all(out1, kw, nc)[k]
                        == out1[k] by {
                        if k < i {
                            assert(out1[k] == chunks[k]);
                            assert(!is_text_kw(chunks[k], kw));
                        } else if k > i {
                            assert(out1[k] == chunks[k - 1]);
                            assert(!is_text_kw(chunks[k - 1], kw));
                        }
                    }
                }
            },
            None => {
                assert(out1 == chunks.push(nc));
                assert(out1[chunks.len() as int] == nc);
                assert(any_text_kw(out1, kw));
                assert(replace_all(out1, kw, nc) =~= out1) by {
                    assert forall|k: int| 0 <= k < out1.len() implies replace_all(out1, kw, nc)[k]
                        == out1[k] by {
                        if k < chunks.len() {
                            assert(out1[k] == chunks[k]);
                            assert(!is_text_kw(chunks[k], kw));
                        }
                    }
                }
            },
        }
    }
}

/// The embedded card round-trips: after a replace-mode injection of
/// `kw` and `text`, looking the keyword up in the decoded text chunks
/// yields exactly `text` — provided no foreign (`iTXt`/`zTXt`) chunk
/// also carries the keyword.  `inject_text_chunk` discharges the
/// decoding premise for every chunk it builds.
pub proof fn lemma_inject_then_lookup(
    chunks: Seq<ChunkView>,
    kw: Seq<char>,
    text: Seq<char>,
    nc: ChunkView,
)
    requires
        nc == new_text_chunk_spec(kw, text),
        text_chunk_decode(nc.1) == Some((kw, text)),
        forall|i: int|
            0 <= i < chunks.len() ==> match chunk_text_decode(#[trigger] chunks[i]) {
                Some(p) => p.0 == kw ==> chunks[i].0 =~= text_type(),
                None => true,
            },
    ensures
        pairs_lookup(text_pairs(inject_chunks(chunks, kw, nc, true)), kw) == Some(text),
{
    let out = inject_chunks(chunks, kw, nc, true);
    assert(chunk_text_decode(nc) == Some((kw, text))) by {
        assert(nc.0 =~= text_type());
    }
    if any_text_kw(chunks, kw) {
        let w = choose|i: int| 0 <= i < chunks.len() && is_text_kw(#[trigger] chunks[i], kw);
        assert(out[w] == replace_one(chunks[w], kw, nc));
        assert(out[w] == nc);
        assert forall|i: int|
            0 <= i < out.len() implies match chunk_text_decode(#[trigger] out[i]) {
            Some(p) => p.0 == kw ==> p.1 == text,
            None => true,
        } by {
            assert(out[i] == replace_one(chunks[i], kw, nc));
            if !is_text_kw(chunks[i], kw) {
                match chunk_text_decode(chunks[i]) {
                    Some(p) => {
                        if p.0 == kw {
                            assert(chunks[i].0 =~= text_type());
                            assert(is_text_kw(chunks[i], kw));
                        }
                    },
                    None => {},
                }
            }
        }
        assert(chunk_text_decode(out[w]) == Some((kw, text)));
        lemma_lookup_uniform(out, kw, text);
    } else {
        lemma_find_iend(chunks);
        assert forall|i: int|
            0 <= i < chunks.len() implies match chunk_text_decode(#[trigger] chunks[i]) {
            Some(p) => p.0 != kw,
            None => true,
        } by {
            match chunk_text_decode(chunks[i]) {
                Some(p) => {
                    if p.0 == kw {
                        assert(chunks[i].0 =~= text_type());
                        assert(is_text_kw(chunks[i], kw));
                        assert(any_text_kw(chunks, kw));
                    }
                },
                None => {},
            }
        }
        match find_iend(chunks) {
            Some(idx) => {
                let out2 = chunks.insert(idx, nc);
                assert(out2[idx] == nc);
                assert forall|i: int|
                    0 <= i < out2.len() implies match chunk_text_decode(#[trigger] out2[i]) {
                    Some(p) => p.0 == kw ==> p.1 == text,
                    None => true,
                } by {
                    if i < idx {
                        assert(out2[i] == chunks[i]);
                    } else if i > idx {
                        assert(out2[i] == chunks[i - 1]);
                    }
                }
                lemma_lookup_uniform(out2, kw, text);
            },
            None => {
                let out2 = chunks.push(nc);
                assert(out2[chunks.len() as int] == nc);
                assert forall|i: int|
                    0 <= i < out2.len() implies match chunk_text_decode(#[trigger] out2[i]) {
                    Some(p) => p.0 == kw ==> p.1 == text,
                    None => true,
                } by {
                    if i < chunks.len() {
                        assert(out2[i] == chunks[i]);
                    }
                }
                lemma_lookup_uniform(out2, kw, text);
            },
        }
    }
}

/// Injection keeps the chunk list well formed.
pub proof fn lemma_inject_wf(chunks: Seq<ChunkView>, kw: Seq<char>, nc: ChunkView, replace: bool)
    requires
        chunks_wf(chunks),
        chunk_wf(nc),
        !(nc.0 =~= iend_type()),
    ensures
        chunks_wf(inject_chunks(chunks, kw, nc, replace)),
{
    let out = inject_chunks(chunks, kw, nc, replace);
    if replace && any_text_kw(chunks, kw) {
        assert forall|i: int| 0 <= i < out.len() implies chunk_wf(#[trigger] out[i]) by {
            assert(out[i] == replace_one(chunks[i], kw, nc));
        }
        assert forall|i: int| 0 <= i < out.len() - 1 implies !(#[trigger] out[i].0
            =~= iend_type()) by {
            assert(out[i] == replace_one(chunks[i], kw, nc));
            if is_text_kw(chunks[i], kw) {
            } else {
                assert(!(chunks[i].0 =~= iend_type()));
            }
        }
    } else {
        lemma_find_iend(chunks);
        match find_iend(chunks) {
            Some(i) => {
                assert(i == chunks.len() - 1) by {
                    if i < chunks.len() - 1 {
                        assert(!(chunks[i].0 =~= iend_type()));
                    }
                }
                let out2 = chunks.insert(i, nc);
                assert forall|k: int| 0 <= k < out2.len() implies chunk_wf(#[trigger] out2[k]) by {
                    if k < i {
                        assert(out2[k] == chunks[k]);
                    } else if k == i {
                        assert(out2[k] == nc);
                    } else {
                        assert(out2[k] == chunks[k - 1]);
                    }
                }
                assert forall|k: int| 0 <= k < out2.len() - 1 implies !(#[trigger] out2[k].0
                    =~= iend_type()) by {
                    if k < i {
                        assert(out2[k] == chunks[k]);
                    } else if k == i {
                        assert(out2[k] == nc);
                    } else {
                        assert(out2[k] == chunks[k - 1]);
                    }
                }
            },
            None => {
                let out2 = chunks.push(nc);
                assert forall|k: int| 0 <= k < out2.len() implies chunk_wf(#[trigger] out2[k]) by {
                    if k < chunks.len() {
                        assert(out2[k] == chunks[k]);
                    }
                }
                assert forall|k: int| 0 <= k < out2.len() - 1 implies !(#[trigger] out2[k].0
                    =~= iend_type()) by {
                    assert(out2[k] == chunks[k]);
                }
            },
        }
    }
}

/// Looking a keyword up in the pairs of two concatenated lists prefers
/// the later list.
proof fn lemma_lookup_append(a: Seq<(Seq<char>, Seq<char>)>, b: Seq<(Seq<char>, Seq<char>)>, kw: Seq<char>)
    ensures
        pairs_lookup(a + b, kw) == match pairs_lookup(b, kw) {
            Some(t) => Some(t),
            None => pairs_lookup(a, kw),
        },
    decreases b.len(),
{
    if b.len() == 0 {
        assert(a + b =~= a);
    } else {
        assert((a + b).last() == b.last());
        if b.last().0 == kw {
        } else {
            assert((a + b).drop_last() =~= a + b.drop_last());
            lemma_lookup_append(a, b.drop_last(), kw);
        }
    }
}

/// If every text chunk whose keyword is `kw` decodes to `text`, and at
/// least one does, the lookup yields `text`.
pub proof fn lemma_lookup_uniform(chunks: Seq<ChunkView>, kw: Seq<char>, text: Seq<char>)
    requires
        forall|i: int|
            0 <= i < chunks.len() ==> match chunk_text_decode(#[trigger] chunks[i]) {
                Some(p) => p.0 == kw ==> p.1 == text,
                None => true,
            },
        exists|i: int|
            0 <= i < chunks.len() && chunk_text_decode(#[trigger] chunks[i]) == Some((kw, text)),
    ensures
        pairs_lookup(text_pairs(chunks), kw) == Some(text),
    decreases chunks.len(),
{
    let w = choose|i: int|
        0 <= i < chunks.len() && chunk_text_decode(#[trigger] chunks[i]) == Some((kw, text));
    let rest = chunks.drop_first();
    assert(forall|k: int| 1 <= k < chunks.len() ==> rest[k - 1] == chunks[k]);
    assert forall|i: int|
        0 <= i < rest.len() implies match chunk_text_decode(#[trigger] rest[i]) {
        Some(p) => p.0 == kw ==> p.1 == text,
        None => true,
    } by {
        assert(rest[i] == chunks[i + 1]);
    }
    match chunk_text_decode(chunks[0]) {
        Some(p) => {
            assert(text_pairs(chunks) == seq![p] + text_pairs(rest));
            lemma_lookup_append(seq![p], text_pairs(rest), kw);
            if w == 0 {
                if exists|i: int|
                    0 <= i < rest.len() && chunk_text_decode(#[trigger] rest[i]) == Some(
                        (kw, text),
                    ) {
                    lemma_lookup_uniform(rest, kw, text);
                } else {
                    lemma_lookup_not_found(rest, kw);
                    assert(pairs_lookup(seq![p], kw) == Some(text)) by {
                        assert(seq![p].last() == p);
                        assert(p == (kw, text));
                    }
                }
            } else {
                assert(rest[w - 1] == chunks[w]);
                lemma_lookup_uniform(rest, kw, text);
            }
        },
        None => {
            assert(text_pairs(chunks) == text_pairs(rest));
            assert(w > 0);
            assert(rest[w - 1] == chunks[w]);
            lemma_lookup_uniform(rest, kw, text);
        },
    }
}

/// If no text chunk carries `kw`, the lookup fails.
pub proof fn lemma_lookup_not_found(chunks: Seq<ChunkView>, kw: Seq<char>)
    requires
        forall|i: int|
            0 <= i < chunks.len() ==> match chunk_text_decode(#[trigger] chunks[i]) {
                Some(p) => p.0 != kw,
                None => true,
            },
    ensures
        pairs_lookup(text_pairs(chunks), kw) is None,
    decreases chunks.len(),
{
    if chunks.len() > 0 {
        let rest = chunks.drop_first();
        assert(forall|k: int| 1 <= k < chunks.len() ==> rest[k - 1] == chunks[k]);
        assert forall|i: int|
            0 <= i < rest.len() implies match chunk_text_decode(#[trigger] rest[i]) {
            Some(p) => p.0 != kw,
            None => true,
        } by {
            assert(rest[i] == chunks[i + 1]);
        }
        lemma_lookup_not_found(rest, kw);
        match chunk_text_decode(chunks[0]) {
            Some(p) => {
                assert(text_pairs(chunks) == seq![p] + text_pairs(rest));
                lemma_lookup_append(seq![p], text_pairs(rest), kw);
                assert(seq![p].last() == p);
                assert(p.0 != kw);
                let e: Seq<(Seq<char>, Seq<char>)> = Seq::empty();
                assert(seq![p].drop_last() =~= e);
                assert(pairs_lookup(e, kw) is None);
                assert(pairs_lookup(seq![p], kw) == pairs_lookup(seq![p].drop_last(), kw));
                assert(pairs_lookup(seq![p], kw) is None);
            },
            None => {
                assert(text_pairs(chunks) == text_pairs(rest));
            },
        }
    }
}

// ---------------------------------------------------------------------------
// Exec injection and removal
// ---------------------------------------------------------------------------

/// Appends all bytes of `src`.
fn append_bytes(out: &mut Vec<u8>, src: &[u8])
    ensures
        final(out)@ == old(out)@ + src@,
{
    let n = src.len();
    let mut i: usize = 0;
    while i < n
        invariant
            n == src@.len(),
            i <= n,
            out@ =~= old(out)@ + src@.take(i as int),
        decreases n - i,
    {
        out.push(src[i]);
        i = i + 1;
    }
    proof {
        assert(old(out)@ + src@.take(n as int) =~= old(out)@ + src@);
    }
}

/// An equal copy of a chunk.
fn duplicate_chunk(c: &PngChunk) -> (r: PngChunk)
    ensures
        r@ == c@,
{
    PngChunk { chunk_type: c.chunk_type, data: vstd::slice::slice_to_vec(c.data.as_slice()) }
}

/// Whether `c` is a `tEXt` chunk whose decoded keyword is `keyword`.
fn chunk_matches_kw(c: &PngChunk, keyword: &str) -> (r: bool)
    ensures
        r == is_text_kw(c@, keyword@),
{
    if !is_type(&c.chunk_type, 0x74, 0x45, 0x58, 0x74) {
        return false;
    }
    match decode_text_chunk(c.data.as_slice()) {
        Some(p) => crate::strutil::str_eq(p.0.as_str(), keyword),
        None => false,
    }
}

/// The index of the first `IEND` chunk, if any.
fn find_iend_index(chunks: &Vec<PngChunk>) -> (r: Option<usize>)
    ensures
        match r {
            Some(i) => find_iend(chunk_views(chunks@)) == Some(i as int) && i < chunks@.len(),
            None => find_iend(chunk_views(chunks@)) is None,
        },
{
    let ghost views = chunk_views(chunks@);
    let n = chunks.len();
    let mut i: usize = 0;
    while i < n
        invariant
            n == chunks@.len(),
            views == chunk_views(chunks@),
            i <= n,
            forall|k: int| 0 <= k < i ==> !(#[trigger] views[k].0 =~= iend_type()),
        decreases n - i,
    {
        proof {
            assert(views[i as int] == chunks@[i as int]@);
        }
        if is_type(&chunks[i].chunk_type, 0x49, 0x45, 0x4e, 0x44) {
            proof {
                lemma_find_iend(views);
                match find_iend(views) {
                    Some(j) => {
                        if j < i {
                            assert(!(views[j].0 =~= iend_type()));
                        }
                        if j > i {
                            assert(!(views[i as int].0 =~= iend_type()));
                        }
                    },
                    None => {
                        assert(!(views[i as int].0 =~= iend_type()));
                    },
                }
            }
            return Some(i);
        }
        i = i + 1;
    }
    proof {
        lemma_find_iend(views);
        match find_iend(views) {
            Some(j) => {
                assert(!(views[j].0 =~= iend_type()));
            },
            None => {},
        }
    }
    None
}

/// Injects a `tEXt` chunk `keyword ‖ 0x00 ‖ base64(text)`.  With
/// `replace`, an existing `tEXt` chunk of the same keyword is
/// substituted in place; otherwise the chunk is inserted just before
/// `IEND`.  All other chunks, `IDAT` included, are written back
/// unchanged.
#[verifier::rlimit(100)]
pub fn inject_text_chunk(data: &[u8], keyword: &str, text: &str, replace: bool) -> (r: Result<
    Vec<u8>,
    ArcaferryError,
>)
    ensures
        r is Ok <==> png_parse(data@) is Some && text_chunk_data_spec(keyword@, text@).len()
            < 0x100000000,
        match r {
            Ok(out) => {
                let cs = png_parse(data@).unwrap();
                let nc = new_text_chunk_spec(keyword@, text@);
                let injected = inject_chunks(cs, keyword@, nc, replace);
                &&& out@ == png_ser(injected)
                &&& png_parse(out@) == Some(injected)
                &&& idat_payloads(injected) == idat_payloads(cs)
                &&& !keyword@.contains('\0') ==> is_text_kw(nc, keyword@)
                    && text_chunk_decode(nc.1) == Some((keyword@, text@))
                &&& (replace && !keyword@.contains('\0') && (forall|i: int|
                    0 <= i < cs.len() ==> match chunk_text_decode(#[trigger] cs[i]) {
                        Some(p) => p.0 == keyword@ ==> cs[i].0 =~= text_type(),
                        None => true,
                    })) ==> pairs_lookup(text_pairs(injected), keyword@) == Some(text@)
            },
            Err(e) => e is InvalidPngSignature || e is PngChunkError,
        },
{
    let chunks = read_chunks(data)?;
    let ghost views = chunk_views(chunks@);
    proof {
        lemma_parse_wf(data@, 8);
    }
    // Build the new chunk.
    let kw_bytes = keyword.as_bytes_vec();
    let text_bytes = text.as_bytes_vec();
    let enc = b64_encode(text_bytes.as_slice());
    let mut new_data: Vec<u8> = Vec::new();
    append_bytes(&mut new_data, kw_bytes.as_slice());
    new_data.push(0);
    append_bytes(&mut new_data, enc.as_slice());
    proof {
        assert(new_data@ =~= text_chunk_data_spec(keyword@, text@));
    }
    if new_data.len() as u64 >= 0x100000000u64 {
        return Err(
            ArcaferryError::PngChunkError(String::from_str("Text chunk data too large")),
        );
    }
    let new_chunk = PngChunk { chunk_type: [0x74, 0x45, 0x58, 0x74], data: new_data };
    let ghost ncv = new_chunk@;
    proof {
        assert(ncv.0 =~= text_type());
        assert(ncv == new_text_chunk_spec(keyword@, text@));
        if !keyword@.contains('\0') {
            lemma_new_chunk_decodes(keyword@, text@);
        }
    }
    let mut out_chunks: Vec<PngChunk> = Vec::new();
    let mut replaced = false;
    let n = chunks.len();
    let mut i: usize = 0;
    while i < n
        invariant
            n == chunks@.len(),
            i <= n,
            views == chunk_views(chunks@),
            chunks_wf(views),
            ncv == new_text_chunk_spec(keyword@, text@),
            ncv.0 =~= text_type(),
            chunk_wf(ncv),
            new_chunk@ == ncv,
            replaced == (replace && any_text_kw(views.take(i as int), keyword@)),
            chunk_views(out_chunks@) =~= if replace {
                replace_all(views.take(i as int), keyword@, ncv)
            } else {
                views.take(i as int)
            },
        decreases n - i,
    {
        let ghost pre = chunk_views(out_chunks@);
        proof {
            assert(views[i as int] == chunks@[i as int]@);
        }
        let is_match = if replace {
            chunk_matches_kw(&chunks[i], keyword)
        } else {
            false
        };
        if is_match {
            out_chunks.push(duplicate_chunk(&new_chunk));
            replaced = true;
        } else {
            out_chunks.push(duplicate_chunk(&chunks[i]));
        }
        i = i + 1;
        proof {
            assert(chunk_views(out_chunks@) =~= pre + seq![out_chunks@.last()@]);
            if replace {
                let cur = chunk_views(out_chunks@);
                assert(out_chunks@.last()@ == replace_one(views[i - 1], keyword@, ncv));
                assert forall|k: int|
                    0 <= k < i implies #[trigger] replace_all(views.take(i as int), keyword@, ncv)[k]
                    == cur[k] by {
                    assert(replace_all(views.take(i as int), keyword@, ncv)[k] == replace_one(
                        views.take(i as int)[k],
                        keyword@,
                        ncv,
                    ));
                    assert(views.take(i as int)[k] == views[k]);
                    if k < i - 1 {
                        assert(cur[k] == pre[k]);
                        assert(pre[k] == replace_all(views.take(i - 1), keyword@, ncv)[k]);
                        assert(replace_all(views.take(i - 1), keyword@, ncv)[k] == replace_one(
                            views.take(i - 1)[k],
                            keyword@,
                            ncv,
                        ));
                        assert(views.take(i - 1)[k] == views[k]);
                    } else {
                        assert(cur[k] == out_chunks@.last()@);
                    }
                }
                assert(chunk_views(out_chunks@) =~= replace_all(
                    views.take(i as int),
                    keyword@,
                    ncv,
                ));
            } else {
                assert(out_chunks@.last()@ == views[i - 1]);
                assert(chunk_views(out_chunks@) =~= views.take(i as int));
            }
            // maintain the any_text_kw tracking
            if replace {
                if is_text_kw(views[i - 1], keyword@) {
                    assert(any_text_kw(views.take(i as int), keyword@)) by {
                        assert(views.take(i as int)[i - 1] == views[i - 1]);
                    }
                } else {
                    assert(any_text_kw(views.take(i as int), keyword@) == any_text_kw(
                        views.take(i - 1),
                        keyword@,
                    )) by {
                        if any_text_kw(views.take(i as int), keyword@) {
                            let w = choose|k: int|
                                0 <= k < i && is_text_kw(#[trigger] views.take(i as int)[k], keyword@);
                            if w < i - 1 {
                                assert(views.take(i - 1)[w] == views.take(i as int)[w]);
                            }
                        } else {
                            if any_text_kw(views.take(i - 1), keyword@) {
                                let w = choose|k: int|
                                    0 <= k < i - 1 && is_text_kw(
                                        #[trigger] views.take(i - 1)[k],
                                        keyword@,
                                    );
                                assert(views.take(i as int)[w] == views.take(i - 1)[w]);
                            }
                        }
                    }
                }
            }
        }
    }
    proof {
        assert(views.take(n as int) =~= views);
    }
    if !replaced {
        proof {
            if replace {
                assert forall|k: int|
                    0 <= k < views.len() implies #[trigger] chunk_views(out_chunks@)[k]
                    == views[k] by {
                    assert(chunk_views(out_chunks@)[k] == replace_all(
                        views.take(n as int),
                        keyword@,
                        ncv,
                    )[k]);
                    assert(replace_all(views.take(n as int), keyword@, ncv)[k] == replace_one(
                        views.take(n as int)[k],
                        keyword@,
                        ncv,
                    ));
                    if is_text_kw(views[k], keyword@) {
                        assert(any_text_kw(views, keyword@));
                    }
                }
            }
            assert(chunk_views(out_chunks@) =~= views);
        }
        let iend_idx = find_iend_index(&out_chunks);
        let ghost before_insert = out_chunks@;
        match iend_idx {
            Some(idx) => {
                out_chunks.insert(idx, new_chunk);
                proof {
                    assert(chunk_views(out_chunks@) =~= views.insert(idx as int, ncv)) by {
                        assert forall|k: int|
                            0 <= k < out_chunks@.len() implies #[trigger] chunk_views(
                            out_chunks@,
                        )[k] == views.insert(idx as int, ncv)[k] by {
                            assert(chunk_views(out_chunks@)[k] == out_chunks@[k]@);
                            if k < idx {
                                assert(out_chunks@[k] == before_insert[k]);
                                assert(views.insert(idx as int, ncv)[k] == views[k]);
                                assert(chunk_views(before_insert)[k] == before_insert[k]@);
                            } else if k == idx {
                                assert(out_chunks@[k] == new_chunk);
                                assert(views.insert(idx as int, ncv)[k] == ncv);
                            } else {
                                assert(out_chunks@[k] == before_insert[k - 1]);
                                assert(views.insert(idx as int, ncv)[k] == views[k - 1]);
                                assert(chunk_views(before_insert)[k - 1] == before_insert[k - 1]@);
                            }
                        }
                    }
                }
            },
            None => {
                out_chunks.push(new_chunk);
                proof {
                    assert(chunk_views(out_chunks@) =~= views.push(ncv));
                }
            },
        }
        return finish_inject(
            data,
            out_chunks,
            Ghost(views),
            Ghost(keyword@),
            Ghost(text@),
            Ghost(replace),
        );
    }
    proof {
        assert(replace && any_text_kw(views, keyword@));
        assert(chunk_views(out_chunks@) =~= replace_all(views, keyword@, ncv)) by {
            assert(views.take(n as int) =~= views);
            assert(chunk_views(out_chunks@) =~= replace_all(views.take(n as int), keyword@, ncv));
            assert forall|k: int|
                0 <= k < views.len() implies #[trigger] replace_all(views.take(n as int), keyword@, ncv)[k]
                == replace_all(views, keyword@, ncv)[k] by {
                assert(views.take(n as int)[k] == views[k]);
            }
        }
    }
    finish_inject(data, out_chunks, Ghost(views), Ghost(keyword@), Ghost(text@), Ghost(replace))
}

/// The conditional embedded-card round trip, in the form
/// `inject_text_chunk`'s contract states it.
proof fn lemma_inject_lookup_clause(
    chunks: Seq<ChunkView>,
    kw: Seq<char>,
    text: Seq<char>,
    replace: bool,
)
    requires
        b64_decode_spec(b64_encode_spec(vstd::utf8::encode_utf8(text))) == Some(
            vstd::utf8::encode_utf8(text),
        ),
    ensures
        (replace && !kw.contains('\0') && (forall|i: int|
            0 <= i < chunks.len() ==> match chunk_text_decode(#[trigger] chunks[i]) {
                Some(p) => p.0 == kw ==> chunks[i].0 =~= text_type(),
                None => true,
            })) ==> pairs_lookup(
            text_pairs(inject_chunks(chunks, kw, new_text_chunk_spec(kw, text), replace)),
            kw,
        ) == Some(text),
{
    if replace && !kw.contains('\0') && (forall|i: int|
        0 <= i < chunks.len() ==> match chunk_text_decode(#[trigger] chunks[i]) {
            Some(p) => p.0 == kw ==> chunks[i].0 =~= text_type(),
            None => true,
        }) {
        lemma_new_chunk_decodes(kw, text);
        lemma_inject_then_lookup(chunks, kw, text, new_text_chunk_spec(kw, text));
    }
}

/// Serializes the injected chunk list and discharges the contract of
/// `inject_text_chunk`.
fn finish_inject(
    data: &[u8],
    out_chunks: Vec<PngChunk>,
    Ghost(views): Ghost<Seq<ChunkView>>,
    Ghost(kw): Ghost<Seq<char>>,
    Ghost(text): Ghost<Seq<char>>,
    Ghost(replace): Ghost<bool>,
) -> (r: Result<Vec<u8>, ArcaferryError>)
    requires
        png_parse(data@) == Some(views),
        chunks_wf(views),
        text_chunk_data_spec(kw, text).len() < 0x100000000,
        b64_decode_spec(b64_encode_spec(vstd::utf8::encode_utf8(text))) == Some(
            vstd::utf8::encode_utf8(text),
        ),
        chunk_views(out_chunks@) == inject_chunks(
            views,
            kw,
            new_text_chunk_spec(kw, text),
            replace,
        ),
    ensures
        r is Ok,
        match r {
            Ok(out) => {
                let nc = new_text_chunk_spec(kw, text);
                let injected = inject_chunks(views, kw, nc, replace);
                &&& out@ == png_ser(injected)
                &&& png_parse(out@) == Some(injected)
                &&& idat_payloads(injected) == idat_payloads(views)
                &&& (replace && !kw.contains('\0') && (forall|i: int|
                    0 <= i < views.len() ==> match chunk_text_decode(#[trigger] views[i]) {
                        Some(p) => p.0 == kw ==> views[i].0 =~= text_type(),
                        None => true,
                    })) ==> pairs_lookup(text_pairs(injected), kw) == Some(text)
            },
            Err(_) => false,
        },
{
    proof {
        lemma_inject_lookup_clause(views, kw, text, replace);
    }
    let ghost nc = new_text_chunk_spec(kw, text);
    let ghost injected = inject_chunks(views, kw, nc, replace);
    proof {
        assert(nc.0 =~= text_type());
        assert(chunk_wf(nc));
        assert(!(nc.0 =~= iend_type()));
        lemma_inject_wf(views, kw, nc, replace);
        lemma_inject_preserves_idat(views, kw, nc, replace);
        lemma_parse_ser(injected);
        assert forall|i: int|
            0 <= i < out_chunks@.len() implies chunk_wf(#[trigger] chunk_views(out_chunks@)[i]) by {}
    }
    let out = build_png(out_chunks.as_slice());
    Ok(out)
}

proof fn lemma_encode_scalar_no_null(scalar: u32)
    requires
        vstd::utf8::is_scalar(scalar),
        scalar != 0,
    ensures
        forall|i: int|
            0 <= i < vstd::utf8::encode_scalar(scalar).len() ==> vstd::utf8::encode_scalar(
                scalar,
            )[i] != 0u8,
{
    let enc = vstd::utf8::encode_scalar(scalar);
    if vstd::utf8::has_width_1_encoding(scalar) {
        assert((scalar & 0x7F) as u8 != 0u8) by (bit_vector)
            requires
                scalar < 0x80,
                scalar != 0,
        ;
        assert forall|i: int| 0 <= i < enc.len() implies enc[i] != 0u8 by {
            assert(enc[0] == vstd::utf8::leading_byte_width_1(scalar));
        }
    } else {
        assert(0xC0u8 | (((scalar >> 6) & 0x1F) as u8) != 0u8) by (bit_vector);
        assert(0xE0u8 | (((scalar >> 12) & 0x0F) as u8) != 0u8) by (bit_vector);
        assert(0xF0u8 | (((scalar >> 18) & 0x7) as u8) != 0u8) by (bit_vector);
        assert(0x80u8 | ((scalar & 0x3F) as u8) != 0u8) by (bit_vector);
        assert(0x80u8 | (((scalar >> 6) & 0x3F) as u8) != 0u8) by (bit_vector);
        assert(0x80u8 | (((scalar >> 12) & 0x3F) as u8) != 0u8) by (bit_vector);
        assert forall|i: int| 0 <= i < enc.len() implies enc[i] != 0u8 by {}
    }
}

/// UTF-8 bytes of a text without NUL characters contain no zero byte.
pub proof fn lemma_encode_no_null(chars: Seq<char>)
    requires
        !chars.contains('\0'),
    ensures
        forall|i: int|
            0 <= i < vstd::utf8::encode_utf8(chars).len() ==> vstd::utf8::encode_utf8(chars)[i]
                != 0u8,
    decreases chars.len(),
{
    if chars.len() > 0 {
        let head = chars[0];
        assert(head != '\0') by {
            if head == '\0' {
                assert(chars.contains('\0'));
            }
        }
        vstd::utf8::char_is_scalar(head);
        assert(head as u32 != 0) by {
            if head as u32 == 0 {
                vstd::utf8::char_u32_cast(head, head as u32);
                vstd::utf8::char_u32_cast('\0', '\0' as u32);
                assert(('\0' as u32) == 0);
                assert(head == '\0');
            }
        }
        lemma_encode_scalar_no_null(head as u32);
        assert(!chars.drop_first().contains('\0')) by {
            if chars.drop_first().contains('\0') {
                let j = choose|j: int|
                    0 <= j < chars.drop_first().len() && chars.drop_first()[j] == '\0';
                assert(chars[j + 1] == '\0');
                assert(chars.contains('\0'));
            }
        }
        lemma_encode_no_null(chars.drop_first());
        let e0 = vstd::utf8::encode_scalar(head as u32);
        let erest = vstd::utf8::encode_utf8(chars.drop_first());
        assert forall|i: int|
            0 <= i < vstd::utf8::encode_utf8(chars).len() implies vstd::utf8::encode_utf8(
            chars,
        )[i] != 0u8 by {
            if i < e0.len() {
                assert(vstd::utf8::encode_utf8(chars)[i] == e0[i]);
            } else {
                assert(vstd::utf8::encode_utf8(chars)[i] == erest[i - e0.len()]);
            }
        }
    }
}

/// The injected chunk body decodes back to its keyword and text, as
/// long as the keyword holds no NUL character.  The premise on the
/// base64 names holds of every pair the encoder produces; callers of
/// `b64_encode` have it from that wrapper's contract.
pub proof fn lemma_new_chunk_decodes(kw: Seq<char>, text: Seq<char>)
    requires
        !kw.contains('\0'),
        b64_decode_spec(b64_encode_spec(vstd::utf8::encode_utf8(text))) == Some(
            vstd::utf8::encode_utf8(text),
        ),
    ensures
        text_chunk_decode(text_chunk_data_spec(kw, text)) == Some((kw, text)),
        is_text_kw(new_text_chunk_spec(kw, text), kw),
{
    let kwb = vstd::utf8::encode_utf8(kw);
    let textb = vstd::utf8::encode_utf8(text);
    let payload = b64_encode_spec(textb);
    let d = text_chunk_data_spec(kw, text);
    lemma_encode_no_null(kw);
    lemma_b64_no_null(textb);
    assert(d[kwb.len() as int] == 0u8);
    assert forall|k: int| 0 <= k < kwb.len() implies d[k] != 0u8 by {
        assert(d[k] == kwb[k]);
    }
    lemma_find_byte_at(d, 0u8, kwb.len() as int);
    assert(d.take(kwb.len() as int) =~= kwb);
    assert(d.skip(kwb.len() as int + 1) =~= payload);
    vstd::utf8::encode_utf8_valid_utf8(kw);
    vstd::utf8::encode_utf8_decode_utf8(kw);
    assert(lossy_utf8_of(kwb) == kw);
    vstd::utf8::encode_utf8_valid_utf8(text);
    vstd::utf8::encode_utf8_decode_utf8(text);
    assert(lossy_utf8_of(textb) == text);
}

/// Removes every text chunk (`tEXt`, `iTXt` or `zTXt`) whose decoded
/// keyword matches, leaving all other chunks untouched.
pub fn remove_text_chunk(data: &[u8], keyword: &str) -> (r: Result<Vec<u8>, ArcaferryError>)
    ensures
        r is Ok <==> png_parse(data@) is Some,
        match r {
            Ok(out) => {
                let cs = png_parse(data@).unwrap();
                let removed = remove_chunks(cs, keyword@);
                &&& out@ == png_ser(removed)
                &&& idat_payloads(removed) == idat_payloads(cs)
            },
            Err(e) => e is InvalidPngSignature || e is PngChunkError,
        },
{
    let chunks = read_chunks(data)?;
    let ghost views = chunk_views(chunks@);
    proof {
        lemma_parse_wf(data@, 8);
    }
    let mut out_chunks: Vec<PngChunk> = Vec::new();
    let n = chunks.len();
    let mut i: usize = 0;
    proof {
        assert(views.skip(0) =~= views);
    }
    while i < n
        invariant
            n == chunks@.len(),
            i <= n,
            views == chunk_views(chunks@),
            chunks_wf(views),
            remove_chunks(views, keyword@) =~= chunk_views(out_chunks@) + remove_chunks(
                views.skip(i as int),
                keyword@,
            ),
        decreases n - i,
    {
        let ghost restv = views.skip(i as int);
        let ghost pre = chunk_views(out_chunks@);
        proof {
            assert(restv[0] == views[i as int]);
            assert(views[i as int] == chunks@[i as int]@);
            assert(restv.drop_first() =~= views.skip(i + 1));
        }
        let c = &chunks[i];
        let dec = decode_any_text_chunk(c);
        let matches = match dec {
            Some(p) => crate::strutil::str_eq(p.0.as_str(), keyword),
            None => false,
        };
        if !matches {
            out_chunks.push(duplicate_chunk(c));
            proof {
                assert(chunk_views(out_chunks@) =~= pre + seq![views[i as int]]);
            }
        }
        i = i + 1;
        proof {
            assert(remove_chunks(views, keyword@) =~= chunk_views(out_chunks@) + remove_chunks(
                views.skip(i as int),
                keyword@,
            ));
        }
    }
    proof {
        assert(views.skip(n as int) =~= Seq::<ChunkView>::empty());
        assert(chunk_views(out_chunks@) =~= remove_chunks(views, keyword@));
        lemma_remove_preserves_idat(views, keyword@);
        lemma_remove_wf(views, keyword@);
        assert forall|k: int|
            0 <= k < out_chunks@.len() implies chunk_wf(#[trigger] chunk_views(out_chunks@)[k]) by {}
    }
    Ok(build_png(out_chunks.as_slice()))
}

/// Removal keeps the chunk list well formed.
proof fn lemma_remove_wf(chunks: Seq<ChunkView>, kw: Seq<char>)
    requires
        chunks_wf(chunks),
    ensures
        chunks_wf(remove_chunks(chunks, kw)),
    decreases chunks.len(),
{
    if chunks.len() > 0 {
        let rest = chunks.drop_first();
        assert(forall|k: int| 1 <= k < chunks.len() ==> rest[k - 1] == chunks[k]);
        assert(chunks_wf(rest)) by {
            assert forall|k: int| 0 <= k < rest.len() - 1 implies !(#[trigger] rest[k].0
                =~= iend_type()) by {
                assert(rest[k] == chunks[k + 1]);
            }
            assert forall|k: int| 0 <= k < rest.len() implies chunk_wf(#[trigger] rest[k]) by {
                assert(rest[k] == chunks[k + 1]);
            }
        }
        lemma_remove_wf(rest, kw);
        if !should_remove(chunks[0], kw) {
            let out = remove_chunks(chunks, kw);
            let rout = remove_chunks(rest, kw);
            assert(out == seq![chunks[0]] + rout);
            assert(out[0] == chunks[0]);
            assert(forall|k: int| 1 <= k < out.len() ==> #[trigger] out[k] == rout[k - 1]);
            assert forall|k: int| 0 <= k < out.len() implies chunk_wf(#[trigger] out[k]) by {}
            assert forall|k: int| 0 <= k < out.len() - 1 implies !(#[trigger] out[k].0
                =~= iend_type()) by {
                if k == 0 {
                    if chunks[0].0 =~= iend_type() {
                        // IEND can only be the last input chunk, after
                        // which nothing survives removal
                        assert(chunks.len() == 1) by {
                            if chunks.len() > 1 {
                                assert(!(chunks[0].0 =~= iend_type()));
                            }
                        }
                        assert(rout.len() == 0);
                    }
                }
            }
        }
    }
}

/// Embeds card JSON as the `ccv3` text chunk, replacing any previous
/// one.
pub fn embed_card(png_data: &[u8], card_json: &str) -> (r: Result<Vec<u8>, ArcaferryError>)
    ensures
        r is Ok <==> png_parse(png_data@) is Some && text_chunk_data_spec("ccv3"@, card_json@).len()
            < 0x100000000,
        match r {
            Ok(out) => {
                let cs = png_parse(png_data@).unwrap();
                let nc = new_text_chunk_spec("ccv3"@, card_json@);
                let injected = inject_chunks(cs, "ccv3"@, nc, true);
                &&& out@ == png_ser(injected)
                &&& png_parse(out@) == Some(injected)
                &&& idat_payloads(injected) == idat_payloads(cs)
            },
            Err(_) => true,
        },
{
    inject_text_chunk(png_data, "ccv3", card_json, true)
}

/// The `IDAT` payloads of a PNG, for integrity comparisons.
pub fn extract_idat_chunks(data: &[u8]) -> (r: Result<Vec<Vec<u8>>, ArcaferryError>)
    ensures
        r is Ok <==> png_parse(data@) is Some,
        match r {
            Ok(payloads) => payloads.deep_view() == idat_payloads(png_parse(data@).unwrap()),
            Err(_) => true,
        },
{
    let chunks = read_chunks(data)?;
    let ghost views = chunk_views(chunks@);
    let mut out: Vec<Vec<u8>> = Vec::new();
    let n = chunks.len();
    let mut i: usize = 0;
    proof {
        assert(views.skip(0) =~= views);
    }
    while i < n
        invariant
            n == chunks@.len(),
            i <= n,
            views == chunk_views(chunks@),
            idat_payloads(views) =~= out.deep_view() + idat_payloads(views.skip(i as int)),
        decreases n - i,
    {
        let ghost restv = views.skip(i as int);
        let ghost pre = out.deep_view();
        proof {
            assert(restv[0] == views[i as int]);
            assert(views[i as int] == chunks@[i as int]@);
            assert(restv.drop_first() =~= views.skip(i + 1));
        }
        if is_type(&chunks[i].chunk_type, 0x49, 0x44, 0x41, 0x54) {
            out.push(vstd::slice::slice_to_vec(chunks[i].data.as_slice()));
            proof {
                assert(out.deep_view() =~= pre + seq![views[i as int].1]) by {
                    assert forall|k: int|
                        0 <= k < out.deep_view().len() implies out.deep_view()[k] == (pre + seq![
                            views[i as int].1,
                        ])[k] by {
                        assert(out.deep_view()[k] == out@[k].deep_view());
                    }
                }
            }
        }
        i = i + 1;
        proof {
            assert(idat_payloads(views) =~= out.deep_view() + idat_payloads(views.skip(i as int)));
        }
    }
    proof {
        assert(views.skip(n as int) =~= Seq::<ChunkView>::empty());
        assert(out.deep_view() =~= idat_payloads(views));
    }
    Ok(out)
}

/// The embedded card text of a PNG, whichever format carries it.
pub fn extract_ccv3_data(data: &[u8]) -> (r: Result<Option<String>, ArcaferryError>)
    ensures
        r is Ok <==> png_parse(data@) is Some,
        match r {
            Ok(Some(json)) => png_parse(data@) is Some && match card_data_spec(
                png_parse(data@).unwrap(),
            ) {
                Some(p) => p.1 == json@,
                None => false,
            },
            Ok(None) => png_parse(data@) is Some && card_data_spec(png_parse(data@).unwrap())
                is None,
            Err(_) => true,
        },
{
    match get_card_data(data)? {
        Some(p) => Ok(Some(p.1)),
        None => Ok(None),
    }
}

/// Embeds card JSON as the `ccv3` chunk (alias kept for callers of the
/// older name).
pub fn embed_ccv3_data(png_data: &[u8], json_data: &str) -> (r: Result<Vec<u8>, ArcaferryError>)
    ensures
        r is Ok <==> png_parse(png_data@) is Some && text_chunk_data_spec("ccv3"@, json_data@).len()
            < 0x100000000,
        match r {
            Ok(out) => {
                let cs = png_parse(png_data@).unwrap();
                let nc = new_text_chunk_spec("ccv3"@, json_data@);
                let injected = inject_chunks(cs, "ccv3"@, nc, true);
                &&& out@ == png_ser(injected)
                &&& idat_payloads(injected) == idat_payloads(cs)
            },
            Err(_) => true,
        },
{
    embed_card(png_data, json_data)
}

/// Serializing one more chunk appends its bytes.
proof fn lemma_chunks_ser_take(views: Seq<ChunkView>, i: int)
    requires
        1 <= i <= views.len(),
    ensures
        chunks_ser(views.take(i)) =~= chunks_ser(views.take(i - 1)) + chunk_ser(views[i - 1]),
    decreases i,
{
    if i == 1 {
        assert(views.take(1).drop_first() =~= Seq::<ChunkView>::empty());
        assert(chunks_ser(views.take(1)) == chunk_ser(views.take(1)[0]) + chunks_ser(
            views.take(1).drop_first(),
        ));
        assert(chunks_ser(views.take(0)) == Seq::<u8>::empty());
        assert(chunks_ser(views.take(1)) =~= chunk_ser(views[0]));
        assert(chunks_ser(views.take(0)) + chunk_ser(views[0]) =~= chunk_ser(views[0]));
    } else {
        lemma_chunks_ser_take(views.drop_first(), i - 1);
        assert(views.take(i).drop_first() =~= views.drop_first().take(i - 1));
        assert(views.take(i - 1).drop_first() =~= views.drop_first().take(i - 2));
        assert(chunks_ser(views.take(i)) == chunk_ser(views[0]) + chunks_ser(
            views.drop_first().take(i - 1),
        ));
        assert(chunks_ser(views.take(i - 1)) == chunk_ser(views[0]) + chunks_ser(
            views.drop_first().take(i - 2),
        ));
        assert(views.drop_first()[i - 2] == views[i - 1]);
    }
}

} // verus!
