//! PNG export: a placeholder image and card embedding.
//!
//! Composes a base image (a decoded avatar, or a synthesized gray
//! square) with the card JSON as the `ccv3` text chunk and its V2
//! rendering as the `chara` chunk.  The callers serialize the card;
//! this module only frames bytes, so every image chunk survives
//! untouched.

use vstd::prelude::*;
use crate::error::ArcaferryError;
use crate::png::{
    ChunkView, b64_decode, build_png, chunk_views, embed_card, idat_payloads,
    inject_chunks, inject_text_chunk, new_text_chunk_spec, png_parse, png_ser, text_chunk_data_spec,
    zlib_compress, zlib_inflate_of, PngChunk,
};

verus! {

/// The width and height of the synthesized placeholder.
pub const PLACEHOLDER_SIZE: u32 = 512;

/// The raw scanlines of the gray placeholder: each row is a zero
/// filter byte followed by 512 RGBA pixels of (128, 128, 128, 255).
pub open spec fn placeholder_raw() -> Seq<u8> {
    Seq::new(
        512 * 2049,
        |i: int|
            if i % 2049 == 0 {
                0u8
            } else if (i % 2049 - 1) % 4 == 3 {
                255u8
            } else {
                128u8
            },
    )
}

/// The IHDR body of the placeholder: 512 x 512, 8-bit RGBA.
pub open spec fn placeholder_ihdr() -> Seq<u8> {
    seq![0u8, 0u8, 2u8, 0u8, 0u8, 0u8, 2u8, 0u8, 8u8, 6u8, 0u8, 0u8, 0u8]
}

/// Synthesizes the gray 512x512 RGBA placeholder: an IHDR, one IDAT
/// holding the zlib-compressed scanlines, and an IEND, each with a
/// fresh CRC.
pub fn generate_placeholder_png() -> (r: Vec<u8>)
    ensures
        ({
            let parsed = png_parse(r@);
            &&& parsed is Some
            &&& parsed.unwrap().len() == 3
            &&& parsed.unwrap()[0].0 =~= seq![0x49u8, 0x48u8, 0x44u8, 0x52u8]
            &&& parsed.unwrap()[0].1 == placeholder_ihdr()
            &&& parsed.unwrap()[1].0 =~= crate::png::idat_type()
            &&& parsed.unwrap()[2].0 =~= crate::png::iend_type()
            &&& (zlib_inflate_of(parsed.unwrap()[1].1) == Some(placeholder_raw()) || parsed.unwrap()[1].1.len()
                == 0)
        }),
{
    // raw scanlines: 512 rows of a filter byte and 512 RGBA pixels
    let mut raw: Vec<u8> = Vec::new();
    let mut row: usize = 0;
    while row < 512
        invariant
            row <= 512,
            raw@.len() == row * 2049,
            raw@ =~= placeholder_raw().take((row * 2049) as int),
        decreases 512 - row,
    {
        let ghost pre = raw@;
        raw.push(0);
        let mut px: usize = 0;
        while px < 512
            invariant
                px <= 512,
                row < 512,
                raw@.len() == row * 2049 + 1 + px * 4,
                raw@ =~= placeholder_raw().take((row * 2049 + 1 + px * 4) as int),
            decreases 512 - px,
        {
            raw.push(128);
            raw.push(128);
            raw.push(128);
            raw.push(255);
            px = px + 1;
            proof {
                lemma_placeholder_pixel(row as int, px as int);
                assert(raw@ =~= placeholder_raw().take((row * 2049 + 1 + px * 4) as int));
            }
        }
        row = row + 1;
        proof {
            assert(raw@ =~= placeholder_raw().take((row * 2049) as int));
        }
    }
    proof {
        assert(raw@ =~= placeholder_raw());
    }
    let compressed = zlib_compress(raw.as_slice());
    let idat_data: Vec<u8> = if compressed.len() as u64 >= 0x100000000u64 {
        Vec::new()
    } else {
        compressed
    };
    let ihdr = PngChunk {
        chunk_type: [0x49, 0x48, 0x44, 0x52],
        data: placeholder_ihdr_exec(),
    };
    let idat = PngChunk { chunk_type: [0x49, 0x44, 0x41, 0x54], data: idat_data };
    let iend = PngChunk { chunk_type: [0x49, 0x45, 0x4e, 0x44], data: Vec::new() };
    let mut chunks: Vec<PngChunk> = Vec::new();
    chunks.push(ihdr);
    chunks.push(idat);
    chunks.push(iend);
    proof {
        crate::png::lemma_types_distinct();
        assert forall|i: int|
            0 <= i < chunks@.len() implies crate::png::chunk_wf(
            #[trigger] chunk_views(chunks@)[i],
        ) by {
            assert(chunk_views(chunks@)[i] == chunks@[i]@);
        }
    }
    let out = build_png(chunks.as_slice());
    proof {
        assert(crate::png::chunks_wf(chunk_views(chunks@))) by {
            assert(chunk_views(chunks@)[0] == chunks@[0]@);
            assert(chunk_views(chunks@)[1] == chunks@[1]@);
            assert(chunk_views(chunks@)[2] == chunks@[2]@);
            assert(!(chunks@[0]@.0 =~= crate::png::iend_type()));
            assert(!(chunks@[1]@.0 =~= crate::png::iend_type()));
        }
        crate::png::lemma_parse_ser(chunk_views(chunks@));
        assert(png_parse(out@) == Some(chunk_views(chunks@)));
        assert(chunk_views(chunks@)[0] == chunks@[0]@);
        assert(chunk_views(chunks@)[1] == chunks@[1]@);
        assert(chunk_views(chunks@)[2] == chunks@[2]@);
    }
    out
}

proof fn lemma_placeholder_pixel(row: int, px: int)
    requires
        0 <= row < 512,
        0 < px <= 512,
    ensures
        forall|j: int|
            0 <= j < 4 ==> #[trigger] placeholder_raw()[row * 2049 + 1 + (px - 1) * 4 + j] == (
            if j == 3 {
                255u8
            } else {
                128u8
            }),
        placeholder_raw()[row * 2049] == 0u8,
{
    assert forall|j: int|
        0 <= j < 4 implies #[trigger] placeholder_raw()[row * 2049 + 1 + (px - 1) * 4 + j] == (
        if j == 3 {
            255u8
        } else {
            128u8
        }) by {
        let i = row * 2049 + 1 + (px - 1) * 4 + j;
        assert(i % 2049 == 1 + (px - 1) * 4 + j) by (nonlinear_arith)
            requires
                0 <= row < 512,
                0 < px <= 512,
                0 <= j < 4,
                i == row * 2049 + 1 + (px - 1) * 4 + j,
        ;
        assert((i % 2049 - 1) % 4 == j) by (nonlinear_arith)
            requires
                i % 2049 == 1 + (px - 1) * 4 + j,
                0 <= j < 4,
                0 < px <= 512,
        ;
    }
    assert((row * 2049) % 2049 == 0) by (nonlinear_arith)
        requires
            0 <= row < 512,
    ;
}

fn placeholder_ihdr_exec() -> (r: Vec<u8>)
    ensures
        r@ == placeholder_ihdr(),
{
    let mut v: Vec<u8> = Vec::new();
    v.push(0);
    v.push(0);
    v.push(2);
    v.push(0);
    v.push(0);
    v.push(0);
    v.push(2);
    v.push(0);
    v.push(8);
    v.push(6);
    v.push(0);
    v.push(0);
    v.push(0);
    proof {
        assert(v@ =~= placeholder_ihdr());
    }
    v
}

/// Composes the card PNG: the decoded avatar (or the synthesized
/// placeholder), the card JSON replacing any `ccv3` chunk, and its V2
/// rendering replacing any `chara` chunk.  Every other chunk of the
/// base image, `IDAT` included, survives byte for byte.
pub fn create_card_png(card_json: &str, v2_json: &str, avatar_base64: Option<&str>) -> (r: Result<
    Vec<u8>,
    ArcaferryError,
>)
    ensures
        match r {
            Ok(out) => {
                &&& png_parse(out@) is Some
                &&& exists|base: Seq<ChunkView>|
                    {
                        let c1 = inject_chunks(
                            base,
                            "ccv3"@,
                            new_text_chunk_spec("ccv3"@, card_json@),
                            true,
                        );
                        let c2 = inject_chunks(
                            c1,
                            "chara"@,
                            new_text_chunk_spec("chara"@, v2_json@),
                            true,
                        );
                        &&& #[trigger] idat_payloads(base) == idat_payloads(
                            png_parse(out@).unwrap(),
                        )
                        &&& png_parse(out@) == Some(c2)
                        &&& out@ == png_ser(c2)
                        &&& match avatar_base64 {
                            Some(b) => crate::png::b64_decode_spec(
                                vstd::utf8::encode_utf8(b@),
                            ) matches Some(bb) && png_parse(bb) == Some(base),
                            None => true,
                        }
                    }
            },
            Err(e) => match avatar_base64 {
                Some(_) => true,
                None => text_chunk_data_spec("ccv3"@, card_json@).len() >= 0x100000000
                    || text_chunk_data_spec("chara"@, v2_json@).len() >= 0x100000000,
            },
        },
        ({
            let sizes_ok = text_chunk_data_spec("ccv3"@, card_json@).len() < 0x100000000
                && text_chunk_data_spec("chara"@, v2_json@).len() < 0x100000000;
            match avatar_base64 {
                None => sizes_ok ==> r is Ok,
                Some(b) => (sizes_ok && match crate::png::b64_decode_spec(
                    vstd::utf8::encode_utf8(b@),
                ) {
                    Some(bb) => png_parse(bb) is Some,
                    None => false,
                }) ==> r is Ok,
            }
        }),
{
    let base: Vec<u8> = match avatar_base64 {
        Some(b64) => {
            let bytes = b64.as_bytes_vec();
            match b64_decode(bytes.as_slice()) {
                Some(v) => v,
                None => {
                    return Err(
                        ArcaferryError::InvalidJson(String::from_str("Invalid avatar base64")),
                    );
                },
            }
        },
        None => generate_placeholder_png(),
    };
    let with_card = embed_card(base.as_slice(), card_json)?;
    let ghost c1 = inject_chunks(
        png_parse(base@).unwrap(),
        "ccv3"@,
        new_text_chunk_spec("ccv3"@, card_json@),
        true,
    );
    let out = inject_text_chunk(with_card.as_slice(), "chara", v2_json, true)?;
    proof {
        let basev = png_parse(base@).unwrap();
        let c2 = inject_chunks(c1, "chara"@, new_text_chunk_spec("chara"@, v2_json@), true);
        assert(idat_payloads(basev) == idat_payloads(png_parse(out@).unwrap()));
        assert(png_parse(out@) == Some(c2));
    }
    Ok(out)
}

} // verus!
