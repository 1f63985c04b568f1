//! The compression layer: a closed set of named codecs, each with a
//! single-byte identifier that is a power of two, behind a uniform
//! byte-slice contract.

use std::io::{Read, Write};
use vstd::prelude::*;

verus! {

/// A compression codec, identified on the wire by a single bit.
#[derive(Debug, Clone, Copy, PartialEq, Eq, Hash, Structural)]
pub enum Mode {
    Lz4,
    Zstd,
    Snappy,
    Brotli,
    Deflate,
    Zlib,
    Gzip,
    Lzw,
}

impl Mode {
    /// The wire identifier of the codec: a single bit.
    pub open spec fn spec_bit(self) -> u8 {
        match self {
            Mode::Lz4 => 0x01,
            Mode::Zstd => 0x02,
            Mode::Snappy => 0x04,
            Mode::Brotli => 0x08,
            Mode::Deflate => 0x10,
            Mode::Zlib => 0x20,
            Mode::Gzip => 0x40,
            Mode::Lzw => 0x80,
        }
    }

    /// The wire identifier of the codec.
    pub fn bit(&self) -> (r: u8)
        ensures
            r == self.spec_bit(),
    {
        match self {
            Mode::Lz4 => 0x01,
            Mode::Zstd => 0x02,
            Mode::Snappy => 0x04,
            Mode::Brotli => 0x08,
            Mode::Deflate => 0x10,
            Mode::Zlib => 0x20,
            Mode::Gzip => 0x40,
            Mode::Lzw => 0x80,
        }
    }

    /// The codec a wire byte names, if it names exactly one.
    pub open spec fn spec_of_byte(value: u8) -> Option<Mode> {
        if value == 0x01 {
            Option::Some(Mode::Lz4)
        } else if value == 0x02 {
            Option::Some(Mode::Zstd)
        } else if value == 0x04 {
            Option::Some(Mode::Snappy)
        } else if value == 0x08 {
            Option::Some(Mode::Brotli)
        } else if value == 0x10 {
            Option::Some(Mode::Deflate)
        } else if value == 0x20 {
            Option::Some(Mode::Zlib)
        } else if value == 0x40 {
            Option::Some(Mode::Gzip)
        } else if value == 0x80 {
            Option::Some(Mode::Lzw)
        } else {
            Option::None
        }
    }

    /// The codec a wire byte names: a byte with zero or several bits set
    /// names none.
    pub fn try_from(value: u8) -> (r: Option<Mode>)
        ensures
            r == Mode::spec_of_byte(value),
            r matches Option::Some(m) ==> m.spec_bit() == value,
    {
        if value == 0x01 {
            Option::Some(Mode::Lz4)
        } else if value == 0x02 {
            Option::Some(Mode::Zstd)
        } else if value == 0x04 {
            Option::Some(Mode::Snappy)
        } else if value == 0x08 {
            Option::Some(Mode::Brotli)
        } else if value == 0x10 {
            Option::Some(Mode::Deflate)
        } else if value == 0x20 {
            Option::Some(Mode::Zlib)
        } else if value == 0x40 {
            Option::Some(Mode::Gzip)
        } else if value == 0x80 {
            Option::Some(Mode::Lzw)
        } else {
            Option::None
        }
    }

    /// The codecs whose bits are set in a negotiation byte, in identifier
    /// order.
    pub open spec fn spec_set(value: u8) -> Seq<Mode> {
        let s = Seq::<Mode>::empty();
        let s = if value & 0x01 != 0 {
            s.push(Mode::Lz4)
        } else {
            s
        };
        let s = if value & 0x02 != 0 {
            s.push(Mode::Zstd)
        } else {
            s
        };
        let s = if value & 0x04 != 0 {
            s.push(Mode::Snappy)
        } else {
            s
        };
        let s = if value & 0x08 != 0 {
            s.push(Mode::Brotli)
        } else {
            s
        };
        let s = if value & 0x10 != 0 {
            s.push(Mode::Deflate)
        } else {
            s
        };
        let s = if value & 0x20 != 0 {
            s.push(Mode::Zlib)
        } else {
            s
        };
        let s = if value & 0x40 != 0 {
            s.push(Mode::Gzip)
        } else {
            s
        };
        if value & 0x80 != 0 {
            s.push(Mode::Lzw)
        } else {
            s
        }
    }

    /// The codecs a client's negotiation byte offers, in identifier order.
    pub fn tcpset(value: u8) -> (r: Vec<Mode>)
        ensures
            r@ == Mode::spec_set(value),
    {
        let mut r: Vec<Mode> = Vec::new();
        if value & 0x01 != 0 {
            r.push(Mode::Lz4);
        }
        if value & 0x02 != 0 {
            r.push(Mode::Zstd);
        }
        if value & 0x04 != 0 {
            r.push(Mode::Snappy);
        }
        if value & 0x08 != 0 {
            r.push(Mode::Brotli);
        }
        if value & 0x10 != 0 {
            r.push(Mode::Deflate);
        }
        if value & 0x20 != 0 {
            r.push(Mode::Zlib);
        }
        if value & 0x40 != 0 {
            r.push(Mode::Gzip);
        }
        if value & 0x80 != 0 {
            r.push(Mode::Lzw);
        }
        proof {
            assert(r@ =~= Mode::spec_set(value));
        }
        r
    }
}

/// What the lz4 frame encoder makes of a buffer.
pub uninterp spec fn lz4_of(b: Seq<u8>) -> Seq<u8>;

/// What the zstd block compressor makes of a buffer.
pub uninterp spec fn zstd_of(b: Seq<u8>) -> Seq<u8>;

/// What the snappy frame encoder makes of a buffer.
pub uninterp spec fn snappy_of(b: Seq<u8>) -> Seq<u8>;

/// What the brotli encoder makes of a buffer.
pub uninterp spec fn brotli_of(b: Seq<u8>) -> Seq<u8>;

/// What the raw-deflate encoder makes of a buffer.
pub uninterp spec fn deflate_of(b: Seq<u8>) -> Seq<u8>;

/// What the zlib encoder makes of a buffer.
pub uninterp spec fn zlib_of(b: Seq<u8>) -> Seq<u8>;

/// What the gzip encoder makes of a buffer.
pub uninterp spec fn gzip_of(b: Seq<u8>) -> Seq<u8>;

/// What the LZW encoder (MSB-first, nine-bit symbols) makes of a buffer.
pub uninterp spec fn lzw_of(b: Seq<u8>) -> Seq<u8>;

/// What the chosen codec makes of a buffer.
pub open spec fn compressed_of(mode: Mode, b: Seq<u8>) -> Seq<u8> {
    match mode {
        Mode::Lz4 => lz4_of(b),
        Mode::Zstd => zstd_of(b),
        Mode::Snappy => snappy_of(b),
        Mode::Brotli => brotli_of(b),
        Mode::Deflate => deflate_of(b),
        Mode::Zlib => zlib_of(b),
        Mode::Gzip => gzip_of(b),
        Mode::Lzw => lzw_of(b),
    }
}


/// The inflater undoes the deflater `f`: whenever the input is `f` of some
/// buffer of the declared size, the call succeeds with that buffer.
pub open spec fn inverts(
    r: Option<Vec<u8>>,
    src: Seq<u8>,
    expected: int,
    f: spec_fn(Seq<u8>) -> Seq<u8>,
) -> bool {
    forall|b: Seq<u8>|
        src == f(b) && b.len() == expected ==> (r matches Option::Some(out) && out@ == b)
}

/// The inflater refuses a mismatched declaration: whenever the input is
/// `f` of some buffer whose size differs from the declared one, the call
/// errs.
pub open spec fn refuses_mismatch(
    r: Option<Vec<u8>>,
    src: Seq<u8>,
    expected: int,
    f: spec_fn(Seq<u8>) -> Seq<u8>,
) -> bool {
    forall|b: Seq<u8>| src == f(b) && b.len() != expected ==> r is None
}

/// Relies on `lz4_flex::frame::FrameEncoder`: deflating a buffer into a
/// growable sink is a function of the bytes alone.
#[verifier::external_body]
fn lz4_compress(src: &Vec<u8>) -> (r: Vec<u8>)
    ensures
        r@ == lz4_of(src@),
{
    let mut enc = lz4_flex::frame::FrameEncoder::new(Vec::new());
    enc.write_all(src).expect("sink never fails");
    enc.finish().expect("sink never fails")
}

/// Relies on `lz4_flex::frame::FrameDecoder`: reading back what the frame
/// encoder wrote yields the original bytes; a stream that inflates to any
/// other length than declared errs, as does corrupt input.
#[verifier::external_body]
fn lz4_decompress(src: &Vec<u8>, expected: usize) -> (r: Option<Vec<u8>>)
    ensures
        r matches Option::Some(out) ==> out@.len() == expected,
        inverts(r, src@, expected as int, |b: Seq<u8>| lz4_of(b)),
        refuses_mismatch(r, src@, expected as int, |b: Seq<u8>| lz4_of(b)),
{
    let mut out = Vec::new();
    lz4_flex::frame::FrameDecoder::new(&src[..]).take((expected as u64).saturating_add(1)).read_to_end(&mut out).ok()?;
    if out.len() == expected {
        Some(out)
    } else {
        None
    }
}

/// Relies on `zstd::bulk::compress` at level zero: a function of the bytes
/// alone.
#[verifier::external_body]
fn zstd_compress(src: &Vec<u8>) -> (r: Vec<u8>)
    ensures
        r@ == zstd_of(src@),
{
    zstd::bulk::compress(src, 0).expect("in-memory compression never fails")
}

/// Relies on `zstd::bulk::decompress`: reading back what the compressor
/// wrote yields the original bytes; a stream that inflates to any other
/// length than declared errs, as does corrupt input.
#[verifier::external_body]
fn zstd_decompress(src: &Vec<u8>, expected: usize) -> (r: Option<Vec<u8>>)
    ensures
        r matches Option::Some(out) ==> out@.len() == expected,
        inverts(r, src@, expected as int, |b: Seq<u8>| zstd_of(b)),
        refuses_mismatch(r, src@, expected as int, |b: Seq<u8>| zstd_of(b)),
{
    let out = zstd::bulk::decompress(src, expected).ok()?;
    if out.len() == expected {
        Some(out)
    } else {
        None
    }
}

/// Relies on `snap::write::FrameEncoder`: a function of the bytes alone.
#[verifier::external_body]
fn snappy_compress(src: &Vec<u8>) -> (r: Vec<u8>)
    ensures
        r@ == snappy_of(src@),
{
    let mut enc = snap::write::FrameEncoder::new(Vec::new());
    enc.write_all(src).expect("sink never fails");
    enc.into_inner().expect("sink never fails")
}

/// Relies on `snap::read::FrameDecoder`: reading back what the frame
/// encoder wrote yields the original bytes; a stream that inflates to any
/// other length than declared errs, as does corrupt input.
#[verifier::external_body]
fn snappy_decompress(src: &Vec<u8>, expected: usize) -> (r: Option<Vec<u8>>)
    ensures
        r matches Option::Some(out) ==> out@.len() == expected,
        inverts(r, src@, expected as int, |b: Seq<u8>| snappy_of(b)),
        refuses_mismatch(r, src@, expected as int, |b: Seq<u8>| snappy_of(b)),
{
    let mut out = Vec::new();
    snap::read::FrameDecoder::new(&src[..]).take((expected as u64).saturating_add(1)).read_to_end(&mut out).ok()?;
    if out.len() == expected {
        Some(out)
    } else {
        None
    }
}

/// Relies on `brotli::CompressorWriter`: with fixed parameters a function of
/// the bytes alone.
#[verifier::external_body]
fn brotli_compress(src: &Vec<u8>) -> (r: Vec<u8>)
    ensures
        r@ == brotli_of(src@),
{
    let mut out = Vec::new();
    let mut enc = brotli::CompressorWriter::new(&mut out, 4096, 5, 22);
    enc.write_all(src).expect("sink never fails");
    drop(enc);
    out
}

/// Relies on `brotli::Decompressor`: reading back what the compressor wrote
/// yields the original bytes; a stream that inflates to any other length
/// than declared errs, as does corrupt input.
#[verifier::external_body]
fn brotli_decompress(src: &Vec<u8>, expected: usize) -> (r: Option<Vec<u8>>)
    ensures
        r matches Option::Some(out) ==> out@.len() == expected,
        inverts(r, src@, expected as int, |b: Seq<u8>| brotli_of(b)),
        refuses_mismatch(r, src@, expected as int, |b: Seq<u8>| brotli_of(b)),
{
    let mut out = Vec::new();
    brotli::Decompressor::new(&src[..], 4096).take((expected as u64).saturating_add(1)).read_to_end(&mut out).ok()?;
    if out.len() == expected {
        Some(out)
    } else {
        None
    }
}

/// Relies on `flate2::write::DeflateEncoder` at the fast level: a function
/// of the bytes alone.
#[verifier::external_body]
fn deflate_compress(src: &Vec<u8>) -> (r: Vec<u8>)
    ensures
        r@ == deflate_of(src@),
{
    let mut enc = flate2::write::DeflateEncoder::new(Vec::new(), flate2::Compression::fast());
    enc.write_all(src).expect("sink never fails");
    enc.finish().expect("sink never fails")
}

/// Relies on `flate2::bufread::DeflateDecoder`: reading back what the
/// encoder wrote yields the original bytes; a stream that inflates to any
/// other length than declared errs, as does corrupt input.
#[verifier::external_body]
fn deflate_decompress(src: &Vec<u8>, expected: usize) -> (r: Option<Vec<u8>>)
    ensures
        r matches Option::Some(out) ==> out@.len() == expected,
        inverts(r, src@, expected as int, |b: Seq<u8>| deflate_of(b)),
        refuses_mismatch(r, src@, expected as int, |b: Seq<u8>| deflate_of(b)),
{
    let mut out = Vec::new();
    flate2::bufread::DeflateDecoder::new(&src[..]).take((expected as u64).saturating_add(1)).read_to_end(&mut out).ok()?;
    if out.len() == expected {
        Some(out)
    } else {
        None
    }
}

/// Relies on `flate2::write::ZlibEncoder` at the fast level: a function of
/// the bytes alone.
#[verifier::external_body]
fn zlib_compress(src: &Vec<u8>) -> (r: Vec<u8>)
    ensures
        r@ == zlib_of(src@),
{
    let mut enc = flate2::write::ZlibEncoder::new(Vec::new(), flate2::Compression::fast());
    enc.write_all(src).expect("sink never fails");
    enc.finish().expect("sink never fails")
}

/// Relies on `flate2::bufread::ZlibDecoder`: reading back what the encoder
/// wrote yields the original bytes; corrupt input errs.
#[verifier::external_body]
fn zlib_decompress(src: &Vec<u8>, expected: usize) -> (r: Option<Vec<u8>>)
    ensures
        r matches Option::Some(out) ==> out@.len() == expected,
        inverts(r, src@, expected as int, |b: Seq<u8>| zlib_of(b)),
        refuses_mismatch(r, src@, expected as int, |b: Seq<u8>| zlib_of(b)),
{
    let mut out = Vec::new();
    flate2::bufread::ZlibDecoder::new(&src[..]).take((expected as u64).saturating_add(1)).read_to_end(&mut out).ok()?;
    if out.len() == expected {
        Some(out)
    } else {
        None
    }
}

/// Relies on `flate2::write::GzEncoder` at the fast level: a function of the
/// bytes alone.
#[verifier::external_body]
fn gzip_compress(src: &Vec<u8>) -> (r: Vec<u8>)
    ensures
        r@ == gzip_of(src@),
{
    let mut enc = flate2::write::GzEncoder::new(Vec::new(), flate2::Compression::fast());
    enc.write_all(src).expect("sink never fails");
    enc.finish().expect("sink never fails")
}

/// Relies on `flate2::bufread::GzDecoder`: reading back what the encoder
/// wrote yields the original bytes; corrupt input errs.
#[verifier::external_body]
fn gzip_decompress(src: &Vec<u8>, expected: usize) -> (r: Option<Vec<u8>>)
    ensures
        r matches Option::Some(out) ==> out@.len() == expected,
        inverts(r, src@, expected as int, |b: Seq<u8>| gzip_of(b)),
        refuses_mismatch(r, src@, expected as int, |b: Seq<u8>| gzip_of(b)),
{
    let mut out = Vec::new();
    flate2::bufread::GzDecoder::new(&src[..]).take((expected as u64).saturating_add(1)).read_to_end(&mut out).ok()?;
    if out.len() == expected {
        Some(out)
    } else {
        None
    }
}

/// Relies on `weezl::encode::Encoder` (MSB-first, nine-bit symbols): a
/// function of the bytes alone.
#[verifier::external_body]
fn lzw_compress(src: &Vec<u8>) -> (r: Vec<u8>)
    ensures
        r@ == lzw_of(src@),
{
    weezl::encode::Encoder::new(weezl::BitOrder::Msb, 9).encode(src).expect(
        "in-memory encoding never fails",
    )
}

/// Relies on `weezl::decode::Decoder`: reading back what the encoder wrote
/// yields the original bytes; a stream that inflates to any other length
/// than declared errs, as does corrupt input.
#[verifier::external_body]
fn lzw_decompress(src: &Vec<u8>, expected: usize) -> (r: Option<Vec<u8>>)
    ensures
        r matches Option::Some(out) ==> out@.len() == expected,
        inverts(r, src@, expected as int, |b: Seq<u8>| lzw_of(b)),
        refuses_mismatch(r, src@, expected as int, |b: Seq<u8>| lzw_of(b)),
{
    let out = weezl::decode::Decoder::new(weezl::BitOrder::Msb, 9).decode(src).ok()?;
    if out.len() == expected {
        Some(out)
    } else {
        None
    }
}

/// Compresses a buffer with the chosen codec.
pub fn compress_bytes(src: &Vec<u8>, mode: Mode) -> (r: Vec<u8>)
    ensures
        r@ == compressed_of(mode, src@),
{
    match mode {
        Mode::Lz4 => lz4_compress(src),
        Mode::Zstd => zstd_compress(src),
        Mode::Snappy => snappy_compress(src),
        Mode::Brotli => brotli_compress(src),
        Mode::Deflate => deflate_compress(src),
        Mode::Zlib => zlib_compress(src),
        Mode::Gzip => gzip_compress(src),
        Mode::Lzw => lzw_compress(src),
    }
}

/// Inflates a buffer with the chosen codec. It fails fast on corrupt input
/// or on a declared size that does not match, and on the output of
/// `compress_bytes` with the declared original size it always succeeds with
/// the original bytes.
pub fn decompress_bytes(src: &Vec<u8>, expected: usize, mode: Mode) -> (r: Option<Vec<u8>>)
    ensures
        r matches Option::Some(out) ==> out@.len() == expected,
        forall|b: Seq<u8>|
            src@ == compressed_of(mode, b) && b.len() == expected ==> (r matches Option::Some(out)
                && out@ == b),
        forall|b: Seq<u8>| src@ == compressed_of(mode, b) && b.len() != expected ==> r is None,
{
    match mode {
        Mode::Lz4 => lz4_decompress(src, expected),
        Mode::Zstd => zstd_decompress(src, expected),
        Mode::Snappy => snappy_decompress(src, expected),
        Mode::Brotli => brotli_decompress(src, expected),
        Mode::Deflate => deflate_decompress(src, expected),
        Mode::Zlib => zlib_decompress(src, expected),
        Mode::Gzip => gzip_decompress(src, expected),
        Mode::Lzw => lzw_decompress(src, expected),
    }
}

/// Compressing and then inflating with the declared original size gives the
/// original buffer back, for every codec.
pub fn compress_roundtrip(src: &Vec<u8>, mode: Mode) -> (r: Vec<u8>)
    ensures
        r@ == src@,
{
    let packed = compress_bytes(src, mode);
    match decompress_bytes(&packed, src.len(), mode) {
        Option::Some(out) => out,
        Option::None => {
            proof {
                assert(false);
            }
            Vec::new()
        },
    }
}

} // verus!
