//! Stateless compression transforms over three interchangeable codecs,
//! selected explicitly or by sniffing a magic-number prefix.

use vstd::prelude::*;
use std::io::Read;
use std::io::Write;
use crate::strutil::{lower_of, lowercase, str_eq};

verus! {

/// The codecs the byte transforms speak.
#[derive(Debug, Clone, Copy, PartialEq, Eq, Structural)]
pub enum CompressionAlgorithm {
    Gzip,
    Lz4,
    Zstd,
}

/// A failed byte transform.
#[derive(Debug, Clone, Copy, PartialEq, Eq, Structural)]
pub enum CodecError {
    /// The algorithm name is not one the transforms speak.
    UnknownAlgorithm,
    /// The input does not decode under the selected codec.
    CorruptData,
}

/// What the gzip encoder emits for given bytes: a function of the bytes
/// alone at the default level.
pub uninterp spec fn gzip_of(data: Seq<u8>) -> Seq<u8>;

/// What gzip decoding yields: the original bytes, or nothing for input
/// that is not a well-formed gzip stream.
pub uninterp spec fn gunzip_of(data: Seq<u8>) -> Option<Seq<u8>>;

/// What the size-prepending block encoder emits for given bytes.
pub uninterp spec fn lz4_of(data: Seq<u8>) -> Seq<u8>;

/// What size-prepended block decoding yields, if the input decodes.
pub uninterp spec fn unlz4_of(data: Seq<u8>) -> Option<Seq<u8>>;

/// What the zstd encoder emits for given bytes at level three.
pub uninterp spec fn zstd_of(data: Seq<u8>) -> Seq<u8>;

/// What zstd decoding yields, if the input decodes.
pub uninterp spec fn unzstd_of(data: Seq<u8>) -> Option<Seq<u8>>;

/// Relies on flate2's GzEncoder at the default level: the output is a
/// function of the input bytes alone (the fixed ten-byte header carries
/// the magic pair and no timestamp), writing into an in-memory buffer
/// cannot fail, and the decoder inverts it.
#[verifier::external_body]
fn gzip_compress_raw(data: &[u8]) -> (r: Vec<u8>)
    ensures
        r@ == gzip_of(data@),
        gunzip_of(r@) == Option::Some(data@),
        r@.len() >= 10,
        r@[0] == 0x1f,
        r@[1] == 0x8b,
{
    let mut encoder = flate2::write::GzEncoder::new(Vec::new(), flate2::Compression::default());
    encoder.write_all(data).expect("writing into a Vec cannot fail");
    encoder.finish().expect("writing into a Vec cannot fail")
}

/// Relies on flate2's GzDecoder: decoding is a function of the input
/// bytes alone, succeeding exactly on well-formed gzip streams.
#[verifier::external_body]
fn gzip_decompress_raw(data: &[u8]) -> (r: Option<Vec<u8>>)
    ensures
        (r is Some) == (gunzip_of(data@) is Some),
        r matches Option::Some(v) ==> Option::Some(v@) == gunzip_of(data@),
{
    let mut decoder = flate2::read::GzDecoder::new(data);
    let mut result = Vec::new();
    match decoder.read_to_end(&mut result) {
        Ok(_) => Some(result),
        Err(_) => None,
    }
}

/// Relies on lz4_flex::compress_prepend_size: the output is a function
/// of the input bytes alone, its paired decoder inverts it, and the
/// input length is prepended as a 32-bit count, so inputs must fit it.
#[verifier::external_body]
fn lz4_compress_raw(data: &[u8]) -> (r: Vec<u8>)
    requires
        data@.len() <= u32::MAX,
    ensures
        r@ == lz4_of(data@),
        unlz4_of(r@) == Option::Some(data@),
{
    lz4_flex::compress_prepend_size(data)
}

/// Relies on lz4_flex::decompress_size_prepended: decoding is a
/// function of the input bytes alone.
#[verifier::external_body]
fn lz4_decompress_raw(data: &[u8]) -> (r: Option<Vec<u8>>)
    ensures
        (r is Some) == (unlz4_of(data@) is Some),
        r matches Option::Some(v) ==> Option::Some(v@) == unlz4_of(data@),
{
    lz4_flex::decompress_size_prepended(data).ok()
}

/// Relies on zstd::encode_all at level three: the output is a function
/// of the input bytes alone, every frame opens with the four magic
/// bytes, encoding into an in-memory buffer cannot fail, and decoding
/// inverts it.
#[verifier::external_body]
fn zstd_compress_raw(data: &[u8]) -> (r: Vec<u8>)
    ensures
        r@ == zstd_of(data@),
        unzstd_of(r@) == Option::Some(data@),
        r@.len() >= 4,
        r@[0] == 0x28,
        r@[1] == 0xb5,
        r@[2] == 0x2f,
        r@[3] == 0xfd,
{
    zstd::encode_all(data, 3).expect("encoding into a Vec cannot fail")
}

/// Relies on zstd::decode_all: decoding is a function of the input
/// bytes alone.
#[verifier::external_body]
fn zstd_decompress_raw(data: &[u8]) -> (r: Option<Vec<u8>>)
    ensures
        (r is Some) == (unzstd_of(data@) is Some),
        r matches Option::Some(v) ==> Option::Some(v@) == unzstd_of(data@),
{
    zstd::decode_all(data).ok()
}

impl CompressionAlgorithm {
    /// Reads an algorithm name, in any casing.
    pub fn from_str(s: &str) -> (r: Result<CompressionAlgorithm, CodecError>)
        ensures
            (r == Result::<CompressionAlgorithm, CodecError>::Ok(CompressionAlgorithm::Gzip))
                <==> (lower_of(s@) == "gzip"@ || lower_of(s@) == "gz"@),
            (r == Result::<CompressionAlgorithm, CodecError>::Ok(CompressionAlgorithm::Lz4)) <==> (
            lower_of(s@) == "lz4"@),
            (r == Result::<CompressionAlgorithm, CodecError>::Ok(CompressionAlgorithm::Zstd))
                <==> (lower_of(s@) == "zstd"@ || lower_of(s@) == "zst"@),
            r is Err ==> r == Result::<CompressionAlgorithm, CodecError>::Err(
                CodecError::UnknownAlgorithm,
            ),
    {
        proof {
            reveal_strlit("gzip");
            reveal_strlit("gz");
            reveal_strlit("lz4");
            reveal_strlit("zstd");
            reveal_strlit("zst");
            assert("gzip"@[0] != "zstd"@[0]);
            assert("gzip"@ != "zstd"@);
            assert("lz4"@[0] != "zst"@[0]);
            assert("lz4"@ != "zst"@);
            assert("gz"@.len() != "lz4"@.len());
        }
        let lowered = lowercase(s);
        let l = lowered.as_str();
        if str_eq(l, "gzip") || str_eq(l, "gz") {
            Result::Ok(CompressionAlgorithm::Gzip)
        } else if str_eq(l, "lz4") {
            Result::Ok(CompressionAlgorithm::Lz4)
        } else if str_eq(l, "zstd") || str_eq(l, "zst") {
            Result::Ok(CompressionAlgorithm::Zstd)
        } else {
            Result::Err(CodecError::UnknownAlgorithm)
        }
    }

    /// What header sniffing concludes: the gzip magic pair, the zstd
    /// magic quadruple, or — failing both — a plausible little-endian
    /// size prefix taken as the size-prepended block format.  Inputs of
    /// fewer than four bytes are inconclusive.
    pub open spec fn detected(data: Seq<u8>) -> Option<CompressionAlgorithm> {
        if data.len() < 4 {
            Option::None
        } else if data[0] == 0x1f && data[1] == 0x8b {
            Option::Some(CompressionAlgorithm::Gzip)
        } else if data[0] == 0x28 && data[1] == 0xb5 && data[2] == 0x2f && data[3] == 0xfd {
            Option::Some(CompressionAlgorithm::Zstd)
        } else if data.len() >= 8 && 0 < le_size_prefix(data) < 100_000_000 {
            Option::Some(CompressionAlgorithm::Lz4)
        } else {
            Option::None
        }
    }

    /// Sniffs a codec from a data prefix.
    pub fn detect_from_header(data: &[u8]) -> (r: Option<CompressionAlgorithm>)
        ensures
            r == CompressionAlgorithm::detected(data@),
    {
        if data.len() < 4 {
            return Option::None;
        }
        if data[0] == 0x1f && data[1] == 0x8b {
            return Option::Some(CompressionAlgorithm::Gzip);
        }
        if data[0] == 0x28 && data[1] == 0xb5 && data[2] == 0x2f && data[3] == 0xfd {
            return Option::Some(CompressionAlgorithm::Zstd);
        }
        if data.len() >= 8 {
            let size: u32 = data[0] as u32 + data[1] as u32 * 256 + data[2] as u32 * 65536 + data[3]
                as u32 * 16777216;
            if 0 < size && size < 100_000_000 {
                return Option::Some(CompressionAlgorithm::Lz4);
            }
        }
        Option::None
    }
}

/// The little-endian 32-bit count at the head of a buffer.
pub open spec fn le_size_prefix(data: Seq<u8>) -> int {
    data[0] + data[1] * 256 + data[2] * 65536 + data[3] * 16777216
}

/// Compresses bytes under the default codec, gzip.  The output opens
/// with the gzip magic pair, so auto-detecting decompression inverts
/// it.
pub fn compress(data: &[u8]) -> (r: Vec<u8>)
    ensures
        r@ == gzip_of(data@),
        gunzip_of(r@) == Option::Some(data@),
        CompressionAlgorithm::detected(r@) == Option::Some(CompressionAlgorithm::Gzip),
        decoded_by(auto_algorithm(r@), r@) == Option::Some(data@),
{
    let r = gzip_compress_raw(data);
    assert(CompressionAlgorithm::detected(r@) == Option::Some(CompressionAlgorithm::Gzip));
    r
}

/// Compresses bytes under the zstd codec.  The output opens with the
/// zstd magic quadruple, so auto-detecting decompression inverts it.
pub fn compress_zstd(data: &[u8]) -> (r: Vec<u8>)
    ensures
        r@ == zstd_of(data@),
        unzstd_of(r@) == Option::Some(data@),
        CompressionAlgorithm::detected(r@) == Option::Some(CompressionAlgorithm::Zstd),
        decoded_by(auto_algorithm(r@), r@) == Option::Some(data@),
{
    let r = zstd_compress_raw(data);
    assert(CompressionAlgorithm::detected(r@) == Option::Some(CompressionAlgorithm::Zstd));
    r
}

/// Compresses bytes under the speed-optimized block codec, which its
/// own decoder inverts.  The block format carries the input length as a
/// 32-bit count, so the input must fit it.
pub fn compress_lz4(data: &[u8]) -> (r: Vec<u8>)
    requires
        data@.len() <= u32::MAX,
    ensures
        r@ == lz4_of(data@),
        unlz4_of(r@) == Option::Some(data@),
        decoded_by(CompressionAlgorithm::Lz4, r@) == Option::Some(data@),
{
    lz4_compress_raw(data)
}

/// What decompression under a selected codec yields.
pub open spec fn decoded_by(algorithm: CompressionAlgorithm, data: Seq<u8>) -> Option<Seq<u8>> {
    match algorithm {
        CompressionAlgorithm::Gzip => gunzip_of(data),
        CompressionAlgorithm::Lz4 => unlz4_of(data),
        CompressionAlgorithm::Zstd => unzstd_of(data),
    }
}

/// The codec auto-detection settles on: what the header shows, or gzip
/// when sniffing is inconclusive.
pub open spec fn auto_algorithm(data: Seq<u8>) -> CompressionAlgorithm {
    match CompressionAlgorithm::detected(data) {
        Option::Some(a) => a,
        Option::None => CompressionAlgorithm::Gzip,
    }
}

/// Decompresses bytes, sniffing the codec from the header and falling
/// back to gzip when detection is inconclusive.  Fails exactly when the
/// input does not decode under the codec so selected.
pub fn decompress(data: &[u8]) -> (r: Result<Vec<u8>, CodecError>)
    ensures
        match r {
            Result::Ok(v) => decoded_by(auto_algorithm(data@), data@) == Option::Some(v@),
            Result::Err(e) => e == CodecError::CorruptData && decoded_by(
                auto_algorithm(data@),
                data@,
            ) is None,
        },
{
    let algorithm = match CompressionAlgorithm::detect_from_header(data) {
        Option::Some(a) => a,
        Option::None => CompressionAlgorithm::Gzip,
    };
    let out = match algorithm {
        CompressionAlgorithm::Gzip => gzip_decompress_raw(data),
        CompressionAlgorithm::Lz4 => lz4_decompress_raw(data),
        CompressionAlgorithm::Zstd => zstd_decompress_raw(data),
    };
    match out {
        Option::Some(v) => Result::Ok(v),
        Option::None => Result::Err(CodecError::CorruptData),
    }
}

/// Decompresses bytes under an explicitly selected codec.
pub fn decompress_with(algorithm: CompressionAlgorithm, data: &[u8]) -> (r: Result<
    Vec<u8>,
    CodecError,
>)
    ensures
        match r {
            Result::Ok(v) => decoded_by(algorithm, data@) == Option::Some(v@),
            Result::Err(e) => e == CodecError::CorruptData && decoded_by(algorithm, data@) is None,
        },
{
    let out = match algorithm {
        CompressionAlgorithm::Gzip => gzip_decompress_raw(data),
        CompressionAlgorithm::Lz4 => lz4_decompress_raw(data),
        CompressionAlgorithm::Zstd => zstd_decompress_raw(data),
    };
    match out {
        Option::Some(v) => Result::Ok(v),
        Option::None => Result::Err(CodecError::CorruptData),
    }
}

} // verus!
