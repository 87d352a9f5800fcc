//! The compression algorithms a destination can be bound to, and the engines
//! that run them.

use vstd::prelude::*;
use crate::error::SnapError;

verus! {

/// The codecs a destination can use for file payloads.
#[derive(Clone, Copy, Debug, PartialEq, Eq, Structural)]
pub enum CompressionType {
    /// Payloads are stored as they are.
    Uncompressed,
    Gzip,
    Zlib,
    Brotli,
    Zstd,
    Lzma,
}

/// `c` with an ASCII capital turned into its small letter.
pub open spec fn lower_char(c: char) -> char {
    if 'A' <= c <= 'Z' {
        ((c as u32) + 32) as char
    } else {
        c
    }
}

/// Whether `input` spells `name` when ASCII capitals count as their small
/// letters.
pub open spec fn spells(input: Seq<char>, name: Seq<char>) -> bool {
    &&& input.len() == name.len()
    &&& forall|i: int| 0 <= i < input.len() ==> lower_char(#[trigger] input[i]) == name[i]
}

/// The algorithm that `input` names, if it names one.
pub open spec fn parsed(input: Seq<char>) -> Option<CompressionType> {
    if spells(input, "none"@) {
        Some(CompressionType::Uncompressed)
    } else if spells(input, "gzip"@) {
        Some(CompressionType::Gzip)
    } else if spells(input, "zlib"@) {
        Some(CompressionType::Zlib)
    } else if spells(input, "brotli"@) {
        Some(CompressionType::Brotli)
    } else if spells(input, "zstd"@) {
        Some(CompressionType::Zstd)
    } else if spells(input, "lzma"@) {
        Some(CompressionType::Lzma)
    } else {
        None
    }
}

/// Compares `input` with `name`, ASCII capitals counting as small letters.
fn spells_name(input: &str, name: &str) -> (b: bool)
    ensures
        b == spells(input@, name@),
{
    let n = input.unicode_len();
    if n != name.unicode_len() {
        return false;
    }
    let mut i: usize = 0;
    while i < n
        invariant
            i <= n,
            n == input@.len(),
            n == name@.len(),
            forall|j: int| 0 <= j < i ==> lower_char(#[trigger] input@[j]) == name@[j],
        decreases n - i,
    {
        let c = input.get_char(i);
        let d = name.get_char(i);
        let same = if 'A' <= c && c <= 'Z' {
            (c as u32) + 32 == d as u32
        } else {
            c == d
        };
        if !same {
            assert(lower_char(input@[i as int]) != name@[i as int]);
            return false;
        }
        i += 1;
    }
    true
}

impl CompressionType {
    /// Reads an algorithm's name: `none`, `gzip`, `zlib`, `brotli`, `zstd` or
    /// `lzma`, in any mix of capitals and small letters.
    pub fn parse(input: &str) -> (r: Option<CompressionType>)
        ensures
            r == parsed(input@),
    {
        if spells_name(input, "none") {
            Some(CompressionType::Uncompressed)
        } else if spells_name(input, "gzip") {
            Some(CompressionType::Gzip)
        } else if spells_name(input, "zlib") {
            Some(CompressionType::Zlib)
        } else if spells_name(input, "brotli") {
            Some(CompressionType::Brotli)
        } else if spells_name(input, "zstd") {
            Some(CompressionType::Zstd)
        } else if spells_name(input, "lzma") {
            Some(CompressionType::Lzma)
        } else {
            None
        }
    }

    /// The name the algorithm is recorded under.
    pub open spec fn spec_name(self) -> Seq<char> {
        match self {
            CompressionType::Uncompressed => "none"@,
            CompressionType::Gzip => "gzip"@,
            CompressionType::Zlib => "zlib"@,
            CompressionType::Brotli => "brotli"@,
            CompressionType::Zstd => "zstd"@,
            CompressionType::Lzma => "lzma"@,
        }
    }

    /// The name the algorithm is recorded under.
    pub fn name(&self) -> (s: &'static str)
        ensures
            s@ == self.spec_name(),
    {
        match self {
            CompressionType::Uncompressed => "none",
            CompressionType::Gzip => "gzip",
            CompressionType::Zlib => "zlib",
            CompressionType::Brotli => "brotli",
            CompressionType::Zstd => "zstd",
            CompressionType::Lzma => "lzma",
        }
    }
}

impl std::str::FromStr for CompressionType {
    type Err = ();

    /// Reads an algorithm's name as `parse` does; a name that is none is an
    /// error without detail.
    fn from_str(input: &str) -> (r: Result<Self, ()>)
        ensures
            match parsed(input@) {
                Some(t) => r == Ok::<CompressionType, ()>(t),
                None => r == Err::<CompressionType, ()>(()),
            },
    {
        match CompressionType::parse(input) {
            Some(t) => Ok(t),
            None => Err(()),
        }
    }
}

/// The effort level each codec is run at.
pub open spec fn level_of(algo: CompressionType) -> u32 {
    match algo {
        CompressionType::Uncompressed | CompressionType::Gzip | CompressionType::Zlib => 6,
        CompressionType::Brotli => 7,
        CompressionType::Zstd => 3,
        CompressionType::Lzma => 7,
    }
}

/// Looks up the effort level for `algo`.
pub fn get_algorithm_levels(algo: &CompressionType) -> (level: u32)
    ensures
        level == level_of(*algo),
{
    match algo {
        CompressionType::Uncompressed | CompressionType::Gzip | CompressionType::Zlib => 6,
        CompressionType::Brotli => 7,
        CompressionType::Zstd => 3,
        CompressionType::Lzma => 7,
    }
}

/// The highest effort level of gzip, zlib and LZMA.
pub const MAX_LEVEL: u32 = 9;

/// The highest effort level of Brotli.
pub const MAX_BROTLI_LEVEL: u32 = 11;

/// The highest effort level of Zstandard.
pub const MAX_ZSTD_LEVEL: u32 = 22;

/// The highest effort level `algo` can be run at; storing as it is takes any.
pub open spec fn max_level(algo: CompressionType) -> u32 {
    match algo {
        CompressionType::Uncompressed => u32::MAX,
        CompressionType::Gzip | CompressionType::Zlib | CompressionType::Lzma => MAX_LEVEL,
        CompressionType::Brotli => MAX_BROTLI_LEVEL,
        CompressionType::Zstd => MAX_ZSTD_LEVEL,
    }
}

/// What gzip makes of `data` at `level`. Stands for what `gzip_encode` returns.
pub uninterp spec fn gzip_compressed(level: u32, data: Seq<u8>) -> Option<Seq<u8>>;

/// What zlib makes of `data` at `level`. Stands for what `zlib_encode` returns.
pub uninterp spec fn zlib_compressed(level: u32, data: Seq<u8>) -> Option<Seq<u8>>;

/// What Brotli makes of `data` at `level`. Stands for what `brotli_encode`
/// returns.
pub uninterp spec fn brotli_compressed(level: u32, data: Seq<u8>) -> Option<Seq<u8>>;

/// What Zstandard makes of `data` at `level`. Stands for what `zstd_encode`
/// returns.
pub uninterp spec fn zstd_compressed(level: u32, data: Seq<u8>) -> Option<Seq<u8>>;

/// What LZMA makes of `data` at `level`, in an xz container. Stands for what
/// `lzma_encode` returns.
pub uninterp spec fn lzma_compressed(level: u32, data: Seq<u8>) -> Option<Seq<u8>>;

/// What a gzip stream decodes to. Stands for what `gzip_decode` returns.
pub uninterp spec fn gzip_decompressed(data: Seq<u8>) -> Option<Seq<u8>>;

/// What a zlib stream decodes to. Stands for what `zlib_decode` returns.
pub uninterp spec fn zlib_decompressed(data: Seq<u8>) -> Option<Seq<u8>>;

/// What a Brotli stream decodes to. Stands for what `brotli_decode` returns.
pub uninterp spec fn brotli_decompressed(data: Seq<u8>) -> Option<Seq<u8>>;

/// What a Zstandard stream decodes to. Stands for what `zstd_decode` returns.
pub uninterp spec fn zstd_decompressed(data: Seq<u8>) -> Option<Seq<u8>>;

/// What an xz stream decodes to. Stands for what `lzma_decode` returns.
pub uninterp spec fn lzma_decompressed(data: Seq<u8>) -> Option<Seq<u8>>;

/// Compresses with gzip.
///
/// Calls `flate2::write::GzEncoder`: `new`, `write_all`, `finish`. The
/// compressor behind it asserts a level of at most 10, so the contract asks
/// for one within the scale of 0 to 9. It names the stream and adds that
/// `flate2::read::GzDecoder` decodes the stream to the data it was made from,
/// which is what a lossless codec is for.
#[verifier::external_body]
fn gzip_encode(level: u32, data: &[u8]) -> (r: Result<Vec<u8>, std::io::Error>)
    requires
        level <= MAX_LEVEL,
    ensures
        r is Ok <==> gzip_compressed(level, data@) is Some,
        r is Ok ==> gzip_compressed(level, data@) == Some(r.unwrap()@),
        r is Ok ==> gzip_decompressed(r.unwrap()@) == Some(data@),
{
    let mut encoder = flate2::write::GzEncoder::new(Vec::new(), flate2::Compression::new(level));
    std::io::Write::write_all(&mut encoder, data)?;
    encoder.finish()
}

/// Compresses with zlib.
///
/// Calls `flate2::write::ZlibEncoder`: `new`, `write_all`, `finish`. The
/// compressor behind it asserts a level of at most 10, so the contract asks
/// for one within the scale of 0 to 9. It names the stream and adds that
/// `flate2::read::ZlibDecoder` decodes the stream to the data it was made
/// from.
#[verifier::external_body]
fn zlib_encode(level: u32, data: &[u8]) -> (r: Result<Vec<u8>, std::io::Error>)
    requires
        level <= MAX_LEVEL,
    ensures
        r is Ok <==> zlib_compressed(level, data@) is Some,
        r is Ok ==> zlib_compressed(level, data@) == Some(r.unwrap()@),
        r is Ok ==> zlib_decompressed(r.unwrap()@) == Some(data@),
{
    let mut encoder = flate2::write::ZlibEncoder::new(
        Vec::new(),
        flate2::Compression::new(level),
    );
    std::io::Write::write_all(&mut encoder, data)?;
    encoder.finish()
}

/// Compresses with Brotli.
///
/// Calls `brotli2::write::BrotliEncoder`: `new`, `write_all`, `finish`. The
/// contract names the stream; it adds that `brotli2::read::BrotliDecoder`
/// decodes the stream to the data it was made from.
#[verifier::external_body]
fn brotli_encode(level: u32, data: &[u8]) -> (r: Result<Vec<u8>, std::io::Error>)
    ensures
        r is Ok <==> brotli_compressed(level, data@) is Some,
        r is Ok ==> brotli_compressed(level, data@) == Some(r.unwrap()@),
        r is Ok ==> brotli_decompressed(r.unwrap()@) == Some(data@),
{
    let mut encoder = brotli2::write::BrotliEncoder::new(Vec::new(), level);
    std::io::Write::write_all(&mut encoder, data)?;
    encoder.finish()
}

/// Compresses with Zstandard.
///
/// Calls `zstd::stream::Encoder`: `new`, `write_all`, `finish`, with a level
/// within Zstandard's scale of up to 22. The contract names the stream; it
/// adds that `zstd::stream::Decoder` decodes the stream to the data it was
/// made from.
#[verifier::external_body]
fn zstd_encode(level: u32, data: &[u8]) -> (r: Result<Vec<u8>, std::io::Error>)
    requires
        level <= MAX_ZSTD_LEVEL,
    ensures
        r is Ok <==> zstd_compressed(level, data@) is Some,
        r is Ok ==> zstd_compressed(level, data@) == Some(r.unwrap()@),
        r is Ok ==> zstd_decompressed(r.unwrap()@) == Some(data@),
{
    let mut encoder = zstd::stream::Encoder::new(Vec::new(), level as i32)?;
    std::io::Write::write_all(&mut encoder, data)?;
    encoder.finish()
}

/// Compresses with LZMA into an xz container.
///
/// Calls `xz2::write::XzEncoder`: `new`, `write_all`, `finish`. `new` takes a
/// preset from 0 to 9 and panics on another, so the contract asks for one. It
/// names the stream and adds that `xz2::read::XzDecoder` decodes the stream to
/// the data it was made from.
#[verifier::external_body]
fn lzma_encode(level: u32, data: &[u8]) -> (r: Result<Vec<u8>, std::io::Error>)
    requires
        level <= MAX_LEVEL,
    ensures
        r is Ok <==> lzma_compressed(level, data@) is Some,
        r is Ok ==> lzma_compressed(level, data@) == Some(r.unwrap()@),
        r is Ok ==> lzma_decompressed(r.unwrap()@) == Some(data@),
{
    let mut encoder = xz2::write::XzEncoder::new(Vec::new(), level);
    std::io::Write::write_all(&mut encoder, data)?;
    encoder.finish()
}

/// Decodes a gzip stream.
///
/// Calls `flate2::read::GzDecoder::new` and `read_to_end`; the contract gives
/// the outcome its name.
#[verifier::external_body]
fn gzip_decode(data: &[u8]) -> (r: Result<Vec<u8>, std::io::Error>)
    ensures
        r is Ok <==> gzip_decompressed(data@) is Some,
        r is Ok ==> gzip_decompressed(data@) == Some(r.unwrap()@),
{
    let mut decoder = flate2::read::GzDecoder::new(data);
    let mut decompressed = Vec::new();
    std::io::Read::read_to_end(&mut decoder, &mut decompressed)?;
    Ok(decompressed)
}

/// Decodes a zlib stream.
///
/// Calls `flate2::read::ZlibDecoder::new` and `read_to_end`; the contract
/// gives the outcome its name.
#[verifier::external_body]
fn zlib_decode(data: &[u8]) -> (r: Result<Vec<u8>, std::io::Error>)
    ensures
        r is Ok <==> zlib_decompressed(data@) is Some,
        r is Ok ==> zlib_decompressed(data@) == Some(r.unwrap()@),
{
    let mut decoder = flate2::read::ZlibDecoder::new(data);
    let mut decompressed = Vec::new();
    std::io::Read::read_to_end(&mut decoder, &mut decompressed)?;
    Ok(decompressed)
}

/// Decodes a Brotli stream.
///
/// Calls `brotli2::read::BrotliDecoder::new` and `read_to_end`; the contract
/// gives the outcome its name.
#[verifier::external_body]
fn brotli_decode(data: &[u8]) -> (r: Result<Vec<u8>, std::io::Error>)
    ensures
        r is Ok <==> brotli_decompressed(data@) is Some,
        r is Ok ==> brotli_decompressed(data@) == Some(r.unwrap()@),
{
    let mut decoder = brotli2::read::BrotliDecoder::new(data);
    let mut decompressed = Vec::new();
    std::io::Read::read_to_end(&mut decoder, &mut decompressed)?;
    Ok(decompressed)
}

/// Decodes a Zstandard stream.
///
/// Calls `zstd::stream::Decoder::new` and `read_to_end`; the contract gives
/// the outcome its name.
#[verifier::external_body]
fn zstd_decode(data: &[u8]) -> (r: Result<Vec<u8>, std::io::Error>)
    ensures
        r is Ok <==> zstd_decompressed(data@) is Some,
        r is Ok ==> zstd_decompressed(data@) == Some(r.unwrap()@),
{
    let mut decoder = zstd::stream::Decoder::new(data)?;
    let mut decompressed = Vec::new();
    std::io::Read::read_to_end(&mut decoder, &mut decompressed)?;
    Ok(decompressed)
}

/// Decodes an xz stream.
///
/// Calls `xz2::read::XzDecoder::new` and `read_to_end`; the contract gives the
/// outcome its name.
#[verifier::external_body]
fn lzma_decode(data: &[u8]) -> (r: Result<Vec<u8>, std::io::Error>)
    ensures
        r is Ok <==> lzma_decompressed(data@) is Some,
        r is Ok ==> lzma_decompressed(data@) == Some(r.unwrap()@),
{
    let mut decoder = xz2::read::XzDecoder::new(data);
    let mut decompressed = Vec::new();
    std::io::Read::read_to_end(&mut decoder, &mut decompressed)?;
    Ok(decompressed)
}

/// A copy of `data`.
pub fn copy_bytes(data: &[u8]) -> (v: Vec<u8>)
    ensures
        v@ == data@,
{
    let mut v: Vec<u8> = Vec::new();
    let mut i: usize = 0;
    while i < data.len()
        invariant
            i <= data@.len(),
            v@ == data@.take(i as int),
        decreases data@.len() - i,
    {
        v.push(data[i]);
        assert(data@.take(i + 1) == data@.take(i as int).push(data@[i as int]));
        i += 1;
    }
    assert(data@.take(data@.len() as int) == data@);
    v
}

/// What `algo` makes of `data` at `level`: `None` where the codec fails.
pub open spec fn compressed(algo: CompressionType, level: u32, data: Seq<u8>) -> Option<Seq<u8>> {
    match algo {
        CompressionType::Uncompressed => Some(data),
        CompressionType::Gzip => gzip_compressed(level, data),
        CompressionType::Zlib => zlib_compressed(level, data),
        CompressionType::Brotli => brotli_compressed(level, data),
        CompressionType::Zstd => zstd_compressed(level, data),
        CompressionType::Lzma => lzma_compressed(level, data),
    }
}

/// What a stream of `algo` decodes to: `None` where it is no such stream.
pub open spec fn decompressed(algo: CompressionType, data: Seq<u8>) -> Option<Seq<u8>> {
    match algo {
        CompressionType::Uncompressed => Some(data),
        CompressionType::Gzip => gzip_decompressed(data),
        CompressionType::Zlib => zlib_decompressed(data),
        CompressionType::Brotli => brotli_decompressed(data),
        CompressionType::Zstd => zstd_decompressed(data),
        CompressionType::Lzma => lzma_decompressed(data),
    }
}

/// An algorithm and the level to run it at.
pub struct CompressionEngine {
    algorithm: CompressionType,
    level: u32,
}

impl CompressionEngine {
    #[verifier::type_invariant]
    spec fn inv(self) -> bool {
        self.level <= max_level(self.algorithm)
    }

    pub closed spec fn algorithm(&self) -> CompressionType {
        self.algorithm
    }

    pub closed spec fn level(&self) -> u32 {
        self.level
    }

    /// An engine for `algo` at `level`, which lies within the algorithm's
    /// scale.
    pub fn new(algo: CompressionType, level: u32) -> (e: Self)
        requires
            level <= max_level(algo),
        ensures
            e.algorithm() == algo,
            e.level() == level,
    {
        Self { algorithm: algo, level }
    }

    /// The engine's algorithm.
    pub fn kind(&self) -> (a: CompressionType)
        ensures
            a == self.algorithm(),
    {
        self.algorithm
    }

    /// Compresses `data`. Whatever comes back decompresses to `data` again.
    pub fn compress(&self, data: &[u8]) -> (r: Result<Vec<u8>, std::io::Error>)
        ensures
            r is Ok <==> compressed(self.algorithm(), self.level(), data@) is Some,
            r matches Ok(c) ==> compressed(self.algorithm(), self.level(), data@) == Some(c@)
                && decompressed(self.algorithm(), c@) == Some(data@),
    {
        proof {
            use_type_invariant(self);
        }
        match self.algorithm {
            CompressionType::Uncompressed => Ok(copy_bytes(data)),
            CompressionType::Gzip => gzip_encode(self.level, data),
            CompressionType::Zlib => zlib_encode(self.level, data),
            CompressionType::Brotli => brotli_encode(self.level, data),
            CompressionType::Zstd => zstd_encode(self.level, data),
            CompressionType::Lzma => lzma_encode(self.level, data),
        }
    }
}

/// An algorithm to decompress with.
pub struct DecompressionEngine {
    algorithm: CompressionType,
}

impl DecompressionEngine {
    pub closed spec fn algorithm(&self) -> CompressionType {
        self.algorithm
    }

    /// An engine that decodes streams of `algo`.
    pub fn new(algo: CompressionType) -> (e: Self)
        ensures
            e.algorithm() == algo,
    {
        Self { algorithm: algo }
    }

    /// Decodes `data`; fails where it is no stream of the engine's algorithm.
    pub fn decompress(&self, data: &[u8]) -> (r: Result<Vec<u8>, std::io::Error>)
        ensures
            r is Ok <==> decompressed(self.algorithm(), data@) is Some,
            r matches Ok(d) ==> decompressed(self.algorithm(), data@) == Some(d@),
    {
        match self.algorithm {
            CompressionType::Uncompressed => Ok(copy_bytes(data)),
            CompressionType::Gzip => gzip_decode(data),
            CompressionType::Zlib => zlib_decode(data),
            CompressionType::Brotli => brotli_decode(data),
            CompressionType::Zstd => zstd_decode(data),
            CompressionType::Lzma => lzma_decode(data),
        }
    }
}

/// What is reported for a name that is no algorithm.
pub open spec fn unknown_algorithm() -> Seq<char> {
    "Defined algorithm choice unavailble"@
}

/// Reads an algorithm's name; a name that is none is a configuration error.
pub fn get_compression_type(comp: String) -> (r: Result<CompressionType, SnapError>)
    ensures
        match parsed(comp@) {
            Some(t) => r matches Ok(a) && a == t,
            None => r matches Err(SnapError::Config(m)) && m@ == unknown_algorithm(),
        },
{
    match CompressionType::parse(comp.as_str()) {
        Some(t) => Ok(t),
        None => Err(SnapError::Config(String::from_str("Defined algorithm choice unavailble"))),
    }
}

/// Builds the compressing engine for a named algorithm, at the algorithm's
/// level.
pub fn build_compress_engine(comp: String) -> (r: Result<CompressionEngine, SnapError>)
    ensures
        match parsed(comp@) {
            Some(t) => r matches Ok(e) && e.algorithm() == t && e.level() == level_of(t),
            None => r matches Err(SnapError::Config(m)) && m@ == unknown_algorithm(),
        },
{
    match get_compression_type(comp) {
        Err(err) => Err(err),
        Ok(algo) => {
            let level = get_algorithm_levels(&algo);
            Ok(CompressionEngine::new(algo, level))
        },
    }
}

/// Builds the decompressing engine for a named algorithm.
pub fn build_decompression_engine(comp: String) -> (r: Result<DecompressionEngine, SnapError>)
    ensures
        match parsed(comp@) {
            Some(t) => r matches Ok(e) && e.algorithm() == t,
            None => r matches Err(SnapError::Config(m)) && m@ == unknown_algorithm(),
        },
{
    match get_compression_type(comp) {
        Err(err) => Err(err),
        Ok(algo) => Ok(DecompressionEngine::new(algo)),
    }
}

} // verus!
