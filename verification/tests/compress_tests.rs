use snapsafe::compress::{
    build_compress_engine, build_decompression_engine, copy_bytes, get_algorithm_levels,
    get_compression_type, CompressionEngine, CompressionType, DecompressionEngine,
};
use snapsafe::error::SnapError;

fn sample() -> Vec<u8> {
    let mut data = Vec::new();
    for i in 0..4000u32 {
        data.extend_from_slice(b"line of text that repeats ");
        data.push((i % 7) as u8);
    }
    data
}

fn round_trip(name: &str) {
    let data = sample();
    let engine = build_compress_engine(name.to_string()).unwrap();
    let packed = engine.compress(&data).unwrap();
    assert!(packed.len() < data.len());
    assert_ne!(packed, data);
    let back = build_decompression_engine(name.to_string()).unwrap();
    assert_eq!(back.decompress(&packed).unwrap(), data);
}

#[test]
fn gzip_round_trip() {
    round_trip("gzip");
}

#[test]
fn zlib_round_trip() {
    round_trip("zlib");
}

#[test]
fn brotli_round_trip() {
    round_trip("brotli");
}

#[test]
fn zstd_round_trip() {
    round_trip("zstd");
}

#[test]
fn lzma_round_trip() {
    round_trip("lzma");
}

#[test]
fn none_copies_the_data() {
    let data = sample();
    let engine = build_compress_engine("none".to_string()).unwrap();
    assert_eq!(engine.compress(&data).unwrap(), data);
    let back = build_decompression_engine("none".to_string()).unwrap();
    assert_eq!(back.decompress(&data).unwrap(), data);
    assert_eq!(copy_bytes(&data), data);
}

#[test]
fn empty_data_round_trips() {
    for algo in [
        CompressionType::Uncompressed,
        CompressionType::Gzip,
        CompressionType::Zlib,
        CompressionType::Brotli,
        CompressionType::Zstd,
        CompressionType::Lzma,
    ] {
        let engine = CompressionEngine::new(algo, get_algorithm_levels(&algo));
        let packed = engine.compress(&[]).unwrap();
        assert_eq!(DecompressionEngine::new(algo).decompress(&packed).unwrap(), Vec::<u8>::new());
        assert_eq!(engine.kind(), algo);
    }
}

#[test]
fn gzip_stream_has_its_magic_number() {
    let engine = CompressionEngine::new(CompressionType::Gzip, 6);
    let packed = engine.compress(b"hello").unwrap();
    assert_eq!(&packed[..2], &[0x1f, 0x8b]);
}

#[test]
fn xz_stream_has_its_magic_number() {
    let engine = CompressionEngine::new(CompressionType::Lzma, 7);
    let packed = engine.compress(b"hello").unwrap();
    assert_eq!(&packed[..6], &[0xfd, b'7', b'z', b'X', b'Z', 0x00]);
}

#[test]
fn zstd_stream_has_its_magic_number() {
    let engine = CompressionEngine::new(CompressionType::Zstd, 3);
    let packed = engine.compress(b"hello").unwrap();
    assert_eq!(&packed[..4], &[0x28, 0xb5, 0x2f, 0xfd]);
}

#[test]
fn compression_is_repeatable() {
    for name in ["gzip", "zlib", "brotli", "zstd", "lzma"] {
        let engine = build_compress_engine(name.to_string()).unwrap();
        assert_eq!(engine.compress(&sample()).unwrap(), engine.compress(&sample()).unwrap());
    }
}

#[test]
fn a_foreign_stream_is_refused() {
    for algo in [
        CompressionType::Gzip,
        CompressionType::Zlib,
        CompressionType::Zstd,
        CompressionType::Lzma,
    ] {
        let engine = DecompressionEngine::new(algo);
        assert!(engine.decompress(b"this is no compressed stream at all").is_err());
    }
}

#[test]
fn names_are_read_in_any_case() {
    assert_eq!(CompressionType::parse("gzip"), Some(CompressionType::Gzip));
    assert_eq!(CompressionType::parse("GZIP"), Some(CompressionType::Gzip));
    assert_eq!(CompressionType::parse("Zlib"), Some(CompressionType::Zlib));
    assert_eq!(CompressionType::parse("bRoTlI"), Some(CompressionType::Brotli));
    assert_eq!(CompressionType::parse("zstd"), Some(CompressionType::Zstd));
    assert_eq!(CompressionType::parse("LZMA"), Some(CompressionType::Lzma));
    assert_eq!(CompressionType::parse("none"), Some(CompressionType::Uncompressed));
    assert_eq!(CompressionType::parse("None"), Some(CompressionType::Uncompressed));
    assert_eq!(CompressionType::parse(""), None);
    assert_eq!(CompressionType::parse("gzi"), None);
    assert_eq!(CompressionType::parse("gzipp"), None);
    assert_eq!(CompressionType::parse("g\u{5a}ip"), Some(CompressionType::Gzip));
    assert_eq!(CompressionType::parse("g\u{7a}ip "), None);
    assert_eq!(CompressionType::parse("lz4"), None);
    assert_eq!("zstd".parse::<CompressionType>(), Ok(CompressionType::Zstd));
    assert_eq!("rar".parse::<CompressionType>(), Err(()));
}

#[test]
fn names_are_written_in_small_letters() {
    assert_eq!(CompressionType::Uncompressed.name(), "none");
    assert_eq!(CompressionType::Gzip.name(), "gzip");
    assert_eq!(CompressionType::Zlib.name(), "zlib");
    assert_eq!(CompressionType::Brotli.name(), "brotli");
    assert_eq!(CompressionType::Zstd.name(), "zstd");
    assert_eq!(CompressionType::Lzma.name(), "lzma");
}

#[test]
fn each_algorithm_has_its_level() {
    assert_eq!(get_algorithm_levels(&CompressionType::Uncompressed), 6);
    assert_eq!(get_algorithm_levels(&CompressionType::Gzip), 6);
    assert_eq!(get_algorithm_levels(&CompressionType::Zlib), 6);
    assert_eq!(get_algorithm_levels(&CompressionType::Brotli), 7);
    assert_eq!(get_algorithm_levels(&CompressionType::Zstd), 3);
    assert_eq!(get_algorithm_levels(&CompressionType::Lzma), 7);
}

#[test]
fn an_unknown_name_is_a_configuration_error() {
    match get_compression_type("rar".to_string()) {
        Err(SnapError::Config(m)) => assert_eq!(m, "Defined algorithm choice unavailble"),
        _ => panic!("expected a configuration error"),
    }
    assert!(matches!(build_compress_engine("rar".to_string()), Err(SnapError::Config(_))));
    assert!(matches!(build_decompression_engine("".to_string()), Err(SnapError::Config(_))));
    assert_eq!(get_compression_type("Brotli".to_string()).unwrap(), CompressionType::Brotli);
}
