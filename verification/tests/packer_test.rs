use std::io::Read;

use fastlog::plugin::file_split::Packer;
use fastlog::plugin::packer::gz_path;
use fastlog::plugin::packer::GZipPacker;
use fastlog::plugin::packer::LogPacker;

#[test]
fn test_gz_path_rewrites_extension() {
    assert_eq!(gz_path("dir/temp2024.log"), "dir/temp2024.gz");
    assert_eq!(gz_path("plain"), "plain.gz");
}

#[test]
fn test_gzip_pack_round_trip() {
    let payload: Vec<u8> = std::iter::repeat(b'x').take(500).collect();
    let packer = GZipPacker {};
    let outcome = packer.do_pack(&payload, "dir/temp-old.log").unwrap();
    assert!(outcome.remove_log_file);
    let (path, packed) = outcome.output.unwrap();
    assert_eq!(path, "dir/temp-old.gz");
    let mut decoder = flate2::read::GzDecoder::new(packed.as_slice());
    let mut unpacked = Vec::new();
    decoder.read_to_end(&mut unpacked).unwrap();
    assert_eq!(unpacked, payload);
}

#[test]
fn test_noop_packer_keeps_source() {
    let packer = LogPacker {};
    let outcome = packer.do_pack(&vec![1u8, 2, 3], "dir/temp-old.log").unwrap();
    assert!(!outcome.remove_log_file);
    assert!(outcome.output.is_none());
}

#[test]
fn test_pack_names() {
    assert_eq!(LogPacker {}.pack_name(), "log");
    assert_eq!(GZipPacker {}.pack_name(), "gz");
}
