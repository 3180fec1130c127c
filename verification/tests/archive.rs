use std::io::Read;

use ars::archive::{deflate_decode_raw, deflate_encode_raw, pack, unpack, BuildError};
use ars::package::{serialize, Asset, AssetPackage, DeserializeError, Locale, WebComponent};

fn sample() -> AssetPackage {
    AssetPackage {
        name: "demo".to_string(),
        index: 0,
        version: "0.3.1".to_string(),
        target_url: "/".to_string(),
        assets: vec![Asset {
            path: "/".to_string(),
            mime: "text/html; charset=utf-8".to_string(),
            bytes: b"<html><body>hello hello hello hello</body></html>".to_vec(),
        }],
        created: 12,
        updated: 12,
        web_components: vec![WebComponent {
            name: "x-a".to_string(),
            path: "a.js".to_string(),
            locales: vec![Locale { lang: "de".to_string(), bytes: vec![1, 2, 3] }],
        }],
    }
}

#[test]
fn deflate_round_trips() {
    let raw = b"aaaaaaaaaaaaaaaaaaaaaaaaaaaaaaaaaaaaaaaaaaaaaaaaaaaaaaaaaaaaaaaa".to_vec();
    let compressed = deflate_encode_raw(&raw);
    assert_ne!(compressed, raw);
    assert!(compressed.len() < raw.len());
    assert_eq!(deflate_decode_raw(&compressed), Some(raw));
}

#[test]
fn deflate_of_nothing_round_trips() {
    let compressed = deflate_encode_raw(&[]);
    assert!(!compressed.is_empty());
    assert_eq!(deflate_decode_raw(&compressed), Some(vec![]));
}

#[test]
fn deflate_output_is_a_raw_deflate_stream() {
    let raw = b"one two three one two three".to_vec();
    let compressed = deflate_encode_raw(&raw);
    let mut out = Vec::new();
    flate2::read::DeflateDecoder::new(&compressed[..]).read_to_end(&mut out).unwrap();
    assert_eq!(out, raw);
}

#[test]
fn deflate_is_a_function_of_its_input() {
    let raw = b"the same bytes in, the same bytes out".to_vec();
    assert_eq!(deflate_encode_raw(&raw), deflate_encode_raw(&raw));
}

#[test]
fn corrupt_stream_does_not_inflate() {
    assert_eq!(deflate_decode_raw(&[0xff, 0xff, 0xff, 0xff]), None);
}

#[test]
fn empty_stream_does_not_inflate() {
    assert_eq!(deflate_decode_raw(&[]), None);
}

#[test]
fn pack_then_unpack_gives_the_package_back() {
    let archive = pack(sample());
    assert_eq!(unpack(&archive), Ok(sample()));
}

#[test]
fn pack_is_deflate_of_serialize() {
    assert_eq!(pack(sample()), deflate_encode_raw(&serialize(sample())));
}

#[test]
fn unpack_reports_a_stream_that_does_not_inflate() {
    assert_eq!(unpack(&[0xff, 0xff, 0xff, 0xff]), Err(BuildError::Inflate));
}

#[test]
fn unpack_reports_a_payload_that_is_no_package() {
    let archive = deflate_encode_raw(b"ARS");
    assert_eq!(unpack(&archive), Err(BuildError::Decode(DeserializeError::Malformed)));
    let archive = deflate_encode_raw(b"not an archive");
    assert_eq!(unpack(&archive), Err(BuildError::Decode(DeserializeError::Incompatible)));
}

#[test]
fn truncated_archive_gives_no_package() {
    let archive = pack(sample());
    for keep in 0..archive.len() {
        assert!(unpack(&archive[..keep]).is_err(), "kept {}", keep);
    }
}

#[test]
fn cut_stream_does_not_inflate() {
    for n in 0..120usize {
        let raw: Vec<u8> = (0..n).map(|i| ((i * 7 + n * 13) % 251) as u8).collect();
        let compressed = deflate_encode_raw(&raw);
        assert_eq!(deflate_decode_raw(&compressed), Some(raw));
        for keep in 0..compressed.len() {
            assert_eq!(deflate_decode_raw(&compressed[..keep]), None, "{} of input {}", keep, n);
        }
    }
}
