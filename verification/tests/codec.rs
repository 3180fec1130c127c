use ars::package::{
    deserialize, serialize, validate, Asset, AssetPackage, DeserializeError, Locale, WebComponent,
};

fn sample() -> AssetPackage {
    AssetPackage {
        name: "demo".to_string(),
        index: 0,
        version: "1.0.0".to_string(),
        target_url: "/api".to_string(),
        assets: vec![
            Asset {
                path: "/".to_string(),
                mime: "text/html; charset=utf-8".to_string(),
                bytes: b"<html>\xc3\xa9</html>".to_vec(),
            },
            Asset {
                path: "logo.png".to_string(),
                mime: "image/png".to_string(),
                bytes: vec![0x89, 0x50, 0x4e, 0x47, 0x00, 0xff],
            },
            Asset { path: "empty.bin".to_string(), mime: String::new(), bytes: vec![] },
        ],
        created: 1_700_000_000_000,
        updated: -5,
        web_components: vec![
            WebComponent {
                name: "x-clock".to_string(),
                path: "clock.js".to_string(),
                locales: vec![
                    Locale { lang: "en".to_string(), bytes: b"{\"now\":\"now\"}".to_vec() },
                    Locale { lang: "ja".to_string(), bytes: "今".as_bytes().to_vec() },
                ],
            },
            WebComponent { name: "x-bare".to_string(), path: String::new(), locales: vec![] },
        ],
    }
}

fn empty_package() -> AssetPackage {
    AssetPackage {
        name: String::new(),
        index: -1,
        version: String::new(),
        target_url: String::new(),
        assets: vec![],
        created: 0,
        updated: 0,
        web_components: vec![],
    }
}

#[test]
fn serialize_then_deserialize_gives_the_package_back() {
    let bytes = serialize(sample());
    assert_eq!(deserialize(&bytes), Ok(sample()));
}

#[test]
fn empty_package_round_trips() {
    let bytes = serialize(empty_package());
    assert_eq!(deserialize(&bytes), Ok(empty_package()));
}

#[test]
fn empty_package_has_the_documented_bytes() {
    let mut expected = vec![0x41, 0x52, 0x53, 0x01];
    // name: length 0
    expected.extend_from_slice(&[0; 8]);
    // index: -1 in two's complement
    expected.extend_from_slice(&[0xff; 8]);
    // version, target_url: length 0
    expected.extend_from_slice(&[0; 16]);
    // assets: count 0; created, updated: 0; web_components: count 0
    expected.extend_from_slice(&[0; 32]);
    assert_eq!(serialize(empty_package()), expected);
}

#[test]
fn fields_are_written_in_order_with_little_endian_lengths() {
    let package = AssetPackage {
        name: "ab".to_string(),
        index: 258,
        version: "é".to_string(),
        target_url: "/".to_string(),
        assets: vec![Asset {
            path: "p".to_string(),
            mime: "m".to_string(),
            bytes: vec![7, 8, 9],
        }],
        created: 1,
        updated: 2,
        web_components: vec![WebComponent {
            name: "n".to_string(),
            path: "q".to_string(),
            locales: vec![Locale { lang: "l".to_string(), bytes: vec![5] }],
        }],
    };
    let expected: Vec<u8> = vec![
        0x41, 0x52, 0x53, 0x01, // signature
        2, 0, 0, 0, 0, 0, 0, 0, b'a', b'b', // name
        2, 1, 0, 0, 0, 0, 0, 0, // index
        2, 0, 0, 0, 0, 0, 0, 0, 0xc3, 0xa9, // version
        1, 0, 0, 0, 0, 0, 0, 0, b'/', // target_url
        1, 0, 0, 0, 0, 0, 0, 0, // number of assets
        1, 0, 0, 0, 0, 0, 0, 0, b'p', // path
        1, 0, 0, 0, 0, 0, 0, 0, b'm', // mime
        3, 0, 0, 0, 0, 0, 0, 0, 7, 8, 9, // bytes
        1, 0, 0, 0, 0, 0, 0, 0, // created
        2, 0, 0, 0, 0, 0, 0, 0, // updated
        1, 0, 0, 0, 0, 0, 0, 0, // number of web components
        1, 0, 0, 0, 0, 0, 0, 0, b'n', // name
        1, 0, 0, 0, 0, 0, 0, 0, b'q', // path
        1, 0, 0, 0, 0, 0, 0, 0, // number of locales
        1, 0, 0, 0, 0, 0, 0, 0, b'l', // lang
        1, 0, 0, 0, 0, 0, 0, 0, 5, // bytes
    ];
    assert_eq!(serialize(package.clone()), expected);
    assert_eq!(deserialize(&expected), Ok(package));
}

#[test]
fn extreme_integers_round_trip() {
    let mut package = empty_package();
    package.index = i64::MIN;
    package.created = i64::MAX;
    package.updated = -1;
    let bytes = serialize(package.clone());
    assert_eq!(deserialize(&bytes), Ok(package));
}

#[test]
fn every_truncation_is_malformed() {
    let bytes = serialize(sample());
    for keep in 0..bytes.len() {
        assert_eq!(deserialize(&bytes[..keep]), Err(DeserializeError::Malformed), "kept {}", keep);
    }
}

#[test]
fn empty_input_is_malformed() {
    assert_eq!(deserialize(&[]), Err(DeserializeError::Malformed));
}

#[test]
fn three_bytes_of_signature_are_malformed() {
    assert_eq!(deserialize(&[0x41, 0x52, 0x53]), Err(DeserializeError::Malformed));
}

#[test]
fn another_signature_is_incompatible() {
    let mut bytes = serialize(sample());
    bytes[3] = 0x02;
    assert_eq!(deserialize(&bytes), Err(DeserializeError::Incompatible));
    assert_eq!(deserialize(b"PK\x03\x04 and more"), Err(DeserializeError::Incompatible));
    assert_eq!(deserialize(&[0, 0, 0, 0]), Err(DeserializeError::Incompatible));
}

#[test]
fn signature_alone_is_malformed() {
    assert_eq!(deserialize(&[0x41, 0x52, 0x53, 0x01]), Err(DeserializeError::Malformed));
}

#[test]
fn bytes_left_over_are_malformed() {
    let mut bytes = serialize(sample());
    bytes.push(0);
    assert_eq!(deserialize(&bytes), Err(DeserializeError::Malformed));
}

#[test]
fn text_that_is_not_utf8_is_malformed() {
    let mut package = empty_package();
    package.name = "a".to_string();
    let mut bytes = serialize(package);
    // the one byte of the name, behind the signature and the length
    assert_eq!(bytes[12], b'a');
    bytes[12] = 0xff;
    assert_eq!(deserialize(&bytes), Err(DeserializeError::Malformed));
}

#[test]
fn length_past_the_end_is_malformed() {
    let mut bytes = serialize(empty_package());
    // the length of the name
    bytes[4] = 1;
    assert_eq!(deserialize(&bytes), Err(DeserializeError::Malformed));
    for at in 4..12 {
        bytes[at] = 0xff;
    }
    assert_eq!(deserialize(&bytes), Err(DeserializeError::Malformed));
}

#[test]
fn count_past_the_end_is_malformed() {
    let mut bytes = serialize(empty_package());
    // the number of assets: behind signature, name, index, version, target_url
    let at = 4 + 8 + 8 + 8 + 8;
    for i in at..at + 8 {
        bytes[i] = 0xff;
    }
    assert_eq!(deserialize(&bytes), Err(DeserializeError::Malformed));
}

#[test]
fn index_need_not_address_an_asset_to_be_decoded() {
    let mut package = sample();
    package.index = 17;
    let bytes = serialize(package.clone());
    assert_eq!(deserialize(&bytes), Ok(package));
}

#[test]
fn index_asset_is_found_by_position() {
    let package = sample();
    let (at, asset) = package.index_asset().unwrap();
    assert_eq!(at, 0);
    assert_eq!(asset.path, "/");
    let mut other = sample();
    other.index = 2;
    assert_eq!(other.index_asset().unwrap().1.path, "empty.bin");
    other.index = 3;
    assert!(other.index_asset().is_none());
    other.index = -1;
    assert!(other.index_asset().is_none());
    other.index = i64::MIN;
    assert!(other.index_asset().is_none());
}

#[test]
fn validate_accepts_what_serialize_writes() {
    assert_eq!(validate(&serialize(sample())), Ok(()));
    assert_eq!(validate(&serialize(empty_package())), Ok(()));
}

#[test]
fn validate_answers_as_deserialize_does() {
    let bytes = serialize(sample());
    for keep in 0..bytes.len() {
        assert_eq!(validate(&bytes[..keep]), Err(DeserializeError::Malformed), "kept {}", keep);
    }
    let mut longer = bytes.clone();
    longer.push(7);
    assert_eq!(validate(&longer), Err(DeserializeError::Malformed));
    let mut other = bytes.clone();
    other[0] = b'B';
    assert_eq!(validate(&other), Err(DeserializeError::Incompatible));
    for at in 4..bytes.len() {
        let mut flipped = bytes.clone();
        flipped[at] ^= 0x80;
        assert_eq!(validate(&flipped).err(), deserialize(&flipped).err(), "flipped {}", at);
    }
}

#[test]
fn packages_are_ordered_field_by_field() {
    let mut less = sample();
    let mut more = sample();
    assert!(less <= more);
    more.name = "demo2".to_string();
    assert!(less < more);
    less.name = "demo2".to_string();
    less.index = -1;
    assert!(less < more);
    assert!(sample().assets[2] < sample().assets[1]);
    assert!(sample().web_components[1] < sample().web_components[0]);
}
