use ars::archive::{deflate_decode_raw, unpack};
use ars::package::{deserialize, Asset, WebComponent};
use ars::parser::{Manifest, Parser};

fn demo() -> Manifest {
    Manifest {
        name: "demo".to_string(),
        version: "0.1.0".to_string(),
        target_url: "/".to_string(),
        assets: vec!["app.js".to_string(), "style.css".to_string()],
        web_components: vec![],
    }
}

#[test]
fn demo_manifest_gives_four_assets_with_the_index_first() {
    let archive = Parser::new(demo()).parse(
        Some(b"<html>".to_vec()),
        Some(vec![0, 0, 1, 0]),
        vec![b"js".to_vec(), b"css".to_vec()],
        1_700_000_000_000,
    );
    let package = deserialize(&deflate_decode_raw(&archive).unwrap()).unwrap();
    assert_eq!(package.assets.len(), 4);
    assert_eq!(package.index, 0);
    assert_eq!(package.target_url, "/");
    assert_eq!(package.name, "demo");
    assert_eq!(package.version, "0.1.0");
    assert_eq!(package.created, 1_700_000_000_000);
    assert_eq!(package.updated, 1_700_000_000_000);
    assert!(package.web_components.is_empty());
    assert_eq!(
        package.assets,
        vec![
            Asset {
                path: "/".to_string(),
                mime: "text/html; charset=utf-8".to_string(),
                bytes: b"<html>".to_vec(),
            },
            Asset {
                path: "favicon.ico".to_string(),
                mime: "image/x-icon".to_string(),
                bytes: vec![0, 0, 1, 0],
            },
            Asset { path: "style.css".to_string(), mime: "text/css".to_string(), bytes: b"css".to_vec() },
            Asset {
                path: "app.js".to_string(),
                mime: "application/javascript".to_string(),
                bytes: b"js".to_vec(),
            },
        ]
    );
}

#[test]
fn without_index_html_the_index_is_minus_one() {
    let archive =
        Parser::new(demo()).parse(None, None, vec![b"js".to_vec(), b"css".to_vec()], 0);
    let package = unpack(&archive).unwrap();
    assert_eq!(package.index, -1);
    assert_eq!(package.assets.len(), 2);
    assert_eq!(package.assets[0].path, "style.css");
    assert_eq!(package.assets[1].path, "app.js");
}

#[test]
fn favicon_alone_does_not_make_an_index() {
    let mut manifest = demo();
    manifest.assets.clear();
    let package = unpack(&Parser::new(manifest).parse(None, Some(vec![1]), vec![], 3)).unwrap();
    assert_eq!(package.index, -1);
    assert_eq!(package.assets.len(), 1);
    assert_eq!(package.assets[0].path, "favicon.ico");
    assert_eq!(package.assets[0].mime, "image/x-icon");
}

#[test]
fn web_components_keep_their_order_and_have_no_locales() {
    let mut manifest = demo();
    manifest.web_components = vec![
        ("x-clock".to_string(), "clock.js".to_string()),
        ("x-cal".to_string(), "cal.js".to_string()),
    ];
    let archive = Parser::new(manifest).parse(None, None, vec![vec![], vec![]], 0);
    let package = unpack(&archive).unwrap();
    assert_eq!(
        package.web_components,
        vec![
            WebComponent {
                name: "x-clock".to_string(),
                path: "clock.js".to_string(),
                locales: vec![],
            },
            WebComponent { name: "x-cal".to_string(), path: "cal.js".to_string(), locales: vec![] },
        ]
    );
}

#[test]
fn mime_type_is_guessed_from_the_extension() {
    for (name, mime) in [
        ("app.js", "application/javascript"),
        ("style.css", "text/css"),
        ("page.html", "text/html"),
        ("dir/logo.PNG", "image/png"),
        ("data.json", "application/json"),
        ("noextension", "application/octet-stream"),
        ("archive.unknownext", "application/octet-stream"),
        ("", "application/octet-stream"),
    ] {
        let asset = Parser::listed_asset(name.to_string(), vec![1, 2]);
        assert_eq!(asset.mime, mime, "name {:?}", name);
        assert_eq!(asset.path, name);
        assert_eq!(asset.bytes, vec![1, 2]);
    }
}

#[test]
fn assemble_takes_the_assets_in_the_order_given() {
    let files = vec![
        Asset { path: "a".to_string(), mime: "x/a".to_string(), bytes: vec![1] },
        Asset { path: "b".to_string(), mime: "x/b".to_string(), bytes: vec![2] },
    ];
    let package = Parser::new(demo()).assemble(Some(b"<p>".to_vec()), None, files.clone(), -7);
    assert_eq!(package.index, 0);
    assert_eq!(package.created, -7);
    assert_eq!(package.updated, -7);
    assert_eq!(package.assets.len(), 3);
    assert_eq!(package.assets[0].path, "/");
    assert_eq!(package.assets[0].mime, "text/html; charset=utf-8");
    assert_eq!(&package.assets[1..], &files[..]);
}

#[test]
fn archive_is_named_after_the_package() {
    let parser = Parser::new(demo());
    assert_eq!(parser.archive_name(), "demo.ars");
    assert_eq!(parser.asset_names(), &vec!["app.js".to_string(), "style.css".to_string()]);
}

#[test]
fn default_manifest_is_empty() {
    let manifest = Manifest::default();
    assert_eq!(manifest.name, "");
    assert!(manifest.assets.is_empty());
    let package = unpack(&Parser::new(manifest).parse(None, None, vec![], 0)).unwrap();
    assert_eq!(package.index, -1);
    assert!(package.assets.is_empty());
}

#[test]
fn manifest_is_well_formed_when_no_component_name_occurs_twice() {
    let mut manifest = demo();
    assert!(manifest.is_well_formed());
    manifest.web_components = vec![("a".to_string(), "x.js".to_string())];
    assert!(manifest.is_well_formed());
    manifest.web_components.push(("b".to_string(), "x.js".to_string()));
    manifest.web_components.push(("c".to_string(), "y.js".to_string()));
    assert!(manifest.is_well_formed());
    manifest.web_components.push(("a".to_string(), "z.js".to_string()));
    assert!(!manifest.is_well_formed());
    manifest.web_components[3].0 = "A".to_string();
    assert!(manifest.is_well_formed());
    manifest.web_components[2].0 = "b".to_string();
    assert!(!manifest.is_well_formed());
    manifest.assets = vec!["same".to_string(), "same".to_string()];
    manifest.web_components.clear();
    assert!(manifest.is_well_formed());
}
