use std::io::Read;

use ars::embedded_asset::{rewritable, EmbeddedAsset};
use ars::media_type::{essence_of, fold, is_kind};
use ars::package::Asset;

fn gunzip(body: &[u8]) -> Vec<u8> {
    let mut out = Vec::new();
    flate2::read::GzDecoder::new(body).read_to_end(&mut out).unwrap();
    out
}

fn asset(mime: &str, bytes: &[u8]) -> Asset {
    Asset { path: "a".to_string(), mime: mime.to_string(), bytes: bytes.to_vec() }
}

#[test]
fn target_url_is_replaced_in_a_script() {
    let script = asset("application/javascript", b"fetch('/api/foo'); fetch(\"/api/bar\")");
    let made = EmbeddedAsset::new(&script, true, "/api", "https://example.com").unwrap();
    assert_eq!(
        gunzip(made.body()),
        b"fetch('https://example.com/foo'); fetch(\"https://example.com/bar\")".to_vec()
    );
    assert_eq!(made.mime(), "application/javascript");
    assert_eq!(made.status(), 200);
    assert!(made.cache());
}

#[test]
fn api_foo_becomes_the_public_url_and_foo() {
    let page = asset("text/html; charset=utf-8", b"/api/foo");
    let made = EmbeddedAsset::new(&page, false, "/api", "https://example.com").unwrap();
    assert_eq!(gunzip(made.body()), b"https://example.com/foo".to_vec());
    assert!(!made.cache());
}

#[test]
fn target_url_is_replaced_in_a_stylesheet() {
    let sheet = asset("text/css", b"a{background:url(/api/x.png)}");
    let made = EmbeddedAsset::new(&sheet, true, "/api", "//cdn").unwrap();
    assert_eq!(gunzip(made.body()), b"a{background:url(//cdn/x.png)}".to_vec());
}

#[test]
fn replacement_is_not_searched_again() {
    let script = asset("application/javascript", b"/api/api");
    let made = EmbeddedAsset::new(&script, true, "/api", "/api/api").unwrap();
    assert_eq!(gunzip(made.body()), b"/api/api/api/api".to_vec());
}

#[test]
fn matches_do_not_overlap() {
    let script = asset("text/css", b"aaa");
    let made = EmbeddedAsset::new(&script, true, "aa", "b").unwrap();
    assert_eq!(gunzip(made.body()), b"ba".to_vec());
}

#[test]
fn empty_target_url_matches_between_all_characters() {
    let script = asset("text/css", "aé".as_bytes());
    let made = EmbeddedAsset::new(&script, true, "", "-").unwrap();
    assert_eq!(gunzip(made.body()), "-a-é-".as_bytes().to_vec());
    let nothing = asset("text/css", b"");
    let made = EmbeddedAsset::new(&nothing, true, "", "-").unwrap();
    assert_eq!(gunzip(made.body()), b"-".to_vec());
}

#[test]
fn text_without_the_target_url_is_kept() {
    let script = asset("application/javascript", "let x = 'é';".as_bytes());
    let made = EmbeddedAsset::new(&script, true, "/api", "https://example.com").unwrap();
    assert_eq!(gunzip(made.body()), "let x = 'é';".as_bytes().to_vec());
}

#[test]
fn binary_asset_is_unchanged_whatever_the_target_url() {
    let bytes = [0x2f, 0x61, 0x70, 0x69, 0xff, 0x00, 0x2f, 0x61, 0x70, 0x69];
    let image = asset("image/png", &bytes);
    for target_url in ["/api", "/", "", "a"] {
        let made = EmbeddedAsset::new(&image, true, target_url, "https://example.com").unwrap();
        assert_eq!(gunzip(made.body()), bytes.to_vec());
        assert_eq!(made.mime(), "image/png");
    }
}

#[test]
fn html_without_a_charset_is_rewritten() {
    let page = Asset {
        path: "p.html".to_string(),
        mime: "text/html".to_string(),
        bytes: b"/api/x".to_vec(),
    };
    let made = EmbeddedAsset::new(&page, true, "/api", "https://example.com").unwrap();
    assert_eq!(gunzip(made.body()), b"https://example.com/x".to_vec());
    assert_eq!(made.mime(), "text/html");
}

#[test]
fn mime_type_is_judged_without_its_parameters() {
    for mime in [
        "text/html",
        "text/html; charset=utf-8",
        "text/html;charset=utf-8",
        "text/html ; charset=iso-8859-1",
        "text/html \t;",
        "text/html;",
        "text/css",
        "text/css; charset=utf-8",
        "application/javascript",
        "application/javascript; charset=utf-8",
        "text/javascript",
        "text/javascript;x=y;z",
        "TEXT/HTML",
        "Text/Html; Charset=UTF-8",
        "Application/JavaScript",
    ] {
        assert!(rewritable(mime), "mime {:?}", mime);
        let made = EmbeddedAsset::new(&asset(mime, b"/api/x"), true, "/api", "//cdn").unwrap();
        assert_eq!(gunzip(made.body()), b"//cdn/x".to_vec(), "mime {:?}", mime);
        assert_eq!(made.mime(), mime);
    }
}

#[test]
fn other_mime_types_are_not_rewritten() {
    for mime in [
        "",
        ";",
        "; text/html",
        "image/png",
        "image/png; text/html",
        "text/plain",
        "text/htmlx",
        "text/htm",
        "xtext/html",
        " text/html",
        "text/ html",
        "text/html charset=utf-8",
        "tExt/htmL\u{212a}",
        "text\u{ff0f}html",
        "application/json",
        "application/octet-stream",
        "text/html\n",
    ] {
        assert!(!rewritable(mime), "mime {:?}", mime);
        let made = EmbeddedAsset::new(&asset(mime, b"/api/x"), true, "/api", "//cdn").unwrap();
        assert_eq!(gunzip(made.body()), b"/api/x".to_vec(), "mime {:?}", mime);
    }
}

#[test]
fn essence_is_what_stands_before_the_parameters() {
    for (mime, essence) in [
        ("text/html; charset=utf-8", "text/html"),
        ("text/html", "text/html"),
        ("text/html \t ;x", "text/html"),
        ("a b ;c", "a b"),
        ("  ", ""),
        ("", ""),
        (";a", ""),
        (" ;a", ""),
        ("a;b;c", "a"),
        ("é/今 ; x", "é/今"),
        (" x", " x"),
    ] {
        assert_eq!(essence_of(mime), essence, "mime {:?}", mime);
    }
}

#[test]
fn root_target_url_rewrites_nothing() {
    let script = asset("application/javascript", b"fetch('/api/foo')");
    let made = EmbeddedAsset::new(&script, true, "/", "https://example.com").unwrap();
    assert_eq!(gunzip(made.body()), b"fetch('/api/foo')".to_vec());
}

#[test]
fn root_target_url_takes_text_that_is_not_utf8() {
    let script = asset("application/javascript", &[0xff, 0xfe]);
    let made = EmbeddedAsset::new(&script, true, "/", "https://example.com").unwrap();
    assert_eq!(gunzip(made.body()), vec![0xff, 0xfe]);
}

#[test]
fn text_to_rewrite_that_is_not_utf8_is_refused() {
    for mime in [
        "application/javascript",
        "text/javascript",
        "text/css",
        "text/html",
        "text/html; charset=utf-8",
    ] {
        let broken = asset(mime, &[b'a', 0xff, b'b']);
        assert!(EmbeddedAsset::new(&broken, true, "/api", "https://example.com").is_none());
    }
}

#[test]
fn body_is_compressed() {
    let text = vec![b'x'; 1000];
    let made = EmbeddedAsset::new(&asset("text/plain", &text), true, "/", "").unwrap();
    assert_ne!(made.body(), &text[..]);
    assert!(made.body().len() < text.len());
    assert_eq!(&made.body()[..3], &[0x1f, 0x8b, 8]);
    assert_eq!(gunzip(made.body()), text);
}

#[test]
fn json_document_is_compressed_and_cacheable() {
    let made = EmbeddedAsset::json(b"{\"a\":1}");
    assert_eq!(gunzip(made.body()), b"{\"a\":1}".to_vec());
    assert_eq!(made.mime(), "application/json; charset=utf-8");
    assert_eq!(made.status(), 200);
    assert!(made.cache());
}

#[test]
fn not_found_keeps_its_body_as_it_is() {
    let made = EmbeddedAsset::not_found(bytes::Bytes::from(b"gone".to_vec()), "text/x".to_string());
    assert_eq!(made.body(), b"gone");
    assert_eq!(made.mime(), "text/x");
    assert_eq!(made.status(), 404);
    assert!(!made.cache());
}

#[test]
fn clone_shares_the_same_response() {
    let made = EmbeddedAsset::json(b"[]");
    let other = made.clone();
    assert_eq!(other.body(), made.body());
    assert_eq!(other.mime(), made.mime());
    assert_eq!(other.status(), made.status());
    assert_eq!(other.cache(), made.cache());
}

#[test]
fn cacheable_asset_goes_out_with_a_week_of_cache() {
    let made = EmbeddedAsset::new(&asset("image/png", &[1, 2, 3]), true, "/", "").unwrap();
    let body = made.body().to_vec();
    let response = made.into_response();
    assert_eq!(response.status, 200);
    assert_eq!(response.content_encoding, Some("gzip"));
    assert_eq!(response.cache_control, "public, max-age=604800");
    assert_eq!(response.content_type, "image/png");
    assert_eq!(&response.body[..], &body[..]);
}

#[test]
fn asset_that_is_not_cacheable_goes_out_with_no_store() {
    let made =
        EmbeddedAsset::new(&asset("text/html; charset=utf-8", b"<p>"), false, "/", "").unwrap();
    let response = made.into_response();
    assert_eq!(response.status, 200);
    assert_eq!(response.content_encoding, Some("gzip"));
    assert_eq!(
        response.cache_control,
        "no-store, no-cache, max-age=0, must-revalidate, proxy-revalidate"
    );
    assert_eq!(response.content_type, "text/html; charset=utf-8");
}

#[test]
fn not_found_goes_out_without_content_encoding() {
    let made =
        EmbeddedAsset::not_found(bytes::Bytes::from(b"not found".to_vec()), "text/plain".to_string());
    let response = made.into_response();
    assert_eq!(response.status, 404);
    assert_eq!(response.content_encoding, None);
    assert_eq!(
        response.cache_control,
        "no-store, no-cache, max-age=0, must-revalidate, proxy-revalidate"
    );
    assert_eq!(response.content_type, "text/plain");
    assert_eq!(&response.body[..], b"not found");
}

#[test]
fn kind_is_compared_with_capital_letters_made_small() {
    assert!(is_kind("text/css", "text/css"));
    assert!(is_kind("TEXT/Css", "text/css"));
    assert!(is_kind("", ""));
    assert!(!is_kind("text/css", "TEXT/CSS"));
    assert!(!is_kind("text/cs", "text/css"));
    assert!(!is_kind("text/csss", "text/css"));
    assert!(!is_kind("\u{212a}", "k"));
    assert_eq!(fold('A'), 'a');
    assert_eq!(fold('Z'), 'z');
    assert_eq!(fold('a'), 'a');
    assert_eq!(fold('@'), '@');
    assert_eq!(fold('['), '[');
    assert_eq!(fold('É'), 'É');
}
