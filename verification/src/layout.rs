//! The byte layout of a serialized package, as mathematics.
//!
//! A serialized package is the four signature bytes followed by the fields
//! in declaration order. An integer is eight little-endian bytes (two's
//! complement for the signed fields). A byte buffer is its length as an
//! integer, then its bytes. A text is the buffer of its UTF-8 encoding. A
//! sequence is its length, then its elements.
//!
//! Each `enc_*` function gives the bytes of a value; each `parse_*` function
//! reads one value from the front of a byte sequence and hands back what is
//! left, or is `None` where no value stands there.

use vstd::prelude::*;
use vstd::bytes::{spec_u64_from_le_bytes, spec_u64_to_le_bytes};
use vstd::utf8::{decode_utf8, encode_utf8, valid_utf8};
use crate::package::{AssetView, DeserializeError, LocaleView, PackageView, WebComponentView};

verus! {

/// The bytes every serialized package starts with: "ARS" and the revision of the layout.
pub open spec fn signature() -> Seq<u8> {
    seq![0x41u8, 0x52u8, 0x53u8, 0x01u8]
}

/// A length that an eight-byte integer can hold.
pub open spec fn fits(n: nat) -> bool {
    n <= u64::MAX
}

/// An unsigned integer: eight bytes, the lowest first.
pub open spec fn enc_word(x: u64) -> Seq<u8> {
    spec_u64_to_le_bytes(x)
}

/// A signed integer: its two's complement as an unsigned integer.
pub open spec fn enc_int(x: i64) -> Seq<u8> {
    enc_word(x as u64)
}

/// A byte buffer: its length, then its bytes.
pub open spec fn enc_blob(bytes: Seq<u8>) -> Seq<u8> {
    enc_word(bytes.len() as u64) + bytes
}

/// A text: the buffer of its UTF-8 encoding.
#[verifier::opaque]
pub open spec fn enc_text(text: Seq<char>) -> Seq<u8> {
    enc_blob(encode_utf8(text))
}

pub open spec fn parse_word(input: Seq<u8>) -> Option<(u64, Seq<u8>)> {
    if input.len() < 8 {
        None
    } else {
        Some((spec_u64_from_le_bytes(input.take(8)), input.skip(8)))
    }
}

pub open spec fn parse_int(input: Seq<u8>) -> Option<(i64, Seq<u8>)> {
    match parse_word(input) {
        Some((word, rest)) => Some((word as i64, rest)),
        None => None,
    }
}

pub open spec fn parse_blob(input: Seq<u8>) -> Option<(Seq<u8>, Seq<u8>)> {
    match parse_word(input) {
        Some((len, rest)) => if len <= rest.len() {
            Some((rest.take(len as int), rest.skip(len as int)))
        } else {
            None
        },
        None => None,
    }
}

#[verifier::opaque]
pub open spec fn parse_text(input: Seq<u8>) -> Option<(Seq<char>, Seq<u8>)> {
    match parse_blob(input) {
        Some((raw, rest)) => if valid_utf8(raw) {
            Some((decode_utf8(raw), rest))
        } else {
            None
        },
        None => None,
    }
}

/// A text whose encoding is short enough for its length field.
pub open spec fn text_fits(text: Seq<char>) -> bool {
    fits(encode_utf8(text).len())
}

/// Every text and buffer of the asset is short enough for its length field.
pub open spec fn asset_fits(asset: AssetView) -> bool {
    text_fits(asset.path) && text_fits(asset.mime) && fits(asset.bytes.len())
}

pub open spec fn locale_fits(locale: LocaleView) -> bool {
    text_fits(locale.lang) && fits(locale.bytes.len())
}

pub open spec fn component_fits(component: WebComponentView) -> bool {
    &&& text_fits(component.name)
    &&& text_fits(component.path)
    &&& fits(component.locales.len())
    &&& forall|i: int| 0 <= i < component.locales.len() ==> locale_fits(#[trigger] component.locales[i])
}

impl PackageView {
    /// Every length in the package is one that the layout can write down.
    /// This holds of the view of every package in memory.
    pub open spec fn encodable(self) -> bool {
        &&& text_fits(self.name)
        &&& text_fits(self.version)
        &&& text_fits(self.target_url)
        &&& fits(self.assets.len())
        &&& forall|i: int| 0 <= i < self.assets.len() ==> asset_fits(#[trigger] self.assets[i])
        &&& fits(self.web_components.len())
        &&& forall|i: int|
            0 <= i < self.web_components.len() ==> component_fits(#[trigger] self.web_components[i])
    }
}

#[verifier::opaque]
pub open spec fn enc_asset(asset: AssetView) -> Seq<u8> {
    enc_text(asset.path) + (enc_text(asset.mime) + enc_blob(asset.bytes))
}

#[verifier::opaque]
pub open spec fn parse_asset(input: Seq<u8>) -> Option<(AssetView, Seq<u8>)> {
    let path = parse_text(input);
    let mime = parse_text(path.unwrap().1);
    let bytes = parse_blob(mime.unwrap().1);
    if path is Some && mime is Some && bytes is Some {
        Some(
            (
                AssetView { path: path.unwrap().0, mime: mime.unwrap().0, bytes: bytes.unwrap().0 },
                bytes.unwrap().1,
            ),
        )
    } else {
        None
    }
}

/// The assets one after another, without their count.
pub open spec fn enc_asset_run(assets: Seq<AssetView>) -> Seq<u8>
    decreases assets.len(),
{
    if assets.len() == 0 {
        Seq::empty()
    } else {
        enc_asset(assets[0]) + enc_asset_run(assets.drop_first())
    }
}

pub open spec fn parse_asset_run(input: Seq<u8>, count: nat) -> Option<(Seq<AssetView>, Seq<u8>)>
    decreases count,
{
    if count == 0 {
        Some((Seq::empty(), input))
    } else {
        let head = parse_asset(input);
        let tail = parse_asset_run(head.unwrap().1, (count - 1) as nat);
        if head is Some && tail is Some {
            Some((seq![head.unwrap().0] + tail.unwrap().0, tail.unwrap().1))
        } else {
            None
        }
    }
}

pub open spec fn enc_assets(assets: Seq<AssetView>) -> Seq<u8> {
    enc_word(assets.len() as u64) + enc_asset_run(assets)
}

pub open spec fn parse_assets(input: Seq<u8>) -> Option<(Seq<AssetView>, Seq<u8>)> {
    match parse_word(input) {
        Some((count, rest)) => parse_asset_run(rest, count as nat),
        None => None,
    }
}

#[verifier::opaque]
pub open spec fn enc_locale(locale: LocaleView) -> Seq<u8> {
    enc_text(locale.lang) + enc_blob(locale.bytes)
}

#[verifier::opaque]
pub open spec fn parse_locale(input: Seq<u8>) -> Option<(LocaleView, Seq<u8>)> {
    let lang = parse_text(input);
    let bytes = parse_blob(lang.unwrap().1);
    if lang is Some && bytes is Some {
        Some((LocaleView { lang: lang.unwrap().0, bytes: bytes.unwrap().0 }, bytes.unwrap().1))
    } else {
        None
    }
}

/// The locales one after another, without their count.
pub open spec fn enc_locale_run(locales: Seq<LocaleView>) -> Seq<u8>
    decreases locales.len(),
{
    if locales.len() == 0 {
        Seq::empty()
    } else {
        enc_locale(locales[0]) + enc_locale_run(locales.drop_first())
    }
}

pub open spec fn parse_locale_run(input: Seq<u8>, count: nat) -> Option<(Seq<LocaleView>, Seq<u8>)>
    decreases count,
{
    if count == 0 {
        Some((Seq::empty(), input))
    } else {
        let head = parse_locale(input);
        let tail = parse_locale_run(head.unwrap().1, (count - 1) as nat);
        if head is Some && tail is Some {
            Some((seq![head.unwrap().0] + tail.unwrap().0, tail.unwrap().1))
        } else {
            None
        }
    }
}

pub open spec fn enc_locales(locales: Seq<LocaleView>) -> Seq<u8> {
    enc_word(locales.len() as u64) + enc_locale_run(locales)
}

pub open spec fn parse_locales(input: Seq<u8>) -> Option<(Seq<LocaleView>, Seq<u8>)> {
    match parse_word(input) {
        Some((count, rest)) => parse_locale_run(rest, count as nat),
        None => None,
    }
}

#[verifier::opaque]
pub open spec fn enc_component(component: WebComponentView) -> Seq<u8> {
    enc_text(component.name) + (enc_text(component.path) + enc_locales(component.locales))
}

#[verifier::opaque]
pub open spec fn parse_component(input: Seq<u8>) -> Option<(WebComponentView, Seq<u8>)> {
    let name = parse_text(input);
    let path = parse_text(name.unwrap().1);
    let locales = parse_locales(path.unwrap().1);
    if name is Some && path is Some && locales is Some {
        Some(
            (
                WebComponentView {
                    name: name.unwrap().0,
                    path: path.unwrap().0,
                    locales: locales.unwrap().0,
                },
                locales.unwrap().1,
            ),
        )
    } else {
        None
    }
}

/// The components one after another, without their count.
pub open spec fn enc_component_run(components: Seq<WebComponentView>) -> Seq<u8>
    decreases components.len(),
{
    if components.len() == 0 {
        Seq::empty()
    } else {
        enc_component(components[0]) + enc_component_run(components.drop_first())
    }
}

pub open spec fn parse_component_run(input: Seq<u8>, count: nat) -> Option<
    (Seq<WebComponentView>, Seq<u8>),
>
    decreases count,
{
    if count == 0 {
        Some((Seq::empty(), input))
    } else {
        let head = parse_component(input);
        let tail = parse_component_run(head.unwrap().1, (count - 1) as nat);
        if head is Some && tail is Some {
            Some((seq![head.unwrap().0] + tail.unwrap().0, tail.unwrap().1))
        } else {
            None
        }
    }
}

pub open spec fn enc_components(components: Seq<WebComponentView>) -> Seq<u8> {
    enc_word(components.len() as u64) + enc_component_run(components)
}

pub open spec fn parse_components(input: Seq<u8>) -> Option<(Seq<WebComponentView>, Seq<u8>)> {
    match parse_word(input) {
        Some((count, rest)) => parse_component_run(rest, count as nat),
        None => None,
    }
}

/// The fields of a package in declaration order, without the signature.
#[verifier::opaque]
pub open spec fn enc_package(package: PackageView) -> Seq<u8> {
    enc_text(package.name) + (enc_int(package.index) + (enc_text(package.version) + (enc_text(
        package.target_url,
    ) + (enc_assets(package.assets) + (enc_int(package.created) + (enc_int(package.updated)
        + enc_components(package.web_components)))))))
}

#[verifier::opaque]
pub open spec fn parse_package(input: Seq<u8>) -> Option<(PackageView, Seq<u8>)> {
    let name = parse_text(input);
    let index = parse_int(name.unwrap().1);
    let version = parse_text(index.unwrap().1);
    let target_url = parse_text(version.unwrap().1);
    let assets = parse_assets(target_url.unwrap().1);
    let created = parse_int(assets.unwrap().1);
    let updated = parse_int(created.unwrap().1);
    let components = parse_components(updated.unwrap().1);
    if name is Some && index is Some && version is Some && target_url is Some && assets is Some
        && created is Some && updated is Some && components is Some {
        Some(
            (
                PackageView {
                    name: name.unwrap().0,
                    index: index.unwrap().0,
                    version: version.unwrap().0,
                    target_url: target_url.unwrap().0,
                    assets: assets.unwrap().0,
                    created: created.unwrap().0,
                    updated: updated.unwrap().0,
                    web_components: components.unwrap().0,
                },
                components.unwrap().1,
            ),
        )
    } else {
        None
    }
}

/// The bytes of a serialized package.
pub open spec fn encoded(package: PackageView) -> Seq<u8> {
    signature() + enc_package(package)
}

/// What a byte sequence decodes to.
///
/// Fewer than four bytes are malformed. Four bytes other than the signature
/// are incompatible. After the signature exactly one package must follow,
/// with nothing left over.
pub open spec fn decoded(input: Seq<u8>) -> Result<PackageView, DeserializeError> {
    if input.len() < 4 {
        Err(DeserializeError::Malformed)
    } else if input.take(4) != signature() {
        Err(DeserializeError::Incompatible)
    } else {
        match parse_package(input.skip(4)) {
            Some((package, rest)) => if rest.len() == 0 {
                Ok(package)
            } else {
                Err(DeserializeError::Malformed)
            },
            None => Err(DeserializeError::Malformed),
        }
    }
}

} // verus!
