//! The data model of an asset archive.
//!
//! Every type has a view made of mathematical sequences. Contracts across the
//! crate speak of the views, never of the heap values.

use vstd::prelude::*;
use crate::codec::{check_package, put_package, take_package};
use crate::layout::{decoded, encoded, signature};
use crate::roundtrip::lemma_round_trip;

verus! {

/// Why a byte sequence is not a serialized package.
#[derive(Debug, Clone, Copy, PartialEq, Eq, Structural)]
pub enum DeserializeError {
    /// Truncated or corrupted: a length runs past the end of the input, a
    /// text field is not UTF-8, or bytes are left over after the package.
    Malformed,
    /// The input does not start with the signature of this layout.
    Incompatible,
}

/// One file of the bundle.
#[derive(Debug, Clone, PartialEq, Eq, PartialOrd)]
pub struct Asset {
    pub path: String,
    pub mime: String,
    pub bytes: Vec<u8>,
}

/// Per-language data attached to a web component.
#[derive(Debug, Clone, PartialEq, Eq, PartialOrd)]
pub struct Locale {
    pub lang: String,
    pub bytes: Vec<u8>,
}

/// A named web component and its locales.
#[derive(Debug, Clone, PartialEq, Eq, PartialOrd)]
pub struct WebComponent {
    pub name: String,
    pub path: String,
    pub locales: Vec<Locale>,
}

/// The root of an archive: every asset of one build plus its metadata.
///
/// `index` is the position in `assets` of the index document; a negative
/// value means that the bundle has none.
#[derive(Debug, Clone, PartialEq, Eq, PartialOrd)]
pub struct AssetPackage {
    pub name: String,
    pub index: i64,
    pub version: String,
    pub target_url: String,
    pub assets: Vec<Asset>,
    pub created: i64,
    pub updated: i64,
    pub web_components: Vec<WebComponent>,
}

/// What an [`Asset`] stands for in contracts.
pub ghost struct AssetView {
    pub path: Seq<char>,
    pub mime: Seq<char>,
    pub bytes: Seq<u8>,
}

/// What a [`Locale`] stands for in contracts.
pub ghost struct LocaleView {
    pub lang: Seq<char>,
    pub bytes: Seq<u8>,
}

/// What a [`WebComponent`] stands for in contracts.
pub ghost struct WebComponentView {
    pub name: Seq<char>,
    pub path: Seq<char>,
    pub locales: Seq<LocaleView>,
}

/// What an [`AssetPackage`] stands for in contracts.
pub ghost struct PackageView {
    pub name: Seq<char>,
    pub index: i64,
    pub version: Seq<char>,
    pub target_url: Seq<char>,
    pub assets: Seq<AssetView>,
    pub created: i64,
    pub updated: i64,
    pub web_components: Seq<WebComponentView>,
}

/// The views of the elements of a sequence, in order.
pub open spec fn views<T: View>(items: Seq<T>) -> Seq<T::V> {
    Seq::new(items.len(), |i: int| items[i]@)
}

impl View for Asset {
    type V = AssetView;

    open spec fn view(&self) -> AssetView {
        AssetView { path: self.path@, mime: self.mime@, bytes: self.bytes@ }
    }
}

impl View for Locale {
    type V = LocaleView;

    open spec fn view(&self) -> LocaleView {
        LocaleView { lang: self.lang@, bytes: self.bytes@ }
    }
}

impl View for WebComponent {
    type V = WebComponentView;

    open spec fn view(&self) -> WebComponentView {
        WebComponentView {
            name: self.name@,
            path: self.path@,
            locales: views(self.locales@),
        }
    }
}

impl View for AssetPackage {
    type V = PackageView;

    open spec fn view(&self) -> PackageView {
        PackageView {
            name: self.name@,
            index: self.index,
            version: self.version@,
            target_url: self.target_url@,
            assets: views(self.assets@),
            created: self.created,
            updated: self.updated,
            web_components: views(self.web_components@),
        }
    }
}

impl PackageView {
    /// The bundle names one of its assets as the index document.
    pub open spec fn has_index(self) -> bool {
        0 <= self.index < self.assets.len()
    }
}

impl AssetPackage {
    /// The index document and its position, if `index` addresses one.
    pub fn index_asset(&self) -> (found: Option<(usize, &Asset)>)
        ensures
            match found {
                Some((at, asset)) => self@.has_index() && at == self.index && asset@
                    == self@.assets[at as int],
                None => !self@.has_index(),
            },
    {
        if self.index < 0 {
            return None;
        }
        let n = self.assets.len();
        if self.index as u64 >= n as u64 {
            return None;
        }
        let at = self.index as usize;
        Some((at, &self.assets[at]))
    }
}

/// The bytes of a package: the signature, then the fields in declaration
/// order. Reading the result back with [`deserialize`] gives the package.
pub fn serialize(pkg: AssetPackage) -> (bytes: Vec<u8>)
    ensures
        bytes@ == encoded(pkg@),
        pkg@.encodable(),
        decoded(bytes@) == Ok::<PackageView, DeserializeError>(pkg@),
{
    let mut bytes: Vec<u8> = Vec::new();
    bytes.push(0x41);
    bytes.push(0x52);
    bytes.push(0x53);
    bytes.push(0x01);
    assert(bytes@ =~= signature());
    put_package(&mut bytes, &pkg);
    proof {
        lemma_round_trip(pkg@);
    }
    bytes
}

/// Whether the bytes are a serialized package, found without building one:
/// every length is held against the input and every text is tested for
/// UTF-8, and nothing is allocated.
///
/// The answer is the one that [`decoded`] gives: input shorter than the
/// signature is `Malformed`, another signature is `Incompatible`, and after
/// the signature exactly one package must follow with no byte left over.
pub fn validate(data: &[u8]) -> (valid: Result<(), DeserializeError>)
    ensures
        match valid {
            Ok(_) => decoded(data@) is Ok,
            Err(error) => decoded(data@) == Err::<PackageView, DeserializeError>(error),
        },
{
    if data.len() < 4 {
        return Err(DeserializeError::Malformed);
    }
    assert(data@.take(4) =~= seq![data@[0], data@[1], data@[2], data@[3]]);
    if data[0] != 0x41 || data[1] != 0x52 || data[2] != 0x53 || data[3] != 0x01 {
        assert(data@.take(4) != signature()) by {
            if data@.take(4) == signature() {
                assert(signature()[0] == 0x41 && signature()[1] == 0x52 && signature()[2] == 0x53
                    && signature()[3] == 0x01);
            }
        }
        return Err(DeserializeError::Incompatible);
    }
    assert(data@.take(4) =~= signature());
    match check_package(data, 4) {
        Some(end) => {
            if end == data.len() {
                Ok(())
            } else {
                Err(DeserializeError::Malformed)
            }
        },
        None => Err(DeserializeError::Malformed),
    }
}

/// Reads a package from its bytes. The input is validated as a whole
/// first, so that nothing is built from bytes that are no package.
///
/// The answer is the one that [`decoded`] gives, as for [`validate`].
pub fn deserialize(data: &[u8]) -> (package: Result<AssetPackage, DeserializeError>)
    ensures
        match package {
            Ok(package) => decoded(data@) == Ok::<PackageView, DeserializeError>(package@),
            Err(error) => decoded(data@) == Err::<PackageView, DeserializeError>(error),
        },
{
    match validate(data) {
        Ok(_) => {},
        Err(error) => { return Err(error); },
    }
    match take_package(data, 4) {
        Some((package, _)) => Ok(package),
        None => Err(DeserializeError::Malformed),
    }
}

} // verus!
