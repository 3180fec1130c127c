//! An asset in its ready-to-serve form: rewritten, gzip-compressed, with
//! the HTTP metadata that goes out with it.

use std::io::Write;
use bytes::Bytes;
use vstd::prelude::*;
use vstd::utf8::{decode_utf8, encode_utf8, valid_utf8};
use crate::media_type::{
    essence, essence_of, is_blank, is_kind, lemma_essence_ignores_parameters, lowered,
};
use crate::package::{Asset, AssetView};
use crate::text::{replace_all, replaced, same_text, str_from_utf8};

verus! {

/// `bytes::Bytes`, a byte buffer that is shared by its clones and never
/// changes. Nothing of its inside is known here but what [`buffer_bytes`] names.
#[verifier::external_type_specification]
#[verifier::external_body]
pub struct ExBytes(bytes::Bytes);

/// The bytes that a shared buffer holds.
pub uninterp spec fn buffer_bytes(buffer: Bytes) -> Seq<u8>;

/// `Bytes::from(Vec<u8>)`: the buffer takes the vector over as it is.
#[verifier::external_body]
pub(crate) fn buffer_from_vec(data: Vec<u8>) -> (buffer: Bytes)
    ensures
        buffer_bytes(buffer) == data@,
{
    Bytes::from(data)
}

/// `Bytes::clone`: another handle on the same bytes.
#[verifier::external_body]
pub(crate) fn buffer_share(buffer: &Bytes) -> (other: Bytes)
    ensures
        buffer_bytes(other) == buffer_bytes(*buffer),
{
    buffer.clone()
}

/// `Bytes::as_ref`: the bytes of the buffer as a slice.
#[verifier::external_body]
pub(crate) fn buffer_slice(buffer: &Bytes) -> (data: &[u8])
    ensures
        data@ == buffer_bytes(*buffer),
{
    buffer.as_ref()
}

/// What `flate2`'s gzip encoder writes for these bytes at its default
/// level, with the header it writes when none is configured.
pub uninterp spec fn gzipped(raw: Seq<u8>) -> Seq<u8>;

/// `flate2::write::GzEncoder` at `Compression::default()`, fed the whole
/// input and finished.
#[verifier::external_body]
fn gzip_encode_raw(base_raw: &[u8]) -> (compressed: Vec<u8>)
    ensures
        compressed@ == gzipped(base_raw@),
{
    let mut e = flate2::write::GzEncoder::new(Vec::new(), flate2::Compression::default());
    e.write_all(base_raw).unwrap();
    e.finish().unwrap()
}

/// A response that is ready to be sent.
pub struct EmbeddedAsset {
    body: Bytes,
    mime: String,
    status: u16,
    cache: bool,
}

/// What an [`EmbeddedAsset`] stands for in contracts.
pub ghost struct PreparedView {
    pub body: Seq<u8>,
    pub mime: Seq<char>,
    pub status: u16,
    pub cache: bool,
}

impl View for EmbeddedAsset {
    type V = PreparedView;

    closed spec fn view(&self) -> PreparedView {
        PreparedView {
            body: buffer_bytes(self.body),
            mime: self.mime@,
            status: self.status,
            cache: self.cache,
        }
    }
}

/// The status line and headers of a response, and its body.
pub struct Response {
    pub status: u16,
    pub content_encoding: Option<&'static str>,
    pub cache_control: &'static str,
    pub content_type: String,
    pub body: Bytes,
}

/// What a [`Response`] stands for in contracts.
pub ghost struct ResponseView {
    pub status: u16,
    pub content_encoding: Option<Seq<char>>,
    pub cache_control: Seq<char>,
    pub content_type: Seq<char>,
    pub body: Seq<u8>,
}

impl View for Response {
    type V = ResponseView;

    open spec fn view(&self) -> ResponseView {
        ResponseView {
            status: self.status,
            content_encoding: match self.content_encoding {
                Some(encoding) => Some(encoding@),
                None => None,
            },
            cache_control: self.cache_control@,
            content_type: self.content_type@,
            body: buffer_bytes(self.body),
        }
    }
}

/// The response that carries a prepared asset.
///
/// The body goes out as stored. A body with status 200 is marked as gzip;
/// the not-found text is not compressed and carries no such mark. A
/// cacheable asset may be kept for a week, any other must not be stored.
/// The content type is the stored mime type.
pub open spec fn response_of(asset: PreparedView) -> ResponseView {
    ResponseView {
        status: asset.status,
        content_encoding: if asset.status == 200 {
            Some("gzip"@)
        } else {
            None
        },
        cache_control: if asset.cache {
            "public, max-age=604800"@
        } else {
            "no-store, no-cache, max-age=0, must-revalidate, proxy-revalidate"@
        },
        content_type: asset.mime,
        body: asset.body,
    }
}

/// Whether an asset of this mime type is a text in which the target URL is
/// replaced: a script, a stylesheet or an HTML document.
///
/// The mime type is judged by its essence, read without regard to the case
/// of its letters, so a parameter such as a charset makes no difference.
/// Scripts are `application/javascript` and `text/javascript`,
/// stylesheets `text/css`, HTML documents `text/html`.
pub open spec fn is_rewritable(mime: Seq<char>) -> bool {
    let kind = lowered(essence(mime));
    kind == "application/javascript"@ || kind == "text/javascript"@ || kind == "text/css"@
        || kind == "text/html"@
}

/// Whether an asset of this mime type is a text to rewrite.
pub fn rewritable(mime: &str) -> (answer: bool)
    ensures
        answer == is_rewritable(mime@),
{
    let kind = essence_of(mime);
    is_kind(kind, "application/javascript") || is_kind(kind, "text/javascript") || is_kind(
        kind,
        "text/css",
    ) || is_kind(kind, "text/html")
}

/// The bytes of an asset that are compressed and served.
///
/// An asset of a rewritable mime type is decoded as UTF-8 and every
/// occurrence of `target_url` in it is replaced by `public_url`, unless
/// `target_url` is the root path `/`, for which nothing is replaced. There
/// are no such bytes where the text to rewrite is not UTF-8. The bytes of
/// any other asset are served as they are.
pub open spec fn served_bytes(
    asset: AssetView,
    target_url: Seq<char>,
    public_url: Seq<char>,
) -> Option<Seq<u8>> {
    if is_rewritable(asset.mime) && target_url != "/"@ {
        if valid_utf8(asset.bytes) {
            Some(encode_utf8(replaced(decode_utf8(asset.bytes), target_url, public_url)))
        } else {
            None
        }
    } else {
        Some(asset.bytes)
    }
}

/// The ready-to-serve form of an asset.
pub open spec fn prepared(
    asset: AssetView,
    cache: bool,
    target_url: Seq<char>,
    public_url: Seq<char>,
) -> Option<PreparedView> {
    match served_bytes(asset, target_url, public_url) {
        Some(bytes) => Some(
            PreparedView { body: gzipped(bytes), mime: asset.mime, status: 200, cache },
        ),
        None => None,
    }
}

/// The auxiliary JSON document in its ready-to-serve form.
pub open spec fn prepared_json(document: Seq<u8>) -> PreparedView {
    PreparedView {
        body: gzipped(document),
        mime: "application/json; charset=utf-8"@,
        status: 200,
        cache: true,
    }
}

impl Clone for EmbeddedAsset {
    fn clone(&self) -> (other: Self)
        ensures
            other@ == self@,
    {
        EmbeddedAsset {
            body: buffer_share(&self.body),
            mime: self.mime.clone(),
            status: self.status,
            cache: self.cache,
        }
    }
}

impl EmbeddedAsset {
    /// Prepares an asset: `None` exactly where it is a text to rewrite that
    /// is not UTF-8.
    pub fn new(asset: &Asset, cache: bool, target_url: &str, public_url: &str) -> (made: Option<
        Self,
    >)
        ensures
            match made {
                Some(made) => prepared(asset@, cache, target_url@, public_url@) == Some(made@),
                None => prepared(asset@, cache, target_url@, public_url@) is None,
            },
    {
        let is_root = same_text(target_url, "/");
        let body = if rewritable(asset.mime.as_str()) && !is_root {
            match str_from_utf8(asset.bytes.as_slice()) {
                Some(text) => {
                    let next_asset = replace_all(text, target_url, public_url);
                    buffer_from_vec(gzip_encode_raw(next_asset.as_str().as_bytes()))
                },
                None => { return None; },
            }
        } else {
            buffer_from_vec(gzip_encode_raw(asset.bytes.as_slice()))
        };
        Some(EmbeddedAsset { body, mime: asset.mime.clone(), status: 200, cache })
    }

    /// Prepares a JSON document that was built apart from the archive.
    pub fn json(document: &[u8]) -> (made: Self)
        ensures
            made@ == prepared_json(document@),
    {
        EmbeddedAsset {
            body: buffer_from_vec(gzip_encode_raw(document)),
            mime: "application/json; charset=utf-8".to_owned(),
            status: 200,
            cache: true,
        }
    }

    /// The response for a path that the store does not hold.
    pub fn not_found(body: Bytes, mime: String) -> (made: Self)
        ensures
            made@ == (PreparedView {
                body: buffer_bytes(body),
                mime: mime@,
                status: 404,
                cache: false,
            }),
    {
        EmbeddedAsset { status: 404, body, mime, cache: false }
    }

    /// The stored body: compressed, unless this is the not-found response.
    pub fn body(&self) -> (data: &[u8])
        ensures
            data@ == self@.body,
    {
        buffer_slice(&self.body)
    }

    pub fn mime(&self) -> (mime: &str)
        ensures
            mime@ == self@.mime,
    {
        self.mime.as_str()
    }

    pub fn status(&self) -> (status: u16)
        ensures
            status == self@.status,
    {
        self.status
    }

    /// Whether a client may keep the response.
    pub fn cache(&self) -> (cache: bool)
        ensures
            cache == self@.cache,
    {
        self.cache
    }

    /// The status, the headers and the body to send for this asset.
    pub fn into_response(self) -> (response: Response)
        ensures
            response@ == response_of(self@),
    {
        let content_encoding = if self.status == 200 {
            Some("gzip")
        } else {
            None
        };
        let cache_control = if self.cache {
            "public, max-age=604800"
        } else {
            "no-store, no-cache, max-age=0, must-revalidate, proxy-revalidate"
        };
        Response {
            status: self.status,
            content_encoding,
            cache_control,
            content_type: self.mime,
            body: self.body,
        }
    }
}

/// The bytes of an asset that is no text to rewrite are served as they
/// are, whatever the target URL and the public URL.
pub proof fn lemma_binary_unchanged(asset: AssetView, target_url: Seq<char>, public_url: Seq<char>)
    requires
        !is_rewritable(asset.mime),
    ensures
        served_bytes(asset, target_url, public_url) == Some(asset.bytes),
{
}

/// With the root path as target URL nothing is rewritten.
pub proof fn lemma_root_target_unchanged(asset: AssetView, public_url: Seq<char>)
    ensures
        served_bytes(asset, "/"@, public_url) == Some(asset.bytes),
{
}

/// An HTML document is a text to rewrite, with a charset or without one.
pub proof fn lemma_html_is_rewritable()
    ensures
        is_rewritable("text/html"@),
        is_rewritable("text/html; charset=utf-8"@),
{
    reveal_strlit("text/html");
    reveal_strlit("text/html; charset=utf-8");
    let kind = "text/html"@;
    let parameters = " charset=utf-8"@;
    reveal_strlit(" charset=utf-8");
    lemma_essence_ignores_parameters(kind, parameters);
    assert("text/html; charset=utf-8"@ =~= kind + seq![';'] + parameters);
    assert(lowered(kind) =~= kind);
}

/// A mime type is rewritable with parameters exactly when it is without.
pub proof fn lemma_parameters_do_not_matter(kind: Seq<char>, parameters: Seq<char>)
    requires
        forall|i: int| 0 <= i < kind.len() ==> kind[i] != ';',
        kind.len() == 0 || !is_blank(kind.last()),
    ensures
        is_rewritable(kind + seq![';'] + parameters) == is_rewritable(kind),
{
    lemma_essence_ignores_parameters(kind, parameters);
}

} // verus!
