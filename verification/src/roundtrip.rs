//! Writing a package and reading it back are inverse to each other.
//!
//! For every kind of value there are two lemmas. The first says that reading
//! the bytes of a value, followed by anything, gives the value back and
//! leaves what followed. The second says that whatever a read accepts is the
//! bytes of the value it returns, followed by what it leaves.

use vstd::prelude::*;
use vstd::bytes::{lemma_auto_spec_u64_to_from_le_bytes, spec_u64_from_le_bytes};
use vstd::utf8::{
    decode_utf8_encode_utf8, encode_utf8, encode_utf8_decode_utf8, encode_utf8_valid_utf8,
};
use crate::layout::{
    asset_fits, component_fits, decoded, enc_asset, enc_asset_run, enc_assets, enc_blob,
    enc_component, enc_component_run, enc_components, enc_int, enc_locale, enc_locale_run,
    enc_locales, enc_package, enc_text, enc_word, encoded, fits, locale_fits, parse_asset,
    parse_asset_run, parse_assets, parse_blob, parse_component, parse_component_run,
    parse_components, parse_int, parse_locale, parse_locale_run, parse_package, parse_text,
    parse_word, signature, text_fits,
};
use crate::package::{AssetView, DeserializeError, LocaleView, PackageView, WebComponentView};

verus! {

/// Reading the bytes of an unsigned integer, followed by anything, gives the value and
/// leaves what followed.
pub proof fn lemma_word(x: u64, rest: Seq<u8>)
    ensures
        enc_word(x).len() == 8,
        parse_word(enc_word(x) + rest) == Some((x, rest)),
{
    lemma_auto_spec_u64_to_from_le_bytes();
    let input = enc_word(x) + rest;
    assert(input.take(8) =~= enc_word(x));
    assert(input.skip(8) =~= rest);
}

/// What reads as an unsigned integer is the bytes of that value, followed by what the
/// read leaves.
pub proof fn lemma_word_parsed(input: Seq<u8>, word: u64, rest: Seq<u8>)
    requires
        parse_word(input) == Some((word, rest)),
    ensures
        input == enc_word(word) + rest,
        input.len() == 8 + rest.len(),
{
    lemma_auto_spec_u64_to_from_le_bytes();
    let head = input.take(8);
    assert(enc_word(spec_u64_from_le_bytes(head)) == head);
    assert(input =~= head + input.skip(8));
}

/// Reading the bytes of a signed integer, followed by anything, gives the value and
/// leaves what followed.
pub proof fn lemma_int(x: i64, rest: Seq<u8>)
    ensures
        enc_int(x).len() == 8,
        parse_int(enc_int(x) + rest) == Some((x, rest)),
{
    lemma_word(x as u64, rest);
    assert((x as u64) as i64 == x) by (bit_vector);
}

/// What reads as a signed integer is the bytes of that value, followed by what the read
/// leaves.
pub proof fn lemma_int_parsed(input: Seq<u8>, x: i64, rest: Seq<u8>)
    requires
        parse_int(input) == Some((x, rest)),
    ensures
        input == enc_int(x) + rest,
        input.len() == 8 + rest.len(),
{
    let word = parse_word(input).unwrap().0;
    lemma_word_parsed(input, word, rest);
    assert((word as i64) as u64 == word) by (bit_vector);
}

/// Reading the bytes of a byte buffer, followed by anything, gives the value and leaves
/// what followed.
pub proof fn lemma_blob(bytes: Seq<u8>, rest: Seq<u8>)
    requires
        fits(bytes.len()),
    ensures
        enc_blob(bytes).len() == 8 + bytes.len(),
        parse_blob(enc_blob(bytes) + rest) == Some((bytes, rest)),
{
    let len = bytes.len() as u64;
    lemma_word(len, bytes + rest);
    assert(enc_blob(bytes) + rest =~= enc_word(len) + (bytes + rest));
    assert((bytes + rest).take(len as int) =~= bytes);
    assert((bytes + rest).skip(len as int) =~= rest);
}

/// What reads as a byte buffer is the bytes of that value, followed by what the read
/// leaves.
pub proof fn lemma_blob_parsed(input: Seq<u8>, bytes: Seq<u8>, rest: Seq<u8>)
    requires
        parse_blob(input) == Some((bytes, rest)),
    ensures
        fits(bytes.len()),
        input == enc_blob(bytes) + rest,
        input.len() == 8 + bytes.len() + rest.len(),
{
    let (len, after) = parse_word(input).unwrap();
    lemma_word_parsed(input, len, after);
    assert(after =~= bytes + rest);
    assert(enc_word(len) + (bytes + rest) =~= enc_blob(bytes) + rest);
}

/// Reading the bytes of a text, followed by anything, gives the value and leaves what
/// followed.
pub proof fn lemma_text(text: Seq<char>, rest: Seq<u8>)
    requires
        text_fits(text),
    ensures
        parse_text(enc_text(text) + rest) == Some((text, rest)),
{
    reveal(enc_text);
    reveal(parse_text);
    lemma_blob(encode_utf8(text), rest);
    encode_utf8_valid_utf8(text);
    encode_utf8_decode_utf8(text);
}

/// What reads as a text is the bytes of that value, followed by what the read leaves.
pub proof fn lemma_text_parsed(input: Seq<u8>, text: Seq<char>, rest: Seq<u8>)
    requires
        parse_text(input) == Some((text, rest)),
    ensures
        text_fits(text),
        input == enc_text(text) + rest,
        input.len() > rest.len(),
{
    reveal(enc_text);
    reveal(parse_text);
    let raw = parse_blob(input).unwrap().0;
    lemma_blob_parsed(input, raw, rest);
    decode_utf8_encode_utf8(raw);
}

/// Reading the bytes of an asset, followed by anything, gives the value and leaves what
/// followed.
pub proof fn lemma_asset(asset: AssetView, rest: Seq<u8>)
    requires
        asset_fits(asset),
    ensures
        parse_asset(enc_asset(asset) + rest) == Some((asset, rest)),
{
    reveal(enc_asset);
    reveal(parse_asset);
    let after_mime = enc_blob(asset.bytes) + rest;
    let after_path = enc_text(asset.mime) + after_mime;
    assert(enc_asset(asset) + rest =~= enc_text(asset.path) + after_path);
    lemma_text(asset.path, after_path);
    lemma_text(asset.mime, after_mime);
    lemma_blob(asset.bytes, rest);
}

/// What reads as an asset is the bytes of that value, followed by what the read leaves.
pub proof fn lemma_asset_parsed(input: Seq<u8>, asset: AssetView, rest: Seq<u8>)
    requires
        parse_asset(input) == Some((asset, rest)),
    ensures
        asset_fits(asset),
        input == enc_asset(asset) + rest,
        input.len() > rest.len(),
{
    reveal(enc_asset);
    reveal(parse_asset);
    let after_path = parse_text(input).unwrap().1;
    let after_mime = parse_text(after_path).unwrap().1;
    lemma_text_parsed(input, asset.path, after_path);
    lemma_text_parsed(after_path, asset.mime, after_mime);
    lemma_blob_parsed(after_mime, asset.bytes, rest);
    assert(input =~= enc_asset(asset) + rest);
}

/// Reading the bytes of a run of assets, followed by anything, gives the value and leaves
/// what followed.
pub proof fn lemma_asset_run(assets: Seq<AssetView>, rest: Seq<u8>)
    requires
        forall|i: int| 0 <= i < assets.len() ==> asset_fits(#[trigger] assets[i]),
    ensures
        parse_asset_run(enc_asset_run(assets) + rest, assets.len()) == Some((assets, rest)),
    decreases assets.len(),
{
    if assets.len() == 0 {
        assert(enc_asset_run(assets) + rest =~= rest);
        assert(assets =~= Seq::empty());
    } else {
        let tail = assets.drop_first();
        let after_head = enc_asset_run(tail) + rest;
        assert(enc_asset_run(assets) + rest =~= enc_asset(assets[0]) + after_head);
        lemma_asset(assets[0], after_head);
        assert forall|i: int| 0 <= i < tail.len() implies asset_fits(#[trigger] tail[i]) by {
            assert(tail[i] == assets[i + 1]);
        }
        lemma_asset_run(tail, rest);
        assert(seq![assets[0]] + tail =~= assets);
    }
}

/// What reads as a run of assets is the bytes of that value, followed by what the read
/// leaves.
pub proof fn lemma_asset_run_parsed(
    input: Seq<u8>,
    count: nat,
    assets: Seq<AssetView>,
    rest: Seq<u8>,
)
    requires
        parse_asset_run(input, count) == Some((assets, rest)),
    ensures
        assets.len() == count,
        forall|i: int| 0 <= i < assets.len() ==> asset_fits(#[trigger] assets[i]),
        input == enc_asset_run(assets) + rest,
        input.len() >= rest.len(),
    decreases count,
{
    if count == 0 {
        assert(enc_asset_run(assets) + rest =~= rest);
    } else {
        let (head, after_head) = parse_asset(input).unwrap();
        let (tail, _) = parse_asset_run(after_head, (count - 1) as nat).unwrap();
        lemma_asset_parsed(input, head, after_head);
        lemma_asset_run_parsed(after_head, (count - 1) as nat, tail, rest);
        assert(assets.drop_first() =~= tail);
        assert(input =~= enc_asset_run(assets) + rest);
    }
}

/// Reading the bytes of a counted sequence of assets, followed by anything, gives the
/// value and leaves what followed.
pub proof fn lemma_assets(assets: Seq<AssetView>, rest: Seq<u8>)
    requires
        fits(assets.len()),
        forall|i: int| 0 <= i < assets.len() ==> asset_fits(#[trigger] assets[i]),
    ensures
        parse_assets(enc_assets(assets) + rest) == Some((assets, rest)),
{
    let after_count = enc_asset_run(assets) + rest;
    assert(enc_assets(assets) + rest =~= enc_word(assets.len() as u64) + after_count);
    lemma_word(assets.len() as u64, after_count);
    lemma_asset_run(assets, rest);
}

/// What reads as a counted sequence of assets is the bytes of that value, followed by
/// what the read leaves.
pub proof fn lemma_assets_parsed(input: Seq<u8>, assets: Seq<AssetView>, rest: Seq<u8>)
    requires
        parse_assets(input) == Some((assets, rest)),
    ensures
        fits(assets.len()),
        forall|i: int| 0 <= i < assets.len() ==> asset_fits(#[trigger] assets[i]),
        input == enc_assets(assets) + rest,
        input.len() > rest.len(),
{
    let (count, after_count) = parse_word(input).unwrap();
    lemma_word_parsed(input, count, after_count);
    lemma_asset_run_parsed(after_count, count as nat, assets, rest);
    assert(input =~= enc_assets(assets) + rest);
}

/// Reading the bytes of a locale, followed by anything, gives the value and leaves what
/// followed.
pub proof fn lemma_locale(locale: LocaleView, rest: Seq<u8>)
    requires
        locale_fits(locale),
    ensures
        parse_locale(enc_locale(locale) + rest) == Some((locale, rest)),
{
    reveal(enc_locale);
    reveal(parse_locale);
    let after_lang = enc_blob(locale.bytes) + rest;
    assert(enc_locale(locale) + rest =~= enc_text(locale.lang) + after_lang);
    lemma_text(locale.lang, after_lang);
    lemma_blob(locale.bytes, rest);
}

/// What reads as a locale is the bytes of that value, followed by what the read leaves.
pub proof fn lemma_locale_parsed(input: Seq<u8>, locale: LocaleView, rest: Seq<u8>)
    requires
        parse_locale(input) == Some((locale, rest)),
    ensures
        locale_fits(locale),
        input == enc_locale(locale) + rest,
        input.len() > rest.len(),
{
    reveal(enc_locale);
    reveal(parse_locale);
    let after_lang = parse_text(input).unwrap().1;
    lemma_text_parsed(input, locale.lang, after_lang);
    lemma_blob_parsed(after_lang, locale.bytes, rest);
    assert(input =~= enc_locale(locale) + rest);
}

/// Reading the bytes of a run of locales, followed by anything, gives the value and
/// leaves what followed.
pub proof fn lemma_locale_run(locales: Seq<LocaleView>, rest: Seq<u8>)
    requires
        forall|i: int| 0 <= i < locales.len() ==> locale_fits(#[trigger] locales[i]),
    ensures
        parse_locale_run(enc_locale_run(locales) + rest, locales.len()) == Some((locales, rest)),
    decreases locales.len(),
{
    if locales.len() == 0 {
        assert(enc_locale_run(locales) + rest =~= rest);
        assert(locales =~= Seq::empty());
    } else {
        let tail = locales.drop_first();
        let after_head = enc_locale_run(tail) + rest;
        assert(enc_locale_run(locales) + rest =~= enc_locale(locales[0]) + after_head);
        lemma_locale(locales[0], after_head);
        assert forall|i: int| 0 <= i < tail.len() implies locale_fits(#[trigger] tail[i]) by {
            assert(tail[i] == locales[i + 1]);
        }
        lemma_locale_run(tail, rest);
        assert(seq![locales[0]] + tail =~= locales);
    }
}

/// What reads as a run of locales is the bytes of that value, followed by what the read
/// leaves.
pub proof fn lemma_locale_run_parsed(
    input: Seq<u8>,
    count: nat,
    locales: Seq<LocaleView>,
    rest: Seq<u8>,
)
    requires
        parse_locale_run(input, count) == Some((locales, rest)),
    ensures
        locales.len() == count,
        forall|i: int| 0 <= i < locales.len() ==> locale_fits(#[trigger] locales[i]),
        input == enc_locale_run(locales) + rest,
        input.len() >= rest.len(),
    decreases count,
{
    if count == 0 {
        assert(enc_locale_run(locales) + rest =~= rest);
    } else {
        let (head, after_head) = parse_locale(input).unwrap();
        let (tail, _) = parse_locale_run(after_head, (count - 1) as nat).unwrap();
        lemma_locale_parsed(input, head, after_head);
        lemma_locale_run_parsed(after_head, (count - 1) as nat, tail, rest);
        assert(locales.drop_first() =~= tail);
        assert(input =~= enc_locale_run(locales) + rest);
    }
}

/// Reading the bytes of a web component, followed by anything, gives the value and leaves
/// what followed.
pub proof fn lemma_component(component: WebComponentView, rest: Seq<u8>)
    requires
        component_fits(component),
    ensures
        parse_component(enc_component(component) + rest) == Some((component, rest)),
{
    reveal(enc_component);
    reveal(parse_component);
    let locales = component.locales;
    let after_count = enc_locale_run(locales) + rest;
    let after_path = enc_locales(locales) + rest;
    let after_name = enc_text(component.path) + after_path;
    assert(enc_component(component) + rest =~= enc_text(component.name) + after_name);
    lemma_text(component.name, after_name);
    lemma_text(component.path, after_path);
    assert(after_path =~= enc_word(locales.len() as u64) + after_count);
    lemma_word(locales.len() as u64, after_count);
    lemma_locale_run(locales, rest);
}

/// What reads as a web component is the bytes of that value, followed by what the read
/// leaves.
pub proof fn lemma_component_parsed(input: Seq<u8>, component: WebComponentView, rest: Seq<u8>)
    requires
        parse_component(input) == Some((component, rest)),
    ensures
        component_fits(component),
        input == enc_component(component) + rest,
        input.len() > rest.len(),
{
    reveal(enc_component);
    reveal(parse_component);
    let after_name = parse_text(input).unwrap().1;
    let after_path = parse_text(after_name).unwrap().1;
    let (count, after_count) = parse_word(after_path).unwrap();
    lemma_text_parsed(input, component.name, after_name);
    lemma_text_parsed(after_name, component.path, after_path);
    lemma_word_parsed(after_path, count, after_count);
    lemma_locale_run_parsed(after_count, count as nat, component.locales, rest);
    assert(input =~= enc_component(component) + rest);
}

/// Reading the bytes of a run of web components, followed by anything, gives the value
/// and leaves what followed.
pub proof fn lemma_component_run(components: Seq<WebComponentView>, rest: Seq<u8>)
    requires
        forall|i: int| 0 <= i < components.len() ==> component_fits(#[trigger] components[i]),
    ensures
        parse_component_run(enc_component_run(components) + rest, components.len()) == Some(
            (components, rest),
        ),
    decreases components.len(),
{
    if components.len() == 0 {
        assert(enc_component_run(components) + rest =~= rest);
        assert(components =~= Seq::empty());
    } else {
        let tail = components.drop_first();
        let after_head = enc_component_run(tail) + rest;
        assert(enc_component_run(components) + rest =~= enc_component(components[0]) + after_head);
        lemma_component(components[0], after_head);
        assert forall|i: int| 0 <= i < tail.len() implies component_fits(#[trigger] tail[i]) by {
            assert(tail[i] == components[i + 1]);
        }
        lemma_component_run(tail, rest);
        assert(seq![components[0]] + tail =~= components);
    }
}

/// What reads as a run of web components is the bytes of that value, followed by what the
/// read leaves.
pub proof fn lemma_component_run_parsed(
    input: Seq<u8>,
    count: nat,
    components: Seq<WebComponentView>,
    rest: Seq<u8>,
)
    requires
        parse_component_run(input, count) == Some((components, rest)),
    ensures
        components.len() == count,
        forall|i: int| 0 <= i < components.len() ==> component_fits(#[trigger] components[i]),
        input == enc_component_run(components) + rest,
        input.len() >= rest.len(),
    decreases count,
{
    if count == 0 {
        assert(enc_component_run(components) + rest =~= rest);
    } else {
        let (head, after_head) = parse_component(input).unwrap();
        let (tail, _) = parse_component_run(after_head, (count - 1) as nat).unwrap();
        lemma_component_parsed(input, head, after_head);
        lemma_component_run_parsed(after_head, (count - 1) as nat, tail, rest);
        assert(components.drop_first() =~= tail);
        assert(input =~= enc_component_run(components) + rest);
    }
}

/// Reading the bytes of a counted sequence of web components, followed by anything, gives
/// the value and leaves what followed.
pub proof fn lemma_components(components: Seq<WebComponentView>, rest: Seq<u8>)
    requires
        fits(components.len()),
        forall|i: int| 0 <= i < components.len() ==> component_fits(#[trigger] components[i]),
    ensures
        parse_components(enc_components(components) + rest) == Some((components, rest)),
{
    let after_count = enc_component_run(components) + rest;
    assert(enc_components(components) + rest =~= enc_word(components.len() as u64) + after_count);
    lemma_word(components.len() as u64, after_count);
    lemma_component_run(components, rest);
}

/// What reads as a counted sequence of web components is the bytes of that value,
/// followed by what the read leaves.
pub proof fn lemma_components_parsed(
    input: Seq<u8>,
    components: Seq<WebComponentView>,
    rest: Seq<u8>,
)
    requires
        parse_components(input) == Some((components, rest)),
    ensures
        fits(components.len()),
        forall|i: int| 0 <= i < components.len() ==> component_fits(#[trigger] components[i]),
        input == enc_components(components) + rest,
        input.len() > rest.len(),
{
    let (count, after_count) = parse_word(input).unwrap();
    lemma_word_parsed(input, count, after_count);
    lemma_component_run_parsed(after_count, count as nat, components, rest);
    assert(input =~= enc_components(components) + rest);
}

/// Reading the bytes of a package, followed by anything, gives the value and leaves what
/// followed.
pub proof fn lemma_package(package: PackageView, rest: Seq<u8>)
    requires
        package.encodable(),
    ensures
        parse_package(enc_package(package) + rest) == Some((package, rest)),
{
    reveal(enc_package);
    reveal(parse_package);
    let r7 = enc_components(package.web_components) + rest;
    let r6 = enc_int(package.updated) + r7;
    let r5 = enc_int(package.created) + r6;
    let r4 = enc_assets(package.assets) + r5;
    let r3 = enc_text(package.target_url) + r4;
    let r2 = enc_text(package.version) + r3;
    let r1 = enc_int(package.index) + r2;
    assert(enc_package(package) + rest =~= enc_text(package.name) + r1);
    lemma_text(package.name, r1);
    lemma_int(package.index, r2);
    lemma_text(package.version, r3);
    lemma_text(package.target_url, r4);
    lemma_assets(package.assets, r5);
    lemma_int(package.created, r6);
    lemma_int(package.updated, r7);
    lemma_components(package.web_components, rest);
}

/// What reads as a package is the bytes of that value, followed by what the read leaves.
pub proof fn lemma_package_parsed(input: Seq<u8>, package: PackageView, rest: Seq<u8>)
    requires
        parse_package(input) == Some((package, rest)),
    ensures
        package.encodable(),
        input == enc_package(package) + rest,
        input.len() > rest.len(),
{
    reveal(enc_package);
    reveal(parse_package);
    let r1 = parse_text(input).unwrap().1;
    let r2 = parse_int(r1).unwrap().1;
    let r3 = parse_text(r2).unwrap().1;
    let r4 = parse_text(r3).unwrap().1;
    let r5 = parse_assets(r4).unwrap().1;
    let r6 = parse_int(r5).unwrap().1;
    let r7 = parse_int(r6).unwrap().1;
    lemma_text_parsed(input, package.name, r1);
    lemma_int_parsed(r1, package.index, r2);
    lemma_text_parsed(r2, package.version, r3);
    lemma_text_parsed(r3, package.target_url, r4);
    lemma_assets_parsed(r4, package.assets, r5);
    lemma_int_parsed(r5, package.created, r6);
    lemma_int_parsed(r6, package.updated, r7);
    lemma_components_parsed(r7, package.web_components, rest);
    assert(input =~= enc_package(package) + rest);
}

/// Decoding the bytes of a package gives the package back.
pub proof fn lemma_round_trip(package: PackageView)
    requires
        package.encodable(),
    ensures
        decoded(encoded(package)) == Ok::<PackageView, DeserializeError>(package),
{
    let bytes = encoded(package);
    lemma_package(package, Seq::empty());
    assert(bytes.take(4) =~= signature());
    assert(bytes.skip(4) =~= enc_package(package) + Seq::empty());
}

/// A byte sequence decodes to a package exactly when it is the bytes of that
/// package: the layout has one spelling for each value.
pub proof fn lemma_decoded_iff_encoded(input: Seq<u8>, package: PackageView)
    ensures
        decoded(input) == Ok::<PackageView, DeserializeError>(package) <==> (package.encodable()
            && input == encoded(package)),
{
    if decoded(input) == Ok::<PackageView, DeserializeError>(package) {
        let rest = parse_package(input.skip(4)).unwrap().1;
        lemma_package_parsed(input.skip(4), package, rest);
        assert(rest =~= Seq::empty());
        assert(input =~= input.take(4) + input.skip(4));
        assert(input =~= encoded(package));
    }
    if package.encodable() && input == encoded(package) {
        lemma_round_trip(package);
    }
}

/// Cutting the bytes of a package short, at any length, leaves bytes that
/// do not decode: the result is `Malformed`, never a package.
pub proof fn lemma_truncation_is_malformed(package: PackageView, keep: int)
    requires
        package.encodable(),
        0 <= keep < encoded(package).len(),
    ensures
        decoded(encoded(package).take(keep)) == Err::<PackageView, DeserializeError>(
            DeserializeError::Malformed,
        ),
{
    let whole = encoded(package);
    let cut = whole.take(keep);
    if keep >= 4 {
        assert(cut.take(4) =~= signature());
        let parsed = parse_package(cut.skip(4));
        if parsed is Some {
            let (other, rest) = parsed.unwrap();
            if rest.len() == 0 {
                let lost = whole.skip(keep);
                lemma_package_parsed(cut.skip(4), other, rest);
                assert(enc_package(package) + Seq::empty() =~= enc_package(other) + lost) by {
                    assert(rest =~= Seq::empty());
                    assert(cut.skip(4) =~= enc_package(other));
                    assert(whole.skip(4) =~= enc_package(package));
                    assert(whole.skip(4) =~= cut.skip(4) + lost);
                }
                lemma_package(package, Seq::empty());
                lemma_package(other, lost);
                assert(false);
            }
        }
    }
}

} // verus!
