//! Writing a package to bytes and reading it back, field by field.
//!
//! Every writer appends the bytes that `layout` gives for its value. Every
//! reader starts at a position in the input and either returns the value
//! with the position behind it, or `None` where `layout` has no parse.
//! Every `check_*` function does what its reader does without building
//! the value: it returns the position behind the value, and allocates
//! nothing.

use vstd::prelude::*;
use vstd::bytes::{u64_from_le_bytes, u64_to_le_bytes};
use vstd::slice::{slice_subrange, slice_to_vec};
use crate::layout::{
    asset_fits, component_fits, enc_asset, enc_asset_run, enc_assets, enc_blob, enc_component,
    enc_component_run, enc_components, enc_int, enc_locale, enc_locale_run, enc_locales,
    enc_package, enc_text, enc_word, fits, locale_fits, parse_asset, parse_asset_run,
    parse_assets, parse_blob, parse_component, parse_component_run, parse_components, parse_int,
    parse_locale, parse_locale_run, parse_locales, parse_package, parse_text, parse_word,
    text_fits,
};
use crate::package::{
    Asset, AssetPackage, AssetView, Locale, LocaleView, WebComponent, WebComponentView, views,
};
use crate::text::str_from_utf8;

verus! {

pub(crate) fn put_bytes(out: &mut Vec<u8>, bytes: &[u8])
    ensures
        final(out)@ == old(out)@ + bytes@,
{
    out.extend_from_slice(bytes);
    assert(out@ =~= old(out)@ + bytes@);
}

pub(crate) fn put_word(out: &mut Vec<u8>, word: u64)
    ensures
        final(out)@ == old(out)@ + enc_word(word),
{
    let bytes = u64_to_le_bytes(word);
    put_bytes(out, bytes.as_slice());
}

pub(crate) fn put_int(out: &mut Vec<u8>, value: i64)
    ensures
        final(out)@ == old(out)@ + enc_int(value),
{
    put_word(out, value as u64);
}

pub(crate) fn put_blob(out: &mut Vec<u8>, bytes: &[u8])
    ensures
        final(out)@ == old(out)@ + enc_blob(bytes@),
        fits(bytes@.len()),
{
    let len = bytes.len();
    put_word(out, len as u64);
    put_bytes(out, bytes);
    assert(out@ =~= old(out)@ + enc_blob(bytes@));
}

pub(crate) fn put_text(out: &mut Vec<u8>, text: &str)
    ensures
        final(out)@ == old(out)@ + enc_text(text@),
        text_fits(text@),
{
    reveal(enc_text);
    put_blob(out, text.as_bytes());
}

pub(crate) fn put_asset(out: &mut Vec<u8>, asset: &Asset)
    ensures
        final(out)@ == old(out)@ + enc_asset(asset@),
        asset_fits(asset@),
{
    reveal(enc_asset);
    put_text(out, asset.path.as_str());
    put_text(out, asset.mime.as_str());
    put_blob(out, asset.bytes.as_slice());
    assert(out@ =~= old(out)@ + enc_asset(asset@));
}

pub(crate) fn put_assets(out: &mut Vec<u8>, assets: &Vec<Asset>)
    ensures
        final(out)@ == old(out)@ + enc_assets(views(assets@)),
        fits(assets@.len()),
        forall|i: int| 0 <= i < assets@.len() ==> asset_fits(#[trigger] views(assets@)[i]),
{
    let count = assets.len();
    put_word(out, count as u64);
    let ghost all = views(assets@);
    let ghost front = out@;
    let mut i: usize = 0;
    assert(all.skip(0) =~= all);
    while i < count
        invariant
            i <= count == assets@.len(),
            all == views(assets@),
            out@ + enc_asset_run(all.skip(i as int)) == front + enc_asset_run(all),
            forall|j: int| 0 <= j < i ==> asset_fits(#[trigger] all[j]),
        decreases count - i,
    {
        let ghost before = out@;
        put_asset(out, &assets[i]);
        proof {
            let left = all.skip(i as int);
            assert(left[0] == assets@[i as int]@);
            assert(left.drop_first() =~= all.skip(i + 1));
            assert(out@ + enc_asset_run(all.skip(i + 1)) =~= before + enc_asset_run(left));
        }
        i += 1;
    }
    assert(enc_asset_run(all.skip(i as int)) =~= Seq::<u8>::empty());
    assert(out@ =~= old(out)@ + enc_assets(all));
}

pub(crate) fn put_locale(out: &mut Vec<u8>, locale: &Locale)
    ensures
        final(out)@ == old(out)@ + enc_locale(locale@),
        locale_fits(locale@),
{
    reveal(enc_locale);
    put_text(out, locale.lang.as_str());
    put_blob(out, locale.bytes.as_slice());
    assert(out@ =~= old(out)@ + enc_locale(locale@));
}

pub(crate) fn put_locales(out: &mut Vec<u8>, locales: &Vec<Locale>)
    ensures
        final(out)@ == old(out)@ + enc_locales(views(locales@)),
        fits(locales@.len()),
        forall|i: int| 0 <= i < locales@.len() ==> locale_fits(#[trigger] views(locales@)[i]),
{
    let count = locales.len();
    put_word(out, count as u64);
    let ghost all = views(locales@);
    let ghost front = out@;
    let mut i: usize = 0;
    assert(all.skip(0) =~= all);
    while i < count
        invariant
            i <= count == locales@.len(),
            all == views(locales@),
            out@ + enc_locale_run(all.skip(i as int)) == front + enc_locale_run(all),
            forall|j: int| 0 <= j < i ==> locale_fits(#[trigger] all[j]),
        decreases count - i,
    {
        let ghost before = out@;
        put_locale(out, &locales[i]);
        proof {
            let left = all.skip(i as int);
            assert(left[0] == locales@[i as int]@);
            assert(left.drop_first() =~= all.skip(i + 1));
            assert(out@ + enc_locale_run(all.skip(i + 1)) =~= before + enc_locale_run(left));
        }
        i += 1;
    }
    assert(enc_locale_run(all.skip(i as int)) =~= Seq::<u8>::empty());
    assert(out@ =~= old(out)@ + enc_locales(all));
}

pub(crate) fn put_component(out: &mut Vec<u8>, component: &WebComponent)
    ensures
        final(out)@ == old(out)@ + enc_component(component@),
        component_fits(component@),
{
    reveal(enc_component);
    put_text(out, component.name.as_str());
    put_text(out, component.path.as_str());
    put_locales(out, &component.locales);
    assert(out@ =~= old(out)@ + enc_component(component@));
}

pub(crate) fn put_components(out: &mut Vec<u8>, components: &Vec<WebComponent>)
    ensures
        final(out)@ == old(out)@ + enc_components(views(components@)),
        fits(components@.len()),
        forall|i: int|
            0 <= i < components@.len() ==> component_fits(#[trigger] views(components@)[i]),
{
    let count = components.len();
    put_word(out, count as u64);
    let ghost all = views(components@);
    let ghost front = out@;
    let mut i: usize = 0;
    assert(all.skip(0) =~= all);
    while i < count
        invariant
            i <= count == components@.len(),
            all == views(components@),
            out@ + enc_component_run(all.skip(i as int)) == front + enc_component_run(all),
            forall|j: int| 0 <= j < i ==> component_fits(#[trigger] all[j]),
        decreases count - i,
    {
        let ghost before = out@;
        put_component(out, &components[i]);
        proof {
            let left = all.skip(i as int);
            assert(left[0] == components@[i as int]@);
            assert(left.drop_first() =~= all.skip(i + 1));
            assert(out@ + enc_component_run(all.skip(i + 1)) =~= before + enc_component_run(left));
        }
        i += 1;
    }
    assert(enc_component_run(all.skip(i as int)) =~= Seq::<u8>::empty());
    assert(out@ =~= old(out)@ + enc_components(all));
}

pub(crate) fn put_package(out: &mut Vec<u8>, package: &AssetPackage)
    ensures
        final(out)@ == old(out)@ + enc_package(package@),
        package@.encodable(),
{
    reveal(enc_package);
    put_text(out, package.name.as_str());
    put_int(out, package.index);
    put_text(out, package.version.as_str());
    put_text(out, package.target_url.as_str());
    put_assets(out, &package.assets);
    put_int(out, package.created);
    put_int(out, package.updated);
    put_components(out, &package.web_components);
    assert(out@ =~= old(out)@ + enc_package(package@));
}

/// A parse with `front` put before the values it returns.
pub open spec fn joined<T>(front: Seq<T>, parsed: Option<(Seq<T>, Seq<u8>)>) -> Option<
    (Seq<T>, Seq<u8>),
> {
    match parsed {
        Some((items, rest)) => Some((front + items, rest)),
        None => None,
    }
}

pub(crate) fn take_word(data: &[u8], at: usize) -> (found: Option<(u64, usize)>)
    requires
        at <= data@.len(),
    ensures
        match found {
            Some((word, next)) => at < next <= data@.len() && parse_word(data@.skip(at as int))
                == Some((word, data@.skip(next as int))),
            None => parse_word(data@.skip(at as int)) is None,
        },
{
    if data.len() - at < 8 {
        return None;
    }
    let word = u64_from_le_bytes(slice_subrange(data, at, at + 8));
    assert(data@.skip(at as int).take(8) =~= data@.subrange(at as int, at + 8));
    assert(data@.skip(at as int).skip(8) =~= data@.skip(at + 8));
    Some((word, at + 8))
}

pub(crate) fn take_int(data: &[u8], at: usize) -> (found: Option<(i64, usize)>)
    requires
        at <= data@.len(),
    ensures
        match found {
            Some((value, next)) => at < next <= data@.len() && parse_int(data@.skip(at as int))
                == Some((value, data@.skip(next as int))),
            None => parse_int(data@.skip(at as int)) is None,
        },
{
    match take_word(data, at) {
        Some((word, next)) => Some((word as i64, next)),
        None => None,
    }
}

/// The bytes of a buffer are handed out as a slice of the input.
pub(crate) fn take_blob<'a>(data: &'a [u8], at: usize) -> (found: Option<(&'a [u8], usize)>)
    requires
        at <= data@.len(),
    ensures
        match found {
            Some((bytes, next)) => at < next <= data@.len() && parse_blob(data@.skip(at as int))
                == Some((bytes@, data@.skip(next as int))),
            None => parse_blob(data@.skip(at as int)) is None,
        },
{
    match take_word(data, at) {
        Some((len, start)) => {
            let left = data.len() - start;
            if len > left as u64 {
                return None;
            }
            let end = start + len as usize;
            let bytes = slice_subrange(data, start, end);
            assert(data@.skip(start as int).take(len as int) =~= bytes@);
            assert(data@.skip(start as int).skip(len as int) =~= data@.skip(end as int));
            Some((bytes, end))
        },
        None => None,
    }
}

pub(crate) fn take_text(data: &[u8], at: usize) -> (found: Option<(String, usize)>)
    requires
        at <= data@.len(),
    ensures
        match found {
            Some((text, next)) => at < next <= data@.len() && parse_text(data@.skip(at as int))
                == Some((text@, data@.skip(next as int))),
            None => parse_text(data@.skip(at as int)) is None,
        },
{
    reveal(parse_text);
    match take_blob(data, at) {
        Some((raw, next)) => match str_from_utf8(raw) {
            Some(text) => Some((text.to_owned(), next)),
            None => None,
        },
        None => None,
    }
}

pub(crate) fn take_asset(data: &[u8], at: usize) -> (found: Option<(Asset, usize)>)
    requires
        at <= data@.len(),
    ensures
        match found {
            Some((asset, next)) => at < next <= data@.len() && parse_asset(data@.skip(at as int))
                == Some((asset@, data@.skip(next as int))),
            None => parse_asset(data@.skip(at as int)) is None,
        },
{
    reveal(parse_asset);
    let (path, at) = match take_text(data, at) {
        Some(found) => found,
        None => { return None; },
    };
    let (mime, at) = match take_text(data, at) {
        Some(found) => found,
        None => { return None; },
    };
    let (bytes, at) = match take_blob(data, at) {
        Some(found) => found,
        None => { return None; },
    };
    Some((Asset { path, mime, bytes: slice_to_vec(bytes) }, at))
}

pub(crate) fn take_assets(data: &[u8], at: usize) -> (found: Option<(Vec<Asset>, usize)>)
    requires
        at <= data@.len(),
    ensures
        match found {
            Some((assets, next)) => at < next <= data@.len() && parse_assets(data@.skip(at as int))
                == Some((views(assets@), data@.skip(next as int))),
            None => parse_assets(data@.skip(at as int)) is None,
        },
{
    let (count, start) = match take_word(data, at) {
        Some(found) => found,
        None => { return None; },
    };
    let mut assets: Vec<Asset> = Vec::new();
    let mut pos = start;
    let mut done: u64 = 0;
    assert(views(assets@) + Seq::<AssetView>::empty() =~= Seq::empty());
    while done < count
        invariant
            at < start <= pos <= data@.len(),
            done <= count,
            parse_word(data@.skip(at as int)) == Some((count, data@.skip(start as int))),
            parse_asset_run(data@.skip(start as int), count as nat) == joined(
                views(assets@),
                parse_asset_run(data@.skip(pos as int), (count - done) as nat),
            ),
        decreases count - done,
    {
        let ghost before = views(assets@);
        match take_asset(data, pos) {
            Some((asset, next)) => {
                proof {
                    let tail = parse_asset_run(data@.skip(next as int), (count - done - 1) as nat);
                    if tail is Some {
                        assert(before.push(asset@) + tail.unwrap().0 =~= before + (seq![asset@]
                            + tail.unwrap().0));
                    }
                }
                assets.push(asset);
                assert(views(assets@) =~= before.push(asset@));
                pos = next;
                done += 1;
            },
            None => { return None; },
        }
    }
    assert(views(assets@) + Seq::<AssetView>::empty() =~= views(assets@));
    Some((assets, pos))
}

pub(crate) fn take_locale(data: &[u8], at: usize) -> (found: Option<(Locale, usize)>)
    requires
        at <= data@.len(),
    ensures
        match found {
            Some((locale, next)) => at < next <= data@.len() && parse_locale(
                data@.skip(at as int),
            ) == Some((locale@, data@.skip(next as int))),
            None => parse_locale(data@.skip(at as int)) is None,
        },
{
    reveal(parse_locale);
    let (lang, at) = match take_text(data, at) {
        Some(found) => found,
        None => { return None; },
    };
    let (bytes, at) = match take_blob(data, at) {
        Some(found) => found,
        None => { return None; },
    };
    Some((Locale { lang, bytes: slice_to_vec(bytes) }, at))
}

pub(crate) fn take_locales(data: &[u8], at: usize) -> (found: Option<(Vec<Locale>, usize)>)
    requires
        at <= data@.len(),
    ensures
        match found {
            Some((locales, next)) => at < next <= data@.len() && parse_locales(
                data@.skip(at as int),
            ) == Some((views(locales@), data@.skip(next as int))),
            None => parse_locales(data@.skip(at as int)) is None,
        },
{
    let (count, start) = match take_word(data, at) {
        Some(found) => found,
        None => { return None; },
    };
    let mut locales: Vec<Locale> = Vec::new();
    let mut pos = start;
    let mut done: u64 = 0;
    assert(views(locales@) + Seq::<LocaleView>::empty() =~= Seq::empty());
    while done < count
        invariant
            at < start <= pos <= data@.len(),
            done <= count,
            parse_word(data@.skip(at as int)) == Some((count, data@.skip(start as int))),
            parse_locale_run(data@.skip(start as int), count as nat) == joined(
                views(locales@),
                parse_locale_run(data@.skip(pos as int), (count - done) as nat),
            ),
        decreases count - done,
    {
        let ghost before = views(locales@);
        match take_locale(data, pos) {
            Some((locale, next)) => {
                proof {
                    let tail = parse_locale_run(data@.skip(next as int), (count - done - 1) as nat);
                    if tail is Some {
                        assert(before.push(locale@) + tail.unwrap().0 =~= before + (seq![locale@]
                            + tail.unwrap().0));
                    }
                }
                locales.push(locale);
                assert(views(locales@) =~= before.push(locale@));
                pos = next;
                done += 1;
            },
            None => { return None; },
        }
    }
    assert(views(locales@) + Seq::<LocaleView>::empty() =~= views(locales@));
    Some((locales, pos))
}

pub(crate) fn take_component(data: &[u8], at: usize) -> (found: Option<(WebComponent, usize)>)
    requires
        at <= data@.len(),
    ensures
        match found {
            Some((component, next)) => at < next <= data@.len() && parse_component(
                data@.skip(at as int),
            ) == Some((component@, data@.skip(next as int))),
            None => parse_component(data@.skip(at as int)) is None,
        },
{
    reveal(parse_component);
    let (name, at) = match take_text(data, at) {
        Some(found) => found,
        None => { return None; },
    };
    let (path, at) = match take_text(data, at) {
        Some(found) => found,
        None => { return None; },
    };
    let (locales, at) = match take_locales(data, at) {
        Some(found) => found,
        None => { return None; },
    };
    Some((WebComponent { name, path, locales }, at))
}

pub(crate) fn take_components(data: &[u8], at: usize) -> (found: Option<
    (Vec<WebComponent>, usize),
>)
    requires
        at <= data@.len(),
    ensures
        match found {
            Some((components, next)) => at < next <= data@.len() && parse_components(
                data@.skip(at as int),
            ) == Some((views(components@), data@.skip(next as int))),
            None => parse_components(data@.skip(at as int)) is None,
        },
{
    let (count, start) = match take_word(data, at) {
        Some(found) => found,
        None => { return None; },
    };
    let mut components: Vec<WebComponent> = Vec::new();
    let mut pos = start;
    let mut done: u64 = 0;
    assert(views(components@) + Seq::<WebComponentView>::empty() =~= Seq::empty());
    while done < count
        invariant
            at < start <= pos <= data@.len(),
            done <= count,
            parse_word(data@.skip(at as int)) == Some((count, data@.skip(start as int))),
            parse_component_run(data@.skip(start as int), count as nat) == joined(
                views(components@),
                parse_component_run(data@.skip(pos as int), (count - done) as nat),
            ),
        decreases count - done,
    {
        let ghost before = views(components@);
        match take_component(data, pos) {
            Some((component, next)) => {
                proof {
                    let tail = parse_component_run(
                        data@.skip(next as int),
                        (count - done - 1) as nat,
                    );
                    if tail is Some {
                        assert(before.push(component@) + tail.unwrap().0 =~= before + (
                        seq![component@] + tail.unwrap().0));
                    }
                }
                components.push(component);
                assert(views(components@) =~= before.push(component@));
                pos = next;
                done += 1;
            },
            None => { return None; },
        }
    }
    assert(views(components@) + Seq::<WebComponentView>::empty() =~= views(components@));
    Some((components, pos))
}

pub(crate) fn take_package(data: &[u8], at: usize) -> (found: Option<(AssetPackage, usize)>)
    requires
        at <= data@.len(),
    ensures
        match found {
            Some((package, next)) => at < next <= data@.len() && parse_package(
                data@.skip(at as int),
            ) == Some((package@, data@.skip(next as int))),
            None => parse_package(data@.skip(at as int)) is None,
        },
{
    reveal(parse_package);
    let (name, at) = match take_text(data, at) {
        Some(found) => found,
        None => { return None; },
    };
    let (index, at) = match take_int(data, at) {
        Some(found) => found,
        None => { return None; },
    };
    let (version, at) = match take_text(data, at) {
        Some(found) => found,
        None => { return None; },
    };
    let (target_url, at) = match take_text(data, at) {
        Some(found) => found,
        None => { return None; },
    };
    let (assets, at) = match take_assets(data, at) {
        Some(found) => found,
        None => { return None; },
    };
    let (created, at) = match take_int(data, at) {
        Some(found) => found,
        None => { return None; },
    };
    let (updated, at) = match take_int(data, at) {
        Some(found) => found,
        None => { return None; },
    };
    let (web_components, at) = match take_components(data, at) {
        Some(found) => found,
        None => { return None; },
    };
    Some(
        (
            AssetPackage {
                name,
                index,
                version,
                target_url,
                assets,
                created,
                updated,
                web_components,
            },
            at,
        ),
    )
}

/// What a parse leaves, without the value.
pub open spec fn left<T>(parsed: Option<(T, Seq<u8>)>) -> Option<Seq<u8>> {
    match parsed {
        Some((_, rest)) => Some(rest),
        None => None,
    }
}

pub(crate) fn check_text(data: &[u8], at: usize) -> (end: Option<usize>)
    requires
        at <= data@.len(),
    ensures
        match end {
            Some(next) => at < next <= data@.len() && left(parse_text(data@.skip(at as int)))
                == Some(data@.skip(next as int)),
            None => parse_text(data@.skip(at as int)) is None,
        },
{
    reveal(parse_text);
    match take_blob(data, at) {
        Some((raw, next)) => match str_from_utf8(raw) {
            Some(_) => Some(next),
            None => None,
        },
        None => None,
    }
}

pub(crate) fn check_asset(data: &[u8], at: usize) -> (end: Option<usize>)
    requires
        at <= data@.len(),
    ensures
        match end {
            Some(next) => at < next <= data@.len() && left(parse_asset(data@.skip(at as int)))
                == Some(data@.skip(next as int)),
            None => parse_asset(data@.skip(at as int)) is None,
        },
{
    reveal(parse_asset);
    let at = match check_text(data, at) {
        Some(next) => next,
        None => { return None; },
    };
    let at = match check_text(data, at) {
        Some(next) => next,
        None => { return None; },
    };
    match take_blob(data, at) {
        Some((_, next)) => Some(next),
        None => None,
    }
}

pub(crate) fn check_assets(data: &[u8], at: usize) -> (end: Option<usize>)
    requires
        at <= data@.len(),
    ensures
        match end {
            Some(next) => at < next <= data@.len() && left(parse_assets(data@.skip(at as int)))
                == Some(data@.skip(next as int)),
            None => parse_assets(data@.skip(at as int)) is None,
        },
{
    let (count, start) = match take_word(data, at) {
        Some(found) => found,
        None => { return None; },
    };
    let mut pos = start;
    let mut done: u64 = 0;
    while done < count
        invariant
            at < start <= pos <= data@.len(),
            done <= count,
            parse_word(data@.skip(at as int)) == Some((count, data@.skip(start as int))),
            left(parse_asset_run(data@.skip(start as int), count as nat)) == left(
                parse_asset_run(data@.skip(pos as int), (count - done) as nat),
            ),
        decreases count - done,
    {
        match check_asset(data, pos) {
            Some(next) => {
                pos = next;
                done += 1;
            },
            None => { return None; },
        }
    }
    Some(pos)
}

pub(crate) fn check_locale(data: &[u8], at: usize) -> (end: Option<usize>)
    requires
        at <= data@.len(),
    ensures
        match end {
            Some(next) => at < next <= data@.len() && left(parse_locale(data@.skip(at as int)))
                == Some(data@.skip(next as int)),
            None => parse_locale(data@.skip(at as int)) is None,
        },
{
    reveal(parse_locale);
    let at = match check_text(data, at) {
        Some(next) => next,
        None => { return None; },
    };
    match take_blob(data, at) {
        Some((_, next)) => Some(next),
        None => None,
    }
}

pub(crate) fn check_locales(data: &[u8], at: usize) -> (end: Option<usize>)
    requires
        at <= data@.len(),
    ensures
        match end {
            Some(next) => at < next <= data@.len() && left(parse_locales(data@.skip(at as int)))
                == Some(data@.skip(next as int)),
            None => parse_locales(data@.skip(at as int)) is None,
        },
{
    let (count, start) = match take_word(data, at) {
        Some(found) => found,
        None => { return None; },
    };
    let mut pos = start;
    let mut done: u64 = 0;
    while done < count
        invariant
            at < start <= pos <= data@.len(),
            done <= count,
            parse_word(data@.skip(at as int)) == Some((count, data@.skip(start as int))),
            left(parse_locale_run(data@.skip(start as int), count as nat)) == left(
                parse_locale_run(data@.skip(pos as int), (count - done) as nat),
            ),
        decreases count - done,
    {
        match check_locale(data, pos) {
            Some(next) => {
                pos = next;
                done += 1;
            },
            None => { return None; },
        }
    }
    Some(pos)
}

pub(crate) fn check_component(data: &[u8], at: usize) -> (end: Option<usize>)
    requires
        at <= data@.len(),
    ensures
        match end {
            Some(next) => at < next <= data@.len() && left(
                parse_component(data@.skip(at as int)),
            ) == Some(data@.skip(next as int)),
            None => parse_component(data@.skip(at as int)) is None,
        },
{
    reveal(parse_component);
    let at = match check_text(data, at) {
        Some(next) => next,
        None => { return None; },
    };
    let at = match check_text(data, at) {
        Some(next) => next,
        None => { return None; },
    };
    check_locales(data, at)
}

pub(crate) fn check_components(data: &[u8], at: usize) -> (end: Option<usize>)
    requires
        at <= data@.len(),
    ensures
        match end {
            Some(next) => at < next <= data@.len() && left(
                parse_components(data@.skip(at as int)),
            ) == Some(data@.skip(next as int)),
            None => parse_components(data@.skip(at as int)) is None,
        },
{
    let (count, start) = match take_word(data, at) {
        Some(found) => found,
        None => { return None; },
    };
    let mut pos = start;
    let mut done: u64 = 0;
    while done < count
        invariant
            at < start <= pos <= data@.len(),
            done <= count,
            parse_word(data@.skip(at as int)) == Some((count, data@.skip(start as int))),
            left(parse_component_run(data@.skip(start as int), count as nat)) == left(
                parse_component_run(data@.skip(pos as int), (count - done) as nat),
            ),
        decreases count - done,
    {
        match check_component(data, pos) {
            Some(next) => {
                pos = next;
                done += 1;
            },
            None => { return None; },
        }
    }
    Some(pos)
}

pub(crate) fn check_package(data: &[u8], at: usize) -> (end: Option<usize>)
    requires
        at <= data@.len(),
    ensures
        match end {
            Some(next) => at < next <= data@.len() && left(parse_package(data@.skip(at as int)))
                == Some(data@.skip(next as int)),
            None => parse_package(data@.skip(at as int)) is None,
        },
{
    reveal(parse_package);
    let at = match check_text(data, at) {
        Some(next) => next,
        None => { return None; },
    };
    let at = match take_int(data, at) {
        Some((_, next)) => next,
        None => { return None; },
    };
    let at = match check_text(data, at) {
        Some(next) => next,
        None => { return None; },
    };
    let at = match check_text(data, at) {
        Some(next) => next,
        None => { return None; },
    };
    let at = match check_assets(data, at) {
        Some(next) => next,
        None => { return None; },
    };
    let at = match take_int(data, at) {
        Some((_, next)) => next,
        None => { return None; },
    };
    let at = match take_int(data, at) {
        Some((_, next)) => next,
        None => { return None; },
    };
    check_components(data, at)
}

} // verus!
