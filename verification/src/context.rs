//! The asset store: every asset of a package in its ready-to-serve form,
//! indexed by path.

use std::sync::Arc;
use ahash::AHashMap;
use bytes::Bytes;
use vstd::prelude::*;
use vstd::utf8::encode_utf8;
use crate::archive::{unpack, unpacked, BuildError};
use crate::config::SrvConfig;
use crate::embedded_asset::{
    buffer_bytes, buffer_from_vec, buffer_share, prepared, prepared_json, EmbeddedAsset,
    PreparedView,
};
use crate::package::{views, Asset, AssetPackage, AssetView, PackageView};

verus! {

/// `ahash::AHashMap`, a hash map of std with the hasher of `ahash`. Nothing
/// of its inside is known here but what [`entries`] names.
#[verifier::external_type_specification]
#[verifier::external_body]
#[verifier::reject_recursive_types(K)]
#[verifier::reject_recursive_types(V)]
#[verifier::reject_recursive_types(S)]
pub struct ExAHashMap<K, V, S>(ahash::AHashMap<K, V, S>);

/// `ahash::RandomState`, the hasher that the map is built with.
#[verifier::external_type_specification]
#[verifier::external_body]
pub struct ExRandomState(ahash::RandomState);

/// The entries of a map from paths to prepared assets.
pub uninterp spec fn entries(table: AHashMap<String, EmbeddedAsset>) -> Map<Seq<char>, EmbeddedAsset>;

/// `AHashMap::default`: a map without entries.
#[verifier::external_body]
fn map_new() -> (table: AHashMap<String, EmbeddedAsset>)
    ensures
        entries(table) =~= Map::empty(),
{
    AHashMap::default()
}

/// `AHashMap::insert`: the key maps to the value afterwards, whether or not
/// it was there before; no other entry changes. What was there before is dropped.
#[verifier::external_body]
fn map_insert(table: &mut AHashMap<String, EmbeddedAsset>, key: String, value: EmbeddedAsset)
    ensures
        entries(*final(table)) == entries(*old(table)).insert(key@, value),
{
    table.insert(key, value);
}

/// `AHashMap::get`: the value of the key, if the map has the key.
#[verifier::external_body]
fn map_get<'a>(table: &'a AHashMap<String, EmbeddedAsset>, key: &str) -> (value: Option<
    &'a EmbeddedAsset,
>)
    ensures
        match value {
            Some(value) => entries(*table).contains_key(key@) && *value == entries(*table)[key@],
            None => !entries(*table).contains_key(key@),
        },
{
    table.get(key)
}

/// The position of the first asset from `from` on, the one at `skip`
/// aside, that cannot be prepared; the number of assets where there is none.
pub open spec fn first_unprepared(
    assets: Seq<AssetView>,
    from: int,
    skip: int,
    target_url: Seq<char>,
    public_url: Seq<char>,
) -> int
    decreases assets.len() - from,
{
    if from < 0 || from >= assets.len() {
        assets.len() as int
    } else if from != skip && prepared(assets[from], true, target_url, public_url) is None {
        from
    } else {
        first_unprepared(assets, from + 1, skip, target_url, public_url)
    }
}

/// The table of the first `upto` assets: each path with the prepared,
/// cacheable form of its asset. The asset at `skip` is left out. Where
/// several assets have one path, the last of them is in the table.
pub open spec fn asset_table(
    assets: Seq<AssetView>,
    upto: nat,
    skip: int,
    target_url: Seq<char>,
    public_url: Seq<char>,
) -> Map<Seq<char>, PreparedView>
    decreases upto,
{
    if upto == 0 {
        Map::empty()
    } else {
        let at = upto - 1;
        let before = asset_table(assets, at as nat, skip, target_url, public_url);
        match prepared(assets[at], true, target_url, public_url) {
            Some(asset) => if at == skip {
                before
            } else {
                before.insert(assets[at].path, asset)
            },
            None => before,
        }
    }
}

/// The prepared assets of a package by path.
pub struct EmbeddedAssetMap {
    inner: AHashMap<String, EmbeddedAsset>,
}

impl View for EmbeddedAssetMap {
    type V = Map<Seq<char>, PreparedView>;

    closed spec fn view(&self) -> Map<Seq<char>, PreparedView> {
        entries(self.inner).map_values(|asset: EmbeddedAsset| asset@)
    }
}

impl EmbeddedAssetMap {
    /// Prepares every asset but the one at `index` and files it under its
    /// path. Fails at the first asset that cannot be prepared.
    pub fn new(assets: &[Asset], target_url: &str, public_url: &str, index: usize) -> (made:
        Result<Self, BuildError>)
        ensures
            match made {
                Ok(table) => first_unprepared(
                    views(assets@),
                    0,
                    index as int,
                    target_url@,
                    public_url@,
                ) == assets@.len() && table@ == asset_table(
                    views(assets@),
                    assets@.len(),
                    index as int,
                    target_url@,
                    public_url@,
                ),
                Err(error) => first_unprepared(
                    views(assets@),
                    0,
                    index as int,
                    target_url@,
                    public_url@,
                ) < assets@.len() && error == BuildError::InvalidText(
                    first_unprepared(views(assets@), 0, index as int, target_url@, public_url@)
                        as usize,
                ),
            },
    {
        let ghost all = views(assets@);
        let mut inner = map_new();
        let mut idx: usize = 0;
        assert(entries(inner).map_values(|asset: EmbeddedAsset| asset@) =~= Map::empty());
        while idx < assets.len()
            invariant
                idx <= assets@.len(),
                all == views(assets@),
                first_unprepared(all, 0, index as int, target_url@, public_url@)
                    == first_unprepared(all, idx as int, index as int, target_url@, public_url@),
                entries(inner).map_values(|asset: EmbeddedAsset| asset@) == asset_table(
                    all,
                    idx as nat,
                    index as int,
                    target_url@,
                    public_url@,
                ),
            decreases assets@.len() - idx,
        {
            let asset = &assets[idx];
            assert(all[idx as int] == asset@);
            if idx != index {
                match EmbeddedAsset::new(asset, true, target_url, public_url) {
                    Some(ready) => {
                        let ghost before = entries(inner);
                        map_insert(&mut inner, asset.path.clone(), ready);
                        assert(entries(inner).map_values(|asset: EmbeddedAsset| asset@)
                            =~= before.map_values(|asset: EmbeddedAsset| asset@).insert(
                            asset@.path,
                            ready@,
                        ));
                    },
                    None => {
                        return Err(BuildError::InvalidText(idx));
                    },
                }
            }
            idx += 1;
        }
        Ok(EmbeddedAssetMap { inner })
    }
}

/// The response for a path that the store does not hold: status 404, the
/// plain text `not found`, never to be cached.
pub open spec fn not_found_view() -> PreparedView {
    PreparedView {
        body: encode_utf8("not found"@),
        mime: "text/plain"@,
        status: 404,
        cache: false,
    }
}

/// What an [`AssetStore`] stands for in contracts.
pub ghost struct StoreView {
    pub assets: Map<Seq<char>, PreparedView>,
    pub index: PreparedView,
    pub keycloak_config: PreparedView,
}

impl StoreView {
    /// What the store answers for a path.
    pub open spec fn lookup(self, path: Seq<char>) -> PreparedView {
        if self.assets.contains_key(path) {
            self.assets[path]
        } else {
            not_found_view()
        }
    }
}

/// The store that a package gives, or why it gives none.
///
/// The package must name an index document. The index document is
/// prepared first and is not cacheable; then every other asset in order,
/// cacheable. The first asset that cannot be prepared ends the build.
pub open spec fn built(package: PackageView, public_url: Seq<char>, document: Seq<u8>) -> Result<
    StoreView,
    BuildError,
> {
    if !package.has_index() {
        Err(BuildError::IndexNotFound)
    } else {
        let index = package.index as int;
        let stop = first_unprepared(package.assets, 0, index, package.target_url, public_url);
        match prepared(package.assets[index], false, package.target_url, public_url) {
            None => Err(BuildError::InvalidText(index as usize)),
            Some(document_index) => if stop < package.assets.len() {
                Err(BuildError::InvalidText(stop as usize))
            } else {
                Ok(
                    StoreView {
                        assets: asset_table(
                            package.assets,
                            package.assets.len(),
                            index,
                            package.target_url,
                            public_url,
                        ),
                        index: document_index,
                        keycloak_config: prepared_json(document),
                    },
                )
            },
        }
    }
}

/// The store that an archive gives, or why it gives none.
pub open spec fn opened(archive: Seq<u8>, public_url: Seq<char>, document: Seq<u8>) -> Result<
    StoreView,
    BuildError,
> {
    match unpacked(archive) {
        Ok(package) => built(package, public_url, document),
        Err(error) => Err(error),
    }
}

pub type ServerConfig = SrvConfig;

/// Every response that the server can give, built once and read-only
/// afterwards.
pub struct AssetStore {
    not_found: Bytes,
    not_found_mime: String,
    assets: EmbeddedAssetMap,
    index: EmbeddedAsset,
    keycloak_config: EmbeddedAsset,
}

impl View for AssetStore {
    type V = StoreView;

    closed spec fn view(&self) -> StoreView {
        StoreView {
            assets: self.assets@,
            index: self.index@,
            keycloak_config: self.keycloak_config@,
        }
    }
}

impl AssetStore {
    #[verifier::type_invariant]
    spec fn not_found_is_fixed(self) -> bool {
        buffer_bytes(self.not_found) == encode_utf8("not found"@) && self.not_found_mime@
            == "text/plain"@
    }

    /// Builds the store of a package. `keycloak_config` is the JSON
    /// document that is served beside the assets.
    pub fn build(package: &AssetPackage, public_url: &str, keycloak_config: &[u8]) -> (made:
        Result<Self, BuildError>)
        ensures
            match made {
                Ok(store) => built(package@, public_url@, keycloak_config@) == Ok::<
                    StoreView,
                    BuildError,
                >(store@),
                Err(error) => built(package@, public_url@, keycloak_config@) == Err::<
                    StoreView,
                    BuildError,
                >(error),
            },
    {
        let (at, index_asset) = match package.index_asset() {
            Some(found) => found,
            None => { return Err(BuildError::IndexNotFound); },
        };
        let target_url = package.target_url.as_str();
        let index = match EmbeddedAsset::new(index_asset, false, target_url, public_url) {
            Some(index) => index,
            None => { return Err(BuildError::InvalidText(at)); },
        };
        let assets = match EmbeddedAssetMap::new(
            package.assets.as_slice(),
            target_url,
            public_url,
            at,
        ) {
            Ok(assets) => assets,
            Err(error) => { return Err(error); },
        };
        let not_found_mime = "text/plain".to_owned();
        let not_found = buffer_from_vec(vstd::slice::slice_to_vec("not found".as_bytes()));
        let keycloak_config = EmbeddedAsset::json(keycloak_config);
        Ok(AssetStore { not_found_mime, not_found, assets, index, keycloak_config })
    }

    /// Opens an archive and builds its store, with the public URL of the
    /// configuration.
    pub fn new(cfg: &ServerConfig, archive: &[u8], keycloak_config: &[u8]) -> (made: Result<
        Self,
        BuildError,
    >)
        ensures
            match made {
                Ok(store) => opened(archive@, cfg@.public_url, keycloak_config@) == Ok::<
                    StoreView,
                    BuildError,
                >(store@),
                Err(error) => opened(archive@, cfg@.public_url, keycloak_config@) == Err::<
                    StoreView,
                    BuildError,
                >(error),
            },
    {
        match unpack(archive) {
            Ok(package) => Self::build(&package, cfg.public_url(), keycloak_config),
            Err(error) => Err(error),
        }
    }

    /// The asset filed under this path, or the not-found response. There is
    /// an answer for every path.
    pub fn get(&self, id: &str) -> (found: EmbeddedAsset)
        ensures
            found@ == self@.lookup(id@),
    {
        proof {
            use_type_invariant(self);
        }
        match map_get(&self.assets.inner, id) {
            Some(asset) => asset.clone(),
            None => EmbeddedAsset::not_found(
                buffer_share(&self.not_found),
                self.not_found_mime.clone(),
            ),
        }
    }

    /// The index document.
    pub fn index(&self) -> (found: EmbeddedAsset)
        ensures
            found@ == self@.index,
    {
        self.index.clone()
    }

    /// The auxiliary JSON document.
    pub fn keycloak_config(&self) -> (found: EmbeddedAsset)
        ensures
            found@ == self@.keycloak_config,
    {
        self.keycloak_config.clone()
    }
}

struct Inner {
    config: ServerConfig,
    store: AssetStore,
}

/// The one context that every request handler is given: the configuration
/// and the store, shared and never changed.
#[derive(Clone)]
pub struct App {
    inner: Arc<Inner>,
}

impl App {
    /// Builds the store for a configuration.
    pub fn new(config: ServerConfig, archive: &[u8], keycloak_config: &[u8]) -> (made: Result<
        Self,
        BuildError,
    >)
        ensures
            match made {
                Ok(app) => app.spec_cfg() == config && opened(
                    archive@,
                    config@.public_url,
                    keycloak_config@,
                ) == Ok::<StoreView, BuildError>(app.spec_store()@),
                Err(error) => opened(archive@, config@.public_url, keycloak_config@) == Err::<
                    StoreView,
                    BuildError,
                >(error),
            },
    {
        match AssetStore::new(&config, archive, keycloak_config) {
            Ok(store) => Ok(App { inner: Arc::new(Inner { store, config }) }),
            Err(error) => Err(error),
        }
    }

    pub closed spec fn spec_cfg(&self) -> ServerConfig {
        self.inner.config
    }

    pub closed spec fn spec_store(&self) -> AssetStore {
        self.inner.store
    }

    pub fn cfg(&self) -> (config: &ServerConfig)
        ensures
            *config == self.spec_cfg(),
    {
        &self.inner.config
    }

    pub fn store(&self) -> (store: &AssetStore)
        ensures
            *store == self.spec_store(),
    {
        &self.inner.store
    }
}

/// A path is in the table exactly when an asset other than the index
/// document has it.
pub proof fn lemma_table_paths(
    assets: Seq<AssetView>,
    upto: nat,
    skip: int,
    target_url: Seq<char>,
    public_url: Seq<char>,
    path: Seq<char>,
)
    requires
        upto <= assets.len(),
        first_unprepared(assets, 0, skip, target_url, public_url) == assets.len(),
    ensures
        asset_table(assets, upto, skip, target_url, public_url).contains_key(path) <==> exists|
            at: int,
        |
            0 <= at < upto && at != skip && #[trigger] assets[at].path == path,
    decreases upto,
{
    if upto > 0 {
        let last = upto - 1;
        lemma_table_paths(assets, last as nat, skip, target_url, public_url, path);
        lemma_all_prepared(assets, 0, skip, target_url, public_url, last);
        let before = asset_table(assets, last as nat, skip, target_url, public_url);
        if before.contains_key(path) {
            let at = choose|at: int| 0 <= at < last && at != skip && #[trigger] assets[at].path == path;
            assert(0 <= at < upto && at != skip && assets[at].path == path);
        }
        if exists|at: int| 0 <= at < upto && at != skip && #[trigger] assets[at].path == path {
            let at = choose|at: int| 0 <= at < upto && at != skip && #[trigger] assets[at].path == path;
            if at < last {
                assert(0 <= at < last && at != skip && assets[at].path == path);
            }
        }
    }
}

/// The first unprepared asset lies at or behind `from`, and there is none
/// behind the last asset.
pub proof fn lemma_first_unprepared_in_range(
    assets: Seq<AssetView>,
    from: int,
    skip: int,
    target_url: Seq<char>,
    public_url: Seq<char>,
)
    requires
        0 <= from <= assets.len(),
    ensures
        from <= first_unprepared(assets, from, skip, target_url, public_url) <= assets.len(),
    decreases assets.len() - from,
{
    if from < assets.len() {
        lemma_first_unprepared_in_range(assets, from + 1, skip, target_url, public_url);
    }
}

/// Where no asset from `from` on is unprepared, each of them can be prepared.
pub proof fn lemma_all_prepared(
    assets: Seq<AssetView>,
    from: int,
    skip: int,
    target_url: Seq<char>,
    public_url: Seq<char>,
    at: int,
)
    requires
        0 <= from <= at < assets.len(),
        first_unprepared(assets, from, skip, target_url, public_url) == assets.len(),
    ensures
        at != skip ==> prepared(assets[at], true, target_url, public_url) is Some,
    decreases at - from,
{
    if from < at {
        lemma_all_prepared(assets, from + 1, skip, target_url, public_url, at);
    }
}

/// Where several assets have one path, the table holds the last of them.
pub proof fn lemma_last_asset_wins(
    assets: Seq<AssetView>,
    upto: nat,
    skip: int,
    target_url: Seq<char>,
    public_url: Seq<char>,
    at: int,
)
    requires
        0 <= at < upto <= assets.len(),
        at != skip,
        first_unprepared(assets, 0, skip, target_url, public_url) == assets.len(),
        forall|later: int|
            at < later < upto && later != skip ==> (#[trigger] assets[later]).path
                != assets[at].path,
    ensures
        asset_table(assets, upto, skip, target_url, public_url).contains_key(assets[at].path),
        Some(asset_table(assets, upto, skip, target_url, public_url)[assets[at].path])
            == prepared(assets[at], true, target_url, public_url),
    decreases upto,
{
    let last = upto - 1;
    lemma_all_prepared(assets, 0, skip, target_url, public_url, last);
    if at < last {
        lemma_last_asset_wins(assets, last as nat, skip, target_url, public_url, at);
        if last != skip {
            assert(assets[last].path != assets[at].path);
        }
    }
}

/// A store answers every path: one that it does not hold gets the
/// not-found response, with status 404 and never to be cached.
pub proof fn lemma_total_lookup(store: StoreView, path: Seq<char>)
    requires
        !store.assets.contains_key(path),
    ensures
        store.lookup(path) == not_found_view(),
        store.lookup(path).status == 404,
        !store.lookup(path).cache,
{
}

/// The store of a package gives the not-found response for every path
/// that none of its assets has.
pub proof fn lemma_unlisted_path_not_found(
    package: PackageView,
    public_url: Seq<char>,
    document: Seq<u8>,
    store: StoreView,
    path: Seq<char>,
)
    requires
        built(package, public_url, document) == Ok::<StoreView, BuildError>(store),
        forall|at: int| 0 <= at < package.assets.len() ==> (#[trigger] package.assets[at]).path != path,
    ensures
        store.lookup(path) == not_found_view(),
{
    assert(package.has_index());
    let index = package.index as int;
    assert(prepared(package.assets[index], false, package.target_url, public_url) is Some);
    lemma_first_unprepared_in_range(package.assets, 0, index, package.target_url, public_url);
    lemma_table_paths(
        package.assets,
        package.assets.len(),
        package.index as int,
        package.target_url,
        public_url,
        path,
    );
}

/// A package whose `index` addresses none of its assets gives no store.
pub proof fn lemma_missing_index_fails(
    package: PackageView,
    public_url: Seq<char>,
    document: Seq<u8>,
)
    requires
        !package.has_index(),
    ensures
        built(package, public_url, document) == Err::<StoreView, BuildError>(
            BuildError::IndexNotFound,
        ),
{
}

} // verus!
