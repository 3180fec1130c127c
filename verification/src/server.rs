//! Which response a request gets. The decision rests on the path alone.

use vstd::prelude::*;
use vstd::string::StrSliceExecFns;
use crate::context::{App, StoreView};
use crate::embedded_asset::{EmbeddedAsset, PreparedView};
use crate::text::{has_dot, same_text};

verus! {

/// The answer to a path below the root, given without its leading slash:
/// the index document where the path has no dot in it, else what the
/// store holds under the path.
pub open spec fn routed(store: StoreView, asset: Seq<char>) -> PreparedView {
    if !asset.contains('.') {
        store.index
    } else {
        store.lookup(asset)
    }
}

/// The answer to a request path.
///
/// The well-known configuration path gets the auxiliary document. Any
/// other path that is a slash and more is answered by [`routed`] for what
/// follows the slash. Everything else gets the index document.
pub open spec fn answered(store: StoreView, path: Seq<char>) -> PreparedView {
    if path == "/.well-known/config"@ {
        store.keycloak_config
    } else if path.len() > 1 && path[0] == '/' {
        routed(store, path.skip(1))
    } else {
        store.index
    }
}

/// Answers a path below the root, given without its leading slash.
pub fn route(app: &App, asset: &str) -> (found: EmbeddedAsset)
    ensures
        found@ == routed(app.spec_store()@, asset@),
{
    if !has_dot(asset) {
        return app.store().index();
    }
    app.store().get(asset)
}

/// Answers the well-known configuration path.
pub fn keycloak_config(app: &App) -> (found: EmbeddedAsset)
    ensures
        found@ == app.spec_store()@.keycloak_config,
{
    app.store().keycloak_config()
}

/// Answers what no other route matches.
pub fn index(app: &App) -> (found: EmbeddedAsset)
    ensures
        found@ == app.spec_store()@.index,
{
    app.store().index()
}

/// Answers a request path.
pub fn respond(app: &App, path: &str) -> (found: EmbeddedAsset)
    ensures
        found@ == answered(app.spec_store()@, path@),
{
    if same_text(path, "/.well-known/config") {
        return keycloak_config(app);
    }
    let len = path.unicode_len();
    if len > 1 && path.get_char(0) == '/' {
        return route(app, path.substring_char(1, len));
    }
    index(app)
}

/// A path without a dot gets the index document: the root path itself and
/// every route that only the client knows.
pub proof fn lemma_index_reachable(store: StoreView, path: Seq<char>)
    requires
        !path.contains('.'),
    ensures
        answered(store, path) == store.index,
{
    reveal_strlit("/.well-known/config");
    assert("/.well-known/config"@[1] == '.');
    if path.len() > 1 && path[0] == '/' {
        let rest = path.skip(1);
        if rest.contains('.') {
            let i = choose|i: int| 0 <= i < rest.len() && rest[i] == '.';
            assert(path[i + 1] == '.');
        }
    }
}

} // verus!
