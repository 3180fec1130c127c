//! Building a package from a manifest and the files it lists.

use vstd::prelude::*;
use vstd::string::StringExecFns;
use crate::text::same_text;
use crate::archive::{pack, packed, unpacked, BuildError};
use crate::package::{
    views, Asset, AssetPackage, AssetView, LocaleView, PackageView, WebComponent,
    WebComponentView,
};

verus! {

/// What is to be bundled: the package's own fields, the names of its asset
/// files in the order given, and its web components as pairs of name and
/// path. The pairs are a map from names to paths: in a well-formed
/// manifest no name occurs twice.
#[derive(Debug, Clone, Default, PartialEq, Eq)]
pub struct Manifest {
    pub name: String,
    pub version: String,
    pub target_url: String,
    pub assets: Vec<String>,
    pub web_components: Vec<(String, String)>,
}

/// What a [`Manifest`] stands for in contracts.
pub ghost struct ManifestView {
    pub name: Seq<char>,
    pub version: Seq<char>,
    pub target_url: Seq<char>,
    pub assets: Seq<Seq<char>>,
    pub web_components: Seq<(Seq<char>, Seq<char>)>,
}

impl ManifestView {
    /// The web components are a map from names to paths: no name occurs twice.
    pub open spec fn well_formed(self) -> bool {
        forall|i: int, j: int|
            0 <= i < j < self.web_components.len() ==> (#[trigger] self.web_components[i]).0 != (
            #[trigger] self.web_components[j]).0
    }
}

impl View for Manifest {
    type V = ManifestView;

    open spec fn view(&self) -> ManifestView {
        ManifestView {
            name: self.name@,
            version: self.version@,
            target_url: self.target_url@,
            assets: Seq::new(self.assets@.len(), |i: int| self.assets@[i]@),
            web_components: Seq::new(
                self.web_components@.len(),
                |i: int| (self.web_components@[i].0@, self.web_components@[i].1@),
            ),
        }
    }
}

/// The mime type that `mime_guess` gives a path by its extension, or
/// `application/octet-stream` where it knows none.
pub uninterp spec fn guessed_mime(path: Seq<char>) -> Seq<char>;

/// `mime_guess::from_path`, then `first_or_octet_stream`, as text.
#[verifier::external_body]
fn guess_mime(path: &str) -> (mime: String)
    ensures
        mime@ == guessed_mime(path@),
{
    mime_guess::from_path(path).first_or_octet_stream().to_string()
}

/// `mime::TEXT_HTML_UTF_8` as text.
#[verifier::external_body]
fn html_mime() -> (mime: String)
    ensures
        mime@ == "text/html; charset=utf-8"@,
{
    mime::TEXT_HTML_UTF_8.to_string()
}

/// The asset that a listed file becomes.
pub open spec fn listed(name: Seq<char>, content: Seq<u8>) -> AssetView {
    AssetView { path: name, mime: guessed_mime(name), bytes: content }
}

/// The index document as an asset: it answers for the root path.
pub open spec fn index_document(content: Seq<u8>) -> AssetView {
    AssetView { path: "/"@, mime: "text/html; charset=utf-8"@, bytes: content }
}

/// The favicon as an asset.
pub open spec fn favicon_asset(content: Seq<u8>) -> AssetView {
    AssetView { path: "favicon.ico"@, mime: "image/x-icon"@, bytes: content }
}

/// The index document where there is one, as a sequence of at most one asset.
pub open spec fn index_part(content: Option<Seq<u8>>) -> Seq<AssetView> {
    match content {
        Some(content) => seq![index_document(content)],
        None => Seq::empty(),
    }
}

/// The favicon where there is one, as a sequence of at most one asset.
pub open spec fn favicon_part(content: Option<Seq<u8>>) -> Seq<AssetView> {
    match content {
        Some(content) => seq![favicon_asset(content)],
        None => Seq::empty(),
    }
}

/// The package that a manifest and its files give.
///
/// The index document comes first where there is one, and `index` points at
/// it; else `index` is -1. The favicon follows where there is one. Then
/// come `files`. `updated` is `created`. Every web component has its name
/// and path and no locales.
pub open spec fn assembled(
    manifest: ManifestView,
    index_html: Option<Seq<u8>>,
    favicon: Option<Seq<u8>>,
    files: Seq<AssetView>,
    created: i64,
) -> PackageView {
    PackageView {
        name: manifest.name,
        index: if index_html is Some {
            0i64
        } else {
            -1i64
        },
        version: manifest.version,
        target_url: manifest.target_url,
        assets: index_part(index_html) + favicon_part(favicon) + files,
        created,
        updated: created,
        web_components: Seq::new(
            manifest.web_components.len(),
            |i: int|
                WebComponentView {
                    name: manifest.web_components[i].0,
                    path: manifest.web_components[i].1,
                    locales: Seq::<LocaleView>::empty(),
                },
        ),
    }
}

/// The assets of the listed files, in the order of the manifest.
pub open spec fn listed_all(names: Seq<Seq<char>>, contents: Seq<Seq<u8>>) -> Seq<AssetView> {
    Seq::new(names.len(), |i: int| listed(names[i], contents[i]))
}

/// The package that a manifest and the contents of its files give: the
/// listed files follow the index document and the favicon, the last of
/// the manifest first.
pub open spec fn parsed(
    manifest: ManifestView,
    index_html: Option<Seq<u8>>,
    favicon: Option<Seq<u8>>,
    contents: Seq<Seq<u8>>,
    created: i64,
) -> PackageView {
    assembled(
        manifest,
        index_html,
        favicon,
        listed_all(manifest.assets, contents).reverse(),
        created,
    )
}

/// No two of the web components have one name.
pub open spec fn distinct_names(components: Seq<WebComponentView>) -> bool {
    forall|i: int, j: int|
        0 <= i < j < components.len() ==> (#[trigger] components[i]).name != (
        #[trigger] components[j]).name
}

/// The web components of a package that is put together from a
/// well-formed manifest have distinct names.
pub proof fn lemma_component_names_are_distinct(
    manifest: ManifestView,
    index_html: Option<Seq<u8>>,
    favicon: Option<Seq<u8>>,
    files: Seq<AssetView>,
    created: i64,
)
    requires
        manifest.well_formed(),
    ensures
        distinct_names(assembled(manifest, index_html, favicon, files, created).web_components),
{
    let components = assembled(manifest, index_html, favicon, files, created).web_components;
    assert forall|i: int, j: int| 0 <= i < j < components.len() implies (
    #[trigger] components[i]).name != (#[trigger] components[j]).name by {
        assert(manifest.web_components[i].0 != manifest.web_components[j].0);
    }
}

/// The bytes of a file that may be missing.
pub open spec fn content_of(content: Option<Vec<u8>>) -> Option<Seq<u8>> {
    match content {
        Some(content) => Some(content@),
        None => None,
    }
}

impl Manifest {
    /// Whether no web component name occurs twice.
    pub fn is_well_formed(&self) -> (answer: bool)
        ensures
            answer == self@.well_formed(),
    {
        let count = self.web_components.len();
        let mut j: usize = 0;
        while j < count
            invariant
                j <= count == self.web_components@.len(),
                forall|a: int, b: int|
                    0 <= a < b < j ==> (#[trigger] self@.web_components[a]).0 != (
                    #[trigger] self@.web_components[b]).0,
            decreases count - j,
        {
            let mut i: usize = 0;
            while i < j
                invariant
                    i <= j < count == self.web_components@.len(),
                    forall|a: int|
                        0 <= a < i ==> (#[trigger] self@.web_components[a]).0
                            != self@.web_components[j as int].0,
                decreases j - i,
            {
                if same_text(self.web_components[i].0.as_str(), self.web_components[j].0.as_str()) {
                    assert(self@.web_components[i as int].0 == self@.web_components[j as int].0);
                    return false;
                }
                i += 1;
            }
            j += 1;
        }
        true
    }
}

/// A well-formed manifest on its way to a package.
pub struct Parser {
    manifest: Manifest,
}

impl Parser {
    #[verifier::type_invariant]
    spec fn holds_a_map(self) -> bool {
        self.manifest@.well_formed()
    }

    pub closed spec fn manifest(&self) -> Manifest {
        self.manifest
    }

    /// Takes a manifest whose web components are a map.
    pub fn new(manifest: Manifest) -> (parser: Parser)
        requires
            manifest@.well_formed(),
        ensures
            parser.manifest() == manifest,
    {
        Parser { manifest }
    }

    /// The names of the files whose contents `parse` asks for, in the
    /// order of the manifest.
    pub fn asset_names(&self) -> (names: &Vec<String>)
        ensures
            *names == self.manifest().assets,
    {
        &self.manifest.assets
    }

    /// The name of the archive file: the package's name and `.ars`.
    pub fn archive_name(&self) -> (name: String)
        ensures
            name@ == self.manifest().name@ + ".ars"@,
    {
        self.manifest.name.clone().concat(".ars")
    }

    /// The asset of a listed file: its mime type is guessed from its name.
    pub fn listed_asset(name: String, content: Vec<u8>) -> (asset: Asset)
        ensures
            asset@ == listed(name@, content@),
    {
        let mime = guess_mime(name.as_str());
        Asset { path: name, mime, bytes: content }
    }

    /// Puts a package together from assets that are ready: `files` follow
    /// the index document and the favicon in the order given.
    pub fn assemble(
        self,
        index_html: Option<Vec<u8>>,
        favicon: Option<Vec<u8>>,
        files: Vec<Asset>,
        created: i64,
    ) -> (package: AssetPackage)
        ensures
            package@ == assembled(
                self.manifest()@,
                content_of(index_html),
                content_of(favicon),
                views(files@),
                created,
            ),
            distinct_names(package@.web_components),
    {
        proof {
            use_type_invariant(&self);
            lemma_component_names_are_distinct(
                self.manifest()@,
                content_of(index_html),
                content_of(favicon),
                views(files@),
                created,
            );
        }
        let mut files = files;
        let ghost listed_files = views(files@);
        let mut index: i64 = -1;
        let mut assets: Vec<Asset> = Vec::new();
        match index_html {
            Some(content) => {
                index = 0;
                assets.push(Asset { path: "/".to_owned(), mime: html_mime(), bytes: content });
            },
            None => {},
        }
        match favicon {
            Some(content) => {
                assets.push(
                    Asset {
                        path: "favicon.ico".to_owned(),
                        mime: "image/x-icon".to_owned(),
                        bytes: content,
                    },
                );
            },
            None => {},
        }
        let ghost fixed = views(assets@);
        assert(fixed =~= index_part(content_of(index_html)) + favicon_part(content_of(favicon)));
        assets.append(&mut files);
        assert(views(assets@) =~= fixed + listed_files);
        let Parser { manifest } = self;
        let count = manifest.web_components.len();
        let mut web_components: Vec<WebComponent> = Vec::new();
        let mut i: usize = 0;
        while i < count
            invariant
                i <= count == manifest.web_components@.len(),
                web_components@.len() == i,
                forall|j: int|
                    0 <= j < i ==> (#[trigger] web_components@[j])@ == (WebComponentView {
                        name: manifest@.web_components[j].0,
                        path: manifest@.web_components[j].1,
                        locales: Seq::<LocaleView>::empty(),
                    }),
            decreases count - i,
        {
            let pair = &manifest.web_components[i];
            let made = WebComponent {
                name: pair.0.clone(),
                path: pair.1.clone(),
                locales: Vec::new(),
            };
            assert(made@.locales =~= Seq::<LocaleView>::empty());
            web_components.push(made);
            i += 1;
        }
        let Manifest { name, version, target_url, assets: _, web_components: _ } = manifest;
        let package = AssetPackage {
            name,
            index,
            version,
            target_url,
            assets,
            created,
            updated: created,
            web_components,
        };
        assert(package@.web_components =~= assembled(
            self.manifest()@,
            content_of(index_html),
            content_of(favicon),
            listed_files,
            created,
        ).web_components);
        package
    }

    /// Builds the package of the manifest and packs it into an archive.
    ///
    /// `contents` holds the contents of the listed files in the order of
    /// the manifest, `created` the time of the build in milliseconds.
    pub fn parse(
        self,
        index_html: Option<Vec<u8>>,
        favicon: Option<Vec<u8>>,
        contents: Vec<Vec<u8>>,
        created: i64,
    ) -> (archive: Vec<u8>)
        requires
            contents@.len() == self.manifest().assets@.len(),
        ensures
            archive@ == packed(
                parsed(
                    self.manifest()@,
                    content_of(index_html),
                    content_of(favicon),
                    Seq::new(contents@.len(), |i: int| contents@[i]@),
                    created,
                ),
            ),
            unpacked(archive@) == Ok::<PackageView, BuildError>(
                parsed(
                    self.manifest()@,
                    content_of(index_html),
                    content_of(favicon),
                    Seq::new(contents@.len(), |i: int| contents@[i]@),
                    created,
                ),
            ),
            distinct_names(
                parsed(
                    self.manifest()@,
                    content_of(index_html),
                    content_of(favicon),
                    Seq::new(contents@.len(), |i: int| contents@[i]@),
                    created,
                ).web_components,
            ),
    {
        proof {
            use_type_invariant(&self);
        }
        let mut contents = contents;
        let ghost names = self.manifest()@.assets;
        let ghost bodies = Seq::new(contents@.len(), |i: int| contents@[i]@);
        let ghost all = listed_all(names, bodies);
        let Parser { manifest } = self;
        let Manifest { name, version, target_url, assets, web_components } = manifest;
        let mut listed_names = assets;
        let mut files: Vec<Asset> = Vec::new();
        assert(views(files@) =~= all.reverse().take(0));
        while listed_names.len() > 0
            invariant
                all == listed_all(names, bodies),
                names.len() == bodies.len(),
                listed_names@.len() == contents@.len() <= names.len(),
                forall|i: int| 0 <= i < contents@.len() ==> (#[trigger] listed_names@[i])@ == names[i],
                forall|i: int| 0 <= i < contents@.len() ==> (#[trigger] contents@[i])@ == bodies[i],
                views(files@) == all.reverse().take(names.len() - contents@.len()),
            decreases contents@.len(),
        {
            let ghost before = views(files@);
            let ghost left = contents@.len();
            let listed_name = listed_names.pop().unwrap();
            let content = contents.pop().unwrap();
            let asset = Self::listed_asset(listed_name, content);
            assert(asset@ == all[left - 1]);
            files.push(asset);
            assert(views(files@) =~= before.push(asset@));
            assert(views(files@) =~= all.reverse().take(names.len() - contents@.len()));
        }
        let rest = Manifest { name, version, target_url, assets: listed_names, web_components };
        assert(rest@.web_components =~= self.manifest()@.web_components);
        let parser = Parser { manifest: rest };
        assert(views(files@) =~= all.reverse());
        let package = parser.assemble(index_html, favicon, files, created);
        assert(package@ == parsed(
            self.manifest()@,
            content_of(index_html),
            content_of(favicon),
            bodies,
            created,
        ));
        pack(package)
    }
}

} // verus!
