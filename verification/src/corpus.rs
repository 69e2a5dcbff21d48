//! The normalized corpus of a workspace: documentation of items and Markdown
//! documents, each with the package it belongs to.
use cargo_metadata::semver::Version;
use vstd::prelude::*;
use crate::document;
use crate::document::{DocumentView, KnowledgeDocument, PackageIdentity, PackageView};
use crate::error::IndexError;
use crate::markdown;
use crate::markdown::{MarkdownFile, MarkdownFileView};
use crate::order;
use crate::pieces;
use crate::text;
use crate::words;

verus! {

// ---------------------------------------------------------------------------
// Scope
// ---------------------------------------------------------------------------

/// Where a package of the resolved graph comes from.
#[derive(Clone, Copy, Debug, PartialEq, Eq, Structural)]
pub enum Origin {
    /// A member of the workspace.
    Workspace,
    /// A path dependency.
    Path,
    Registry,
    Git,
}

impl Origin {
    /// The name of the origin.
    pub open spec fn name(self) -> Seq<char> {
        match self {
            Origin::Workspace => "workspace"@,
            Origin::Path => "path"@,
            Origin::Registry => "registry"@,
            Origin::Git => "git"@,
        }
    }

    /// The name of the origin.
    pub fn as_str(self) -> (r: &'static str)
        ensures
            r@ == self.name(),
    {
        match self {
            Origin::Workspace => "workspace",
            Origin::Path => "path",
            Origin::Registry => "registry",
            Origin::Git => "git",
        }
    }
}

/// Where a package comes from: the source tells repositories and paths from
/// registries; a package without a source is local.
pub open spec fn origin_for(member: bool, source: Option<Seq<char>>) -> Origin {
    match source {
        Some(s) => if "git+"@.is_prefix_of(s) {
            Origin::Git
        } else if "path+"@.is_prefix_of(s) {
            Origin::Path
        } else {
            Origin::Registry
        },
        None => if member {
            Origin::Workspace
        } else {
            Origin::Path
        },
    }
}

/// Where a package comes from, given whether it is a member of the workspace and
/// the source that Cargo gives it.
pub fn origin_of(member: bool, source: &Option<String>) -> (r: Origin)
    ensures
        r == origin_for(member, words::shown(*source)),
{
    match source {
        Some(s) => if pieces::starts_with_text(s.as_str(), "git+") {
            Origin::Git
        } else if pieces::starts_with_text(s.as_str(), "path+") {
            Origin::Path
        } else {
            Origin::Registry
        },
        None => if member {
            Origin::Workspace
        } else {
            Origin::Path
        },
    }
}

/// Whether a spec names a package: by its name, or by name and version.
pub fn names_package(spec: &str, package: &PackageIdentity) -> (r: bool)
    ensures
        r == (spec@ == package@.name || spec@ == package@.display()),
{
    text::same_text(spec, package.name.as_str()) || text::same_text(
        spec,
        package.display().as_str(),
    )
}

/// Which packages get documentation generated for their items.
#[derive(Clone, Copy, Debug, PartialEq, Eq, Structural)]
pub enum RustdocScope {
    /// Workspace members and path dependencies.
    Workspace,
    /// Everything in the resolved graph; failures are skipped.
    All,
    /// No documentation of items.
    MarkdownOnly,
}

impl Default for RustdocScope {
    fn default() -> (r: Self)
        ensures
            r == RustdocScope::Workspace,
    {
        RustdocScope::Workspace
    }
}

impl RustdocScope {
    /// The scope with that name.
    pub open spec fn named(s: Seq<char>) -> Option<RustdocScope> {
        if s == "workspace"@ {
            Some(RustdocScope::Workspace)
        } else if s == "all"@ {
            Some(RustdocScope::All)
        } else if s == "none"@ {
            Some(RustdocScope::MarkdownOnly)
        } else {
            None
        }
    }

    /// Reads the name of a scope.
    pub fn parse(s: &str) -> (r: Option<RustdocScope>)
        ensures
            r == RustdocScope::named(s@),
    {
        if text::same_text(s, "workspace") {
            Some(RustdocScope::Workspace)
        } else if text::same_text(s, "all") {
            Some(RustdocScope::All)
        } else if text::same_text(s, "none") {
            Some(RustdocScope::MarkdownOnly)
        } else {
            None
        }
    }

    /// Whether a package of that origin is in scope.
    pub open spec fn covers(self, origin: Origin) -> bool {
        match self {
            RustdocScope::MarkdownOnly => false,
            RustdocScope::Workspace => origin is Workspace || origin is Path,
            RustdocScope::All => true,
        }
    }

    /// Whether a package of that origin is in scope.
    pub fn includes(self, origin: Origin) -> (r: bool)
        ensures
            r == self.covers(origin),
    {
        match self {
            RustdocScope::MarkdownOnly => false,
            RustdocScope::Workspace => matches!(origin, Origin::Workspace | Origin::Path),
            RustdocScope::All => true,
        }
    }
}

/// What a corpus is built with.
#[derive(Clone, Copy, Debug, PartialEq, Eq, Structural)]
pub struct CorpusOptions {
    pub rustdoc_scope: RustdocScope,
}

impl Default for CorpusOptions {
    fn default() -> (r: Self)
        ensures
            r.rustdoc_scope == RustdocScope::Workspace,
    {
        CorpusOptions { rustdoc_scope: RustdocScope::Workspace }
    }
}

// ---------------------------------------------------------------------------
// What goes in and what comes out
// ---------------------------------------------------------------------------

/// A package with its Markdown files, each with its text where it could be read.
#[derive(Debug)]
pub struct PackageInput {
    pub identity: PackageIdentity,
    pub origin: Origin,
    pub files: Vec<(MarkdownFile, Option<String>)>,
}

/// What the generated documentation of one package gave.
#[derive(Debug)]
pub struct NormalizedRustdoc {
    pub format_version: u32,
    pub warnings: Vec<String>,
    pub documents: Vec<KnowledgeDocument>,
}

/// The generated documentation of one package.
#[derive(Debug)]
pub struct RustdocArtifact {
    pub cargo_version: Option<String>,
    pub normalized: Result<NormalizedRustdoc, IndexError>,
}

/// What generating documentation gave: an artifact for each package that
/// worked, and package and reason for each that did not.
#[derive(Debug)]
pub struct GeneratedRustdoc {
    pub artifacts: Vec<RustdocArtifact>,
    pub skipped: Vec<(String, String)>,
}

/// What is counted while a corpus is built.
#[derive(Clone, Debug)]
pub struct CorpusReport {
    pub packages: usize,
    pub markdown_files: usize,
    pub rustdoc_packages: usize,
    pub markdown_documents: usize,
    pub rustdoc_documents: usize,
    pub rustdoc_format_version: Option<u32>,
    pub cargo_version: Option<String>,
    pub warnings: Vec<String>,
    pub skipped: Vec<(String, String)>,
}

/// What a package input shows.
pub struct InputView {
    pub package: PackageView,
    pub origin: Origin,
    pub files: Seq<(MarkdownFileView, Option<Seq<char>>)>,
}

impl View for PackageInput {
    type V = InputView;

    open spec fn view(&self) -> InputView {
        InputView {
            package: self.identity@,
            origin: self.origin,
            files: self.files@.map_values(
                |f: (MarkdownFile, Option<String>)| (f.0@, words::shown(f.1)),
            ),
        }
    }
}

/// What package inputs show.
pub open spec fn input_views(packages: Seq<PackageInput>) -> Seq<InputView> {
    packages.map_values(|p: PackageInput| p@)
}

// ---------------------------------------------------------------------------
// Selection
// ---------------------------------------------------------------------------

/// The positions of the packages in scope, in order.
pub open spec fn in_scope(scope: RustdocScope, origins: Seq<Origin>) -> Seq<usize>
    decreases origins.len(),
{
    if origins.len() == 0 {
        Seq::empty()
    } else {
        let before = in_scope(scope, origins.drop_last());
        if scope.covers(origins.last()) {
            before.push((origins.len() - 1) as usize)
        } else {
            before
        }
    }
}

/// The positions of the packages to generate documentation for.
pub fn rustdoc_selection(options: &CorpusOptions, origins: &Vec<Origin>) -> (r: Vec<usize>)
    ensures
        r@ == in_scope(options.rustdoc_scope, origins@),
{
    let mut out: Vec<usize> = Vec::new();
    let mut i: usize = 0;
    while i < origins.len()
        invariant
            i <= origins@.len(),
            out@ == in_scope(options.rustdoc_scope, origins@.take(i as int)),
        decreases origins@.len() - i,
    {
        assert(origins@.take(i + 1).drop_last() == origins@.take(i as int));
        if options.rustdoc_scope.includes(origins[i]) {
            out.push(i);
        }
        i = i + 1;
    }
    assert(origins@.take(origins@.len() as int) == origins@);
    out
}

// ---------------------------------------------------------------------------
// Package order
// ---------------------------------------------------------------------------

/// Whether a version has lower precedence than another.
pub uninterp spec fn version_less(a: Seq<char>, b: Seq<char>) -> bool;

/// `semver::Version` by `parse` and `<`: whether the first version has lower
/// precedence than the second, under the name `version_less`. What is no version
/// has no precedence over anything.
#[verifier::external_body]
fn is_version_less(a: &str, b: &str) -> (r: bool)
    ensures
        r == version_less(a@, b@),
{
    match (Version::parse(a), Version::parse(b)) {
        (Ok(x), Ok(y)) => x < y,
        _ => false,
    }
}

/// Whether a package goes before another: by name, then by version.
pub open spec fn package_before(a: PackageView, b: PackageView) -> bool {
    order::text_less(a.name, b.name) || (a.name == b.name && version_less(a.version, b.version))
}

/// Where package `k` goes among `placed`: behind the last one that it does not
/// go before.
pub open spec fn insert_point(packages: Seq<PackageView>, placed: Seq<usize>, k: int) -> int
    decreases placed.len(),
{
    if placed.len() == 0 {
        0
    } else if package_before(packages[k], packages[placed.last() as int]) {
        insert_point(packages, placed.drop_last(), k)
    } else {
        placed.len() as int
    }
}

/// The positions of the first `n` packages, by name and version; packages that
/// do not differ in these stay in the order given.
pub open spec fn package_order(packages: Seq<PackageView>, n: int) -> Seq<usize>
    decreases n,
{
    if n <= 0 {
        Seq::empty()
    } else {
        let placed = package_order(packages, n - 1);
        placed.insert(insert_point(packages, placed, n - 1), (n - 1) as usize)
    }
}

/// What the packages of some inputs show.
pub open spec fn package_views(packages: Seq<PackageInput>) -> Seq<PackageView> {
    packages.map_values(|p: PackageInput| p.identity@)
}

/// The insertion point lies within the list.
pub proof fn lemma_insert_point(packages: Seq<PackageView>, placed: Seq<usize>, k: int)
    ensures
        0 <= insert_point(packages, placed, k) <= placed.len(),
    decreases placed.len(),
{
    if placed.len() > 0 {
        lemma_insert_point(packages, placed.drop_last(), k);
    }
}

/// The insertion point, where everything behind it goes behind the package.
proof fn lemma_insert_point_at(packages: Seq<PackageView>, placed: Seq<usize>, k: int, at: int)
    requires
        0 <= at <= placed.len(),
        forall|i: int|
            at <= i < placed.len() ==> package_before(
                packages[k],
                packages[#[trigger] placed[i] as int],
            ),
        at > 0 ==> !package_before(packages[k], packages[placed[at - 1] as int]),
    ensures
        insert_point(packages, placed, k) == at,
    decreases placed.len(),
{
    if placed.len() > at {
        assert(package_before(packages[k], packages[placed[placed.len() - 1] as int]));
        let init = placed.drop_last();
        assert forall|i: int| at <= i < init.len() implies package_before(
            packages[k],
            packages[#[trigger] init[i] as int],
        ) by {
            assert(package_before(packages[k], packages[placed[i] as int]));
        }
        lemma_insert_point_at(packages, init, k, at);
    }
}

/// The order lists each of the first `n` positions once.
pub proof fn lemma_package_order(packages: Seq<PackageView>, n: int)
    requires
        0 <= n <= packages.len(),
        n <= usize::MAX,
    ensures
        package_order(packages, n).len() == n,
        forall|i: int| 0 <= i < n ==> 0 <= #[trigger] package_order(packages, n)[i] < n,
        forall|k: usize| 0 <= k < n ==> #[trigger] package_order(packages, n).contains(k),
    decreases n,
{
    if n > 0 {
        let k = n - 1;
        lemma_package_order(packages, k);
        let placed = package_order(packages, k);
        lemma_insert_point(packages, placed, k);
        let at = insert_point(packages, placed, k);
        let all = package_order(packages, n);
        assert forall|i: int| 0 <= i < n implies 0 <= #[trigger] all[i] < n by {
            if i < at {
                assert(all[i] == placed[i]);
            } else if i > at {
                assert(all[i] == placed[i - 1]);
            }
        }
        assert forall|m: usize| 0 <= m < n implies #[trigger] all.contains(m) by {
            if m == k {
                assert(all[at] == m);
            } else {
                assert(placed.contains(m));
                let i = choose|i: int| 0 <= i < placed.len() && placed[i] == m;
                if i < at {
                    assert(all[i] == m);
                } else {
                    assert(all[i + 1] == m);
                }
            }
        }
    }
}

/// The positions of the packages by name and version.
pub fn ordered_packages(packages: &Vec<PackageInput>) -> (r: Vec<usize>)
    ensures
        r@ == package_order(package_views(packages@), packages@.len() as int),
        r@.len() == packages@.len(),
        forall|i: int| 0 <= i < r@.len() ==> #[trigger] r@[i] < packages@.len(),
{
    let ghost views = package_views(packages@);
    let total: usize = packages.len();
    let mut placed: Vec<usize> = Vec::new();
    let mut k: usize = 0;
    while k < total
        invariant
            k <= total,
            total == packages@.len(),
            views == package_views(packages@),
            placed@ == package_order(views, k as int),
            placed@.len() == k,
            forall|i: int| 0 <= i < k ==> #[trigger] placed@[i] < k,
        decreases total - k,
    {
        let mut at: usize = placed.len();
        while at > 0 && goes_before(&packages[k].identity, &packages[placed[at - 1]].identity)
            invariant
                at <= placed@.len(),
                placed@.len() == k,
                k < total,
                total == packages@.len(),
                views == package_views(packages@),
                forall|i: int| 0 <= i < k ==> #[trigger] placed@[i] < k,
                forall|i: int|
                    at <= i < placed@.len() ==> package_before(
                        views[k as int],
                        views[#[trigger] placed@[i] as int],
                    ),
            decreases at,
        {
            at = at - 1;
        }
        proof {
            lemma_insert_point_at(views, placed@, k as int, at as int);
        }
        placed.insert(at, k);
        k = k + 1;
        proof {
            lemma_package_order(views, k as int);
        }
    }
    placed
}

/// Whether a package goes before another: by name, then by version.
fn goes_before(a: &PackageIdentity, b: &PackageIdentity) -> (r: bool)
    ensures
        r == package_before(a@, b@),
{
    order::is_text_less(a.name.as_str(), b.name.as_str()) || (text::same_text(
        a.name.as_str(),
        b.name.as_str(),
    ) && is_version_less(a.version.as_str(), b.version.as_str()))
}

// ---------------------------------------------------------------------------
// Markdown documents
// ---------------------------------------------------------------------------

/// The documents of a file; none where it could not be read.
pub open spec fn file_documents(
    package: PackageView,
    file: (MarkdownFileView, Option<Seq<char>>),
) -> Seq<DocumentView> {
    match file.1 {
        Some(content) => markdown::chunks_of(
            markdown::chunk_source(package, file.0, content),
            markdown::markdown_events(content),
        ),
        None => Seq::empty(),
    }
}

/// The documents of files, one after another.
pub open spec fn files_documents(
    package: PackageView,
    files: Seq<(MarkdownFileView, Option<Seq<char>>)>,
) -> Seq<DocumentView>
    decreases files.len(),
{
    if files.len() == 0 {
        Seq::empty()
    } else {
        files_documents(package, files.drop_last()) + file_documents(package, files.last())
    }
}

/// The documents of packages, taken in the given order.
pub open spec fn packages_documents(packages: Seq<InputView>, at: Seq<usize>) -> Seq<DocumentView>
    decreases at.len(),
{
    if at.len() == 0 {
        Seq::empty()
    } else {
        let p = packages[at.last() as int];
        packages_documents(packages, at.drop_last()) + files_documents(p.package, p.files)
    }
}

/// How many files packages have, taken in the given order.
pub open spec fn packages_files(packages: Seq<InputView>, at: Seq<usize>) -> nat
    decreases at.len(),
{
    if at.len() == 0 {
        0
    } else {
        packages_files(packages, at.drop_last()) + packages[at.last() as int].files.len()
    }
}

/// A number as far as it fits.
pub open spec fn capped(n: nat) -> usize {
    if n <= usize::MAX {
        n as usize
    } else {
        usize::MAX
    }
}

/// What a concatenation of documents shows.
proof fn lemma_views_add(a: Seq<KnowledgeDocument>, b: Seq<KnowledgeDocument>)
    ensures
        document::document_views(a + b) == document::document_views(a)
            + document::document_views(b),
{
    assert(document::document_views(a + b) =~= document::document_views(a)
        + document::document_views(b));
}

/// Adds the documents of a package's files.
fn add_files(documents: &mut Vec<KnowledgeDocument>, package: &PackageInput)
    ensures
        document::document_views(final(documents)@) == document::document_views(old(documents)@)
            + files_documents(package@.package, package@.files),
{
    let ghost start = document::document_views(documents@);
    let ghost files = package@.files;
    let mut i: usize = 0;
    assert(start + files_documents(package@.package, files.take(0)) =~= start);
    while i < package.files.len()
        invariant
            i <= package.files@.len(),
            files == package@.files,
            document::document_views(documents@) == start + files_documents(
                package@.package,
                files.take(i as int),
            ),
        decreases package.files@.len() - i,
    {
        assert(files.take(i + 1).drop_last() == files.take(i as int));
        assert(files.take(i + 1).last() == files[i as int]);
        let entry = &package.files[i];
        let ghost before = documents@;
        if let Some(content) = &entry.1 {
            let mut more = markdown::chunk_markdown(
                &package.identity,
                &entry.0,
                content.as_str(),
            );
            proof {
                lemma_views_add(before, more@);
            }
            documents.append(&mut more);
        }
        assert(document::document_views(documents@) =~= start + files_documents(
            package@.package,
            files.take(i + 1),
        ));
        i = i + 1;
    }
    assert(files.take(files.len() as int) == files);
}

// ---------------------------------------------------------------------------
// Artifacts
// ---------------------------------------------------------------------------

/// The documents of artifacts, one after another.
pub open spec fn artifact_documents(artifacts: Seq<RustdocArtifact>) -> Seq<DocumentView>
    decreases artifacts.len(),
{
    if artifacts.len() == 0 {
        Seq::empty()
    } else {
        artifact_documents(artifacts.drop_last()) + document::document_views(
            artifacts.last().normalized->Ok_0.documents@,
        )
    }
}

/// The warnings of artifacts, one after another.
pub open spec fn artifact_warnings(artifacts: Seq<RustdocArtifact>) -> Seq<Seq<char>>
    decreases artifacts.len(),
{
    if artifacts.len() == 0 {
        Seq::empty()
    } else {
        artifact_warnings(artifacts.drop_last()) + words::texts(
            artifacts.last().normalized->Ok_0.warnings@,
        )
    }
}

/// The format version of the first artifact.
pub open spec fn first_format(artifacts: Seq<RustdocArtifact>) -> Option<u32> {
    if artifacts.len() == 0 {
        None
    } else {
        Some(artifacts[0].normalized->Ok_0.format_version)
    }
}

/// The first cargo version that an artifact tells.
pub open spec fn first_cargo(artifacts: Seq<RustdocArtifact>) -> Option<Seq<char>>
    decreases artifacts.len(),
{
    if artifacts.len() == 0 {
        None
    } else {
        match first_cargo(artifacts.drop_last()) {
            Some(version) => Some(version),
            None => words::shown(artifacts.last().cargo_version),
        }
    }
}

/// Every artifact could be read.
pub open spec fn all_normalized(artifacts: Seq<RustdocArtifact>) -> bool {
    forall|i: int| 0 <= i < artifacts.len() ==> (#[trigger] artifacts[i]).normalized is Ok
}

/// What the artifacts give, as far as they are taken up.
struct Taken {
    documents: Vec<KnowledgeDocument>,
    warnings: Vec<String>,
    format_version: Option<u32>,
    cargo_version: Option<String>,
    count: usize,
}

impl Taken {
    /// What was taken up is what these artifacts give.
    spec fn of(self, artifacts: Seq<RustdocArtifact>) -> bool {
        &&& document::document_views(self.documents@) == artifact_documents(artifacts)
        &&& words::texts(self.warnings@) == artifact_warnings(artifacts)
        &&& self.format_version == first_format(artifacts)
        &&& words::shown(self.cargo_version) == first_cargo(artifacts)
        &&& self.count == artifacts.len()
    }
}

/// Takes up all artifacts in order; the first that could not be read ends it.
fn take_artifacts(artifacts: Vec<RustdocArtifact>) -> (r: Result<Taken, IndexError>)
    ensures
        match r {
            Ok(taken) => all_normalized(artifacts@) && taken.of(artifacts@),
            Err(error) => exists|k: int|
                0 <= k < artifacts@.len() && (#[trigger] artifacts@[k]).normalized == Err::<
                    NormalizedRustdoc,
                    IndexError,
                >(error) && all_normalized(artifacts@.take(k)),
        },
{
    let mut rest = artifacts;
    let mut taken = Taken {
        documents: Vec::new(),
        warnings: Vec::new(),
        format_version: None,
        cargo_version: None,
        count: 0,
    };
    let ghost mut done: int = 0;
    let total: usize = rest.len();
    assert(artifacts@.skip(0) =~= artifacts@);
    assert(document::document_views(taken.documents@) =~= Seq::<DocumentView>::empty());
    assert(words::texts(taken.warnings@) =~= Seq::<Seq<char>>::empty());
    while rest.len() > 0
        invariant
            total == artifacts@.len(),
            0 <= done <= artifacts@.len(),
            rest@ == artifacts@.skip(done),
            all_normalized(artifacts@.take(done)),
            taken.of(artifacts@.take(done)),
        decreases rest@.len(),
    {
        let ghost before = artifacts@.take(done);
        let ghost after = artifacts@.take(done + 1);
        assert(after.drop_last() == before);
        assert(after.last() == artifacts@[done]);
        let artifact = rest.remove(0);
        assert(artifact == artifacts@[done]);
        assert(rest@ =~= artifacts@.skip(done + 1));
        match artifact.normalized {
            Ok(normalized) => {
                let mut normalized = normalized;
                if taken.format_version.is_none() {
                    taken.format_version = Some(normalized.format_version);
                }
                if taken.cargo_version.is_none() {
                    taken.cargo_version = artifact.cargo_version;
                }
                let ghost warned = taken.warnings@;
                let ghost had = taken.documents@;
                proof {
                    lemma_views_add(had, normalized.documents@);
                    assert(words::texts(warned + normalized.warnings@) =~= words::texts(warned)
                        + words::texts(normalized.warnings@));
                }
                taken.warnings.append(&mut normalized.warnings);
                taken.documents.append(&mut normalized.documents);
                taken.count = taken.count + 1;
                proof {
                    assert forall|i: int| 0 <= i < after.len() implies (#[trigger] after[i]).normalized is Ok by {
                        if i < before.len() {
                            assert(before[i].normalized is Ok);
                        }
                    }
                    if before.len() > 0 {
                        assert(after[0] == before[0]);
                    }
                    done = done + 1;
                }
            },
            Err(error) => {
                return Err(error);
            },
        }
    }
    assert(artifacts@.take(artifacts@.len() as int) == artifacts@);
    Ok(taken)
}

// ---------------------------------------------------------------------------
// The corpus
// ---------------------------------------------------------------------------

/// What documents are ordered by: their package and what names them.
pub open spec fn document_keys(docs: Seq<DocumentView>) -> Seq<Seq<Seq<char>>> {
    docs.map_values(|d: DocumentView| seq![d.package.display(), d.context()])
}

/// The documents in order; those that do not differ in what they are ordered by
/// stay in the order given.
pub open spec fn ordered_documents(docs: Seq<DocumentView>) -> Seq<DocumentView> {
    order::sorted_order(document_keys(docs)).map_values(|i: usize| docs[i as int])
}

/// How many of the documents rustdoc gave.
pub open spec fn rustdoc_count(docs: Seq<DocumentView>) -> nat
    decreases docs.len(),
{
    if docs.len() == 0 {
        0
    } else {
        rustdoc_count(docs.drop_last()) + if docs.last().source_kind is RustdocItem
            || docs.last().source_kind is RustdocModule {
            1nat
        } else {
            0
        }
    }
}

/// The documents in order.
fn sort_documents(docs: &Vec<KnowledgeDocument>) -> (r: Vec<KnowledgeDocument>)
    ensures
        document::document_views(r@) == ordered_documents(document::document_views(docs@)),
{
    let ghost views = document::document_views(docs@);
    let ghost wanted = document_keys(views);
    let mut keys: Vec<Vec<String>> = Vec::new();
    let mut i: usize = 0;
    while i < docs.len()
        invariant
            i <= docs@.len(),
            views == document::document_views(docs@),
            wanted == document_keys(views),
            order::key_views(keys@) == wanted.take(i as int),
        decreases docs@.len() - i,
    {
        let ghost before = order::key_views(keys@);
        let mut key: Vec<String> = Vec::new();
        key.push(docs[i].package.display());
        key.push(docs[i].context());
        let ghost key_shown = words::texts(key@);
        assert(key_shown =~= seq![views[i as int].package.display(), views[i as int].context()]);
        keys.push(key);
        assert(order::key_views(keys@) =~= before.push(key_shown));
        assert(wanted.take(i + 1) =~= wanted.take(i as int).push(wanted[i as int]));
        i = i + 1;
    }
    assert(wanted.take(wanted.len() as int) == wanted);
    let positions = order::sorted_positions(&keys);
    let ghost moved = positions@.map_values(|i: usize| views[i as int]);
    let mut out: Vec<KnowledgeDocument> = Vec::new();
    assert(document::document_views(out@) =~= moved.take(0));
    let mut k: usize = 0;
    while k < positions.len()
        invariant
            k <= positions@.len(),
            views == document::document_views(docs@),
            wanted.len() == docs@.len(),
            order::stable_order(wanted, positions@),
            moved == positions@.map_values(|i: usize| views[i as int]),
            document::document_views(out@) == moved.take(k as int),
        decreases positions@.len() - k,
    {
        let ghost before = document::document_views(out@);
        let at: usize = positions[k];
        assert(at < docs@.len());
        let copy = docs[at].clone();
        let ghost shown = copy@;
        out.push(copy);
        assert(document::document_views(out@) =~= before.push(shown));
        assert(moved.take(k + 1) =~= moved.take(k as int).push(moved[k as int]));
        k = k + 1;
    }
    assert(moved.take(moved.len() as int) == moved);
    assert(moved =~= ordered_documents(views));
    out
}

/// How many of the documents rustdoc gave.
fn count_rustdoc(docs: &Vec<KnowledgeDocument>) -> (r: usize)
    ensures
        r == rustdoc_count(document::document_views(docs@)),
{
    let ghost views = document::document_views(docs@);
    let mut count: usize = 0;
    let mut i: usize = 0;
    while i < docs.len()
        invariant
            i <= docs@.len(),
            views == document::document_views(docs@),
            count == rustdoc_count(views.take(i as int)),
            count <= i,
        decreases docs@.len() - i,
    {
        assert(views.take(i + 1).drop_last() == views.take(i as int));
        assert(views.take(i + 1).last() == docs@[i as int]@);
        if docs[i].source_kind.is_rustdoc() {
            count = count + 1;
        }
        i = i + 1;
    }
    assert(views.take(views.len() as int) == views);
    count
}

/// The package that could not be documented though it had to be.
pub open spec fn required_failure(
    scope: RustdocScope,
    skipped: Seq<(String, String)>,
) -> Option<(Seq<char>, Seq<char>)> {
    if scope is Workspace && skipped.len() > 0 {
        Some((skipped[0].0@, skipped[0].1@))
    } else {
        None
    }
}

/// All documents before they are put in order: those of the artifacts, then
/// those of the Markdown files, package by package.
pub open spec fn collected_documents(
    packages: Seq<PackageInput>,
    artifacts: Seq<RustdocArtifact>,
) -> Seq<DocumentView> {
    artifact_documents(artifacts) + markdown_documents(packages)
}

/// The documents of the Markdown files, package by package.
pub open spec fn markdown_documents(packages: Seq<PackageInput>) -> Seq<DocumentView> {
    packages_documents(
        input_views(packages),
        package_order(package_views(packages), packages.len() as int),
    )
}

/// What is reported of a corpus.
pub open spec fn report_of(
    report: CorpusReport,
    packages: Seq<PackageInput>,
    generated: GeneratedRustdoc,
) -> bool {
    &&& report.packages == packages.len()
    &&& report.markdown_files == capped(
        packages_files(
            input_views(packages),
            package_order(package_views(packages), packages.len() as int),
        ),
    )
    &&& report.rustdoc_packages == generated.artifacts@.len()
    &&& report.markdown_documents == markdown_documents(packages).len()
    &&& report.rustdoc_documents == rustdoc_count(
        collected_documents(packages, generated.artifacts@),
    )
    &&& report.rustdoc_format_version == first_format(generated.artifacts@)
    &&& words::shown(report.cargo_version) == first_cargo(generated.artifacts@)
    &&& words::texts(report.warnings@) == artifact_warnings(generated.artifacts@)
    &&& report.skipped@ == generated.skipped@
}

/// Builds the corpus of the packages: the documents of the artifacts and of the
/// Markdown files in order, and what is reported. A local package that could not
/// be documented, where only local ones are asked for, is an error; so is an
/// artifact that cannot be read.
pub fn build_corpus(
    packages: &Vec<PackageInput>,
    generated: GeneratedRustdoc,
    options: &CorpusOptions,
) -> (r: Result<(Vec<KnowledgeDocument>, CorpusReport), IndexError>)
    ensures
        match r {
            Ok((documents, report)) => {
                &&& required_failure(options.rustdoc_scope, generated.skipped@) is None
                &&& all_normalized(generated.artifacts@)
                &&& document::document_views(documents@) == ordered_documents(
                    collected_documents(packages@, generated.artifacts@),
                )
                &&& report_of(report, packages@, generated)
                &&& report.rustdoc_documents == rustdoc_count(document::document_views(documents@))
            },
            Err(error) => match required_failure(options.rustdoc_scope, generated.skipped@) {
                Some((spec, reason)) => {
                    &&& error is RustdocFailed
                    &&& error->spec@ == spec
                    &&& error->reason@ == reason
                },
                None => exists|k: int|
                    0 <= k < generated.artifacts@.len() && (#[trigger] generated.artifacts@[k]).normalized
                        == Err::<NormalizedRustdoc, IndexError>(error) && all_normalized(
                        generated.artifacts@.take(k),
                    ),
            },
        },
{
    if options.rustdoc_scope == RustdocScope::Workspace && generated.skipped.len() > 0 {
        return Err(
            IndexError::RustdocFailed {
                spec: generated.skipped[0].0.clone(),
                reason: generated.skipped[0].1.clone(),
            },
        );
    }
    let taken = match take_artifacts(generated.artifacts) {
        Ok(taken) => taken,
        Err(error) => {
            return Err(error);
        },
    };
    let ghost from_artifacts = artifact_documents(generated.artifacts@);
    let ghost inputs = input_views(packages@);
    let at = ordered_packages(packages);
    let mut documents = taken.documents;
    let before: usize = documents.len();
    let mut markdown_files: usize = 0;
    let mut i: usize = 0;
    assert(from_artifacts + packages_documents(inputs, at@.take(0)) =~= from_artifacts);
    while i < at.len()
        invariant
            i <= at@.len(),
            inputs == input_views(packages@),
            forall|k: int| 0 <= k < at@.len() ==> #[trigger] at@[k] < packages@.len(),
            document::document_views(documents@) == from_artifacts + packages_documents(
                inputs,
                at@.take(i as int),
            ),
            markdown_files == capped(packages_files(inputs, at@.take(i as int))),
        decreases at@.len() - i,
    {
        assert(at@.take(i + 1).drop_last() == at@.take(i as int));
        let package = &packages[at[i]];
        assert(inputs[at@[i as int] as int] == package@);
        add_files(&mut documents, package);
        markdown_files = markdown_files.saturating_add(package.files.len());
        assert(document::document_views(documents@) =~= from_artifacts + packages_documents(
            inputs,
            at@.take(i + 1),
        ));
        i = i + 1;
    }
    assert(at@.take(at@.len() as int) == at@);
    let ghost all = document::document_views(documents@);
    assert(all == collected_documents(packages@, generated.artifacts@));
    assert(all.len() == documents@.len());
    let report = CorpusReport {
        packages: packages.len(),
        markdown_files,
        rustdoc_packages: taken.count,
        markdown_documents: documents.len() - before,
        rustdoc_documents: count_rustdoc(&documents),
        rustdoc_format_version: taken.format_version,
        cargo_version: taken.cargo_version,
        warnings: taken.warnings,
        skipped: generated.skipped,
    };
    proof {
        law_order_keeps_rustdoc_count(all);
    }
    Ok((sort_documents(&documents), report))
}

// ---------------------------------------------------------------------------
// Laws
// ---------------------------------------------------------------------------

/// Reading the name of a scope gives that scope, and no other text is a scope.
pub proof fn law_scope_names(s: Seq<char>)
    ensures
        RustdocScope::named("workspace"@) == Some(RustdocScope::Workspace),
        RustdocScope::named("all"@) == Some(RustdocScope::All),
        RustdocScope::named("none"@) == Some(RustdocScope::MarkdownOnly),
        RustdocScope::named(s) is Some ==> s == "workspace"@ || s == "all"@ || s == "none"@,
{
    reveal_strlit("workspace");
    reveal_strlit("all");
    reveal_strlit("none");
    assert("workspace"@.len() == 9 && "all"@.len() == 3 && "none"@.len() == 4);
}

/// The corpus is in order, and holds every collected document once: no document
/// stands behind one that it comes before by package and name, and documents
/// that do not differ in these keep their order.
pub proof fn law_corpus_order(docs: Seq<DocumentView>)
    requires
        docs.len() <= usize::MAX,
    ensures
        ({
            let at = order::sorted_order(document_keys(docs));
            let sorted = ordered_documents(docs);
            &&& sorted.len() == docs.len()
            &&& at.len() == docs.len()
            &&& forall|i: int| 0 <= i < sorted.len() ==> #[trigger] sorted[i] == docs[at[i] as int]
            &&& forall|k: usize| 0 <= k < docs.len() ==> #[trigger] at.contains(k)
            &&& forall|i: int, j: int|
                0 <= i < j < sorted.len() ==> !order::key_less(
                    #[trigger] document_keys(sorted)[j],
                    #[trigger] document_keys(sorted)[i],
                ) && (document_keys(sorted)[i] == document_keys(sorted)[j] ==> at[i] < at[j])
        }),
{
    let keys = document_keys(docs);
    order::lemma_sorted_order(keys);
    let at = order::sorted_order(keys);
    let sorted = ordered_documents(docs);
    assert forall|i: int, j: int| 0 <= i < j < sorted.len() implies !order::key_less(
        #[trigger] document_keys(sorted)[j],
        #[trigger] document_keys(sorted)[i],
    ) && (document_keys(sorted)[i] == document_keys(sorted)[j] ==> at[i] < at[j]) by {
        assert(order::goes_before(keys, at[i] as int, at[j] as int));
        assert(document_keys(sorted)[i] == keys[at[i] as int]);
        assert(document_keys(sorted)[j] == keys[at[j] as int]);
        order::lemma_key_less_asymmetric(keys[at[i] as int], keys[at[j] as int]);
        order::lemma_key_less_asymmetric(keys[at[i] as int], keys[at[i] as int]);
    }
}

/// Putting documents in order changes nothing about how many of them rustdoc gave:
/// the count that is reported is that of the corpus.
pub proof fn law_order_keeps_rustdoc_count(docs: Seq<DocumentView>)
    requires
        docs.len() <= usize::MAX,
    ensures
        rustdoc_count(ordered_documents(docs)) == rustdoc_count(docs),
{
    let keys = document_keys(docs);
    let at = order::sorted_order(keys);
    order::lemma_sorted_order(keys);
    assert forall|i: int, j: int| 0 <= i < at.len() && 0 <= j < at.len() && i != j implies at[i] != at[j] by {
        let (a, b) = if i < j {
            (i, j)
        } else {
            (j, i)
        };
        assert(order::goes_before(keys, at[a] as int, at[b] as int));
        order::lemma_key_less_asymmetric(keys[at[a] as int], keys[at[a] as int]);
    }
    lemma_count_picked(docs, at);
    let all = Set::<usize>::new(|k: usize| k < docs.len());
    assert(at.to_set() =~= all);
    lemma_count_of_set(docs, docs.len() as int);
    assert(given_by_rustdoc(docs, at.to_set()) =~= given_by_rustdoc(docs, all));
}

/// The places among these at which there is a document that rustdoc gave.
spec fn given_by_rustdoc(docs: Seq<DocumentView>, places: Set<usize>) -> Set<usize> {
    places.filter(
        |k: usize| docs[k as int].source_kind is RustdocItem || docs[k as int].source_kind is RustdocModule,
    )
}

/// The count of documents picked by different places is that of the places.
proof fn lemma_count_picked(docs: Seq<DocumentView>, at: Seq<usize>)
    requires
        at.no_duplicates(),
    ensures
        given_by_rustdoc(docs, at.to_set()).finite(),
        rustdoc_count(at.map_values(|i: usize| docs[i as int])) == given_by_rustdoc(
            docs,
            at.to_set(),
        ).len(),
    decreases at.len(),
{
    let picked = at.map_values(|i: usize| docs[i as int]);
    if at.len() == 0 {
        assert(given_by_rustdoc(docs, at.to_set()) =~= Set::<usize>::empty());
    } else {
        let init = at.drop_last();
        let last = at.last();
        assert forall|i: int, j: int| 0 <= i < init.len() && 0 <= j < init.len() && i != j implies init[i]
            != init[j] by {
            assert(at[i] != at[j]);
        }
        lemma_count_picked(docs, init);
        assert(picked.drop_last() =~= init.map_values(|i: usize| docs[i as int]));
        assert(picked.last() == docs[last as int]);
        let before = given_by_rustdoc(docs, init.to_set());
        let now = given_by_rustdoc(docs, at.to_set());
        assert forall|k: usize| at.to_set().contains(k) == (init.to_set().contains(k) || k == last) by {
            if at.contains(k) {
                let i = choose|i: int| 0 <= i < at.len() && at[i] == k;
                if i < init.len() {
                    assert(init[i] == k);
                }
            }
            if init.contains(k) {
                let i = choose|i: int| 0 <= i < init.len() && init[i] == k;
                assert(at[i] == k);
            }
            assert(at[at.len() - 1] == last);
        }
        assert(!init.to_set().contains(last)) by {
            if init.contains(last) {
                let i = choose|i: int| 0 <= i < init.len() && init[i] == last;
                assert(at[i] == at[at.len() - 1]);
            }
        }
        if picked.last().source_kind is RustdocItem || picked.last().source_kind is RustdocModule {
            assert(now =~= before.insert(last));
        } else {
            assert(now =~= before);
        }
    }
}

/// The count of the first `n` documents is that of their places.
proof fn lemma_count_of_set(docs: Seq<DocumentView>, n: int)
    requires
        0 <= n <= docs.len() <= usize::MAX,
    ensures
        given_by_rustdoc(docs, Set::<usize>::new(|k: usize| k < n)).finite(),
        rustdoc_count(docs.take(n)) == given_by_rustdoc(
            docs,
            Set::<usize>::new(|k: usize| k < n),
        ).len(),
        n == docs.len() ==> docs.take(n) == docs,
    decreases n,
{
    let now = given_by_rustdoc(docs, Set::<usize>::new(|k: usize| k < n));
    if n == 0 {
        assert(now =~= Set::<usize>::empty());
    } else {
        lemma_count_of_set(docs, n - 1);
        let before = given_by_rustdoc(docs, Set::<usize>::new(|k: usize| k < n - 1));
        let last = (n - 1) as usize;
        assert(docs.take(n).drop_last() =~= docs.take(n - 1));
        assert(docs.take(n).last() == docs[n - 1]);
        assert(!before.contains(last));
        if docs[n - 1].source_kind is RustdocItem || docs[n - 1].source_kind is RustdocModule {
            assert(now =~= before.insert(last));
        } else {
            assert(now =~= before);
        }
    }
}

/// Packages are taken by name, each once.
pub proof fn law_packages_by_name(packages: Seq<PackageView>, n: int)
    requires
        0 <= n <= packages.len(),
        n <= usize::MAX,
    ensures
        package_order(packages, n).len() == n,
        forall|k: usize| 0 <= k < n ==> #[trigger] package_order(packages, n).contains(k),
        forall|i: int, j: int|
            0 <= i < j < n ==> !order::text_less(
                packages[#[trigger] package_order(packages, n)[j] as int].name,
                packages[#[trigger] package_order(packages, n)[i] as int].name,
            ),
    decreases n,
{
    lemma_package_order(packages, n);
    if n > 0 {
        let k = n - 1;
        law_packages_by_name(packages, k);
        let placed = package_order(packages, k);
        let at = insert_point(packages, placed, k);
        lemma_insert_point(packages, placed, k);
        lemma_insert_point_splits(packages, placed, k);
        let all = package_order(packages, n);
        assert forall|i: int, j: int| 0 <= i < j < n implies !order::text_less(
            packages[#[trigger] all[j] as int].name,
            packages[#[trigger] all[i] as int].name,
        ) by {
            let x = packages[k].name;
            if i == at {
                let y = packages[placed[j - 1] as int];
                assert(all[j] == placed[j - 1]);
                assert(package_before(packages[k], y));
                order::lemma_text_less_asymmetric(x, y.name);
                order::lemma_text_less_asymmetric(y.name, x);
            } else if j == at {
                assert(all[i] == placed[i]);
                let p = packages[placed[at - 1] as int].name;
                let y = packages[placed[i] as int].name;
                if order::text_less(x, y) {
                    if i < at - 1 {
                        assert(!order::text_less(
                            packages[placed[at - 1] as int].name,
                            packages[placed[i] as int].name,
                        ));
                        order::lemma_text_less_total(p, y);
                        if order::text_less(y, p) {
                            order::lemma_text_less_transitive(x, y, p);
                        }
                    }
                    assert(order::text_less(x, p));
                    assert(package_before(packages[k], packages[placed[at - 1] as int]));
                }
            } else {
                let a = if i < at {
                    i
                } else {
                    i - 1
                };
                let b = if j < at {
                    j
                } else {
                    j - 1
                };
                assert(all[i] == placed[a] && all[j] == placed[b]);
            }
        }
    }
}

/// Behind the insertion point everything goes behind the package; before it
/// stands one that does not.
proof fn lemma_insert_point_splits(packages: Seq<PackageView>, placed: Seq<usize>, k: int)
    ensures
        ({
            let at = insert_point(packages, placed, k);
            &&& forall|i: int|
                at <= i < placed.len() ==> package_before(
                    packages[k],
                    packages[#[trigger] placed[i] as int],
                )
            &&& at > 0 ==> !package_before(packages[k], packages[placed[at - 1] as int])
        }),
    decreases placed.len(),
{
    if placed.len() > 0 && package_before(packages[k], packages[placed.last() as int]) {
        let init = placed.drop_last();
        lemma_insert_point_splits(packages, init, k);
        lemma_insert_point(packages, init, k);
        let at = insert_point(packages, placed, k);
        assert forall|i: int| at <= i < placed.len() implies package_before(
            packages[k],
            packages[#[trigger] placed[i] as int],
        ) by {
            if i < init.len() {
                assert(package_before(packages[k], packages[init[i] as int]));
            }
        }
    }
}

} // verus!
