//! What a corpus holds of the packages it is built from.
use vstd::prelude::*;
use crate::corpus;
use crate::corpus::{CorpusReport, GeneratedRustdoc, InputView, Origin, PackageInput};
use crate::corpus::{RustdocArtifact, RustdocScope};
use crate::document;
use crate::document::{DocumentView, PackageView};
use crate::markdown;
use crate::markdown::MarkdownFileView;
use crate::order;
use crate::words;

verus! {

// ---------------------------------------------------------------------------
// What the laws speak of
// ---------------------------------------------------------------------------

/// The chunks of a file of a package with that content.
pub open spec fn chunks(
    package: PackageView,
    file: MarkdownFileView,
    content: Seq<char>,
) -> Seq<DocumentView> {
    markdown::chunks_of(
        markdown::chunk_source(package, file, content),
        markdown::markdown_events(content),
    )
}

/// How many chunks the files of a package give that could be read, whatever their
/// kind.
pub open spec fn chunks_in_files(
    package: PackageView,
    files: Seq<(MarkdownFileView, Option<Seq<char>>)>,
) -> nat
    decreases files.len(),
{
    if files.len() == 0 {
        0
    } else {
        chunks_in_files(package, files.drop_last()) + (match files.last().1 {
            Some(content) => chunks(package, files.last().0, content).len(),
            None => 0,
        })
    }
}

/// How many chunks the packages give, one after another as they stand.
pub open spec fn chunks_in_packages(packages: Seq<InputView>) -> nat
    decreases packages.len(),
{
    if packages.len() == 0 {
        0
    } else {
        chunks_in_packages(packages.drop_last()) + chunks_in_files(
            packages.last().package,
            packages.last().files,
        )
    }
}

/// How many files the packages have, one after another as they stand.
pub open spec fn files_in_packages(packages: Seq<InputView>) -> nat
    decreases packages.len(),
{
    if packages.len() == 0 {
        0
    } else {
        files_in_packages(packages.drop_last()) + packages.last().files.len()
    }
}

/// A document is a chunk of some file that could be read.
pub open spec fn is_chunk(packages: Seq<InputView>, d: DocumentView) -> bool {
    exists|i: int, j: int|
        #![trigger packages[i].files[j]]
        0 <= i < packages.len() && 0 <= j < packages[i].files.len()
            && packages[i].files[j].1 is Some && chunks(
            packages[i].package,
            packages[i].files[j].0,
            packages[i].files[j].1->0,
        ).contains(d)
}

/// A document is one of an artifact.
pub open spec fn is_of_artifact(artifacts: Seq<RustdocArtifact>, d: DocumentView) -> bool {
    exists|i: int|
        0 <= i < artifacts.len() && document::document_views(
            (#[trigger] artifacts[i]).normalized->Ok_0.documents@,
        ).contains(d)
}

// ---------------------------------------------------------------------------
// Files
// ---------------------------------------------------------------------------

/// The documents of a file are among those of the files.
proof fn lemma_file_among(
    package: PackageView,
    files: Seq<(MarkdownFileView, Option<Seq<char>>)>,
    j: int,
    d: DocumentView,
)
    requires
        0 <= j < files.len(),
        files[j].1 is Some,
        chunks(package, files[j].0, files[j].1->0).contains(d),
    ensures
        corpus::files_documents(package, files).contains(d),
    decreases files.len(),
{
    let all = corpus::files_documents(package, files);
    let before = corpus::files_documents(package, files.drop_last());
    let own = corpus::file_documents(package, files.last());
    if j == files.len() - 1 {
        let k = choose|k: int| 0 <= k < own.len() && own[k] == d;
        assert(all[before.len() + k] == d);
    } else {
        lemma_file_among(package, files.drop_last(), j, d);
        let k = choose|k: int| 0 <= k < before.len() && before[k] == d;
        assert(all[k] == d);
    }
}

/// Every document of the files is one of some file.
proof fn lemma_files_only(
    package: PackageView,
    files: Seq<(MarkdownFileView, Option<Seq<char>>)>,
    d: DocumentView,
) -> (j: int)
    requires
        corpus::files_documents(package, files).contains(d),
    ensures
        0 <= j < files.len(),
        files[j].1 is Some,
        chunks(package, files[j].0, files[j].1->0).contains(d),
    decreases files.len(),
{
    let all = corpus::files_documents(package, files);
    let k = choose|k: int| 0 <= k < all.len() && all[k] == d;
    let before = corpus::files_documents(package, files.drop_last());
    let own = corpus::file_documents(package, files.last());
    if k < before.len() {
        assert(before[k] == d);
        lemma_files_only(package, files.drop_last(), d)
    } else {
        assert(own[k - before.len()] == d);
        files.len() - 1
    }
}

/// How many documents the files give.
proof fn lemma_files_count(
    package: PackageView,
    files: Seq<(MarkdownFileView, Option<Seq<char>>)>,
)
    ensures
        corpus::files_documents(package, files).len() == chunks_in_files(package, files),
    decreases files.len(),
{
    if files.len() > 0 {
        lemma_files_count(package, files.drop_last());
    }
}

// ---------------------------------------------------------------------------
// Packages
// ---------------------------------------------------------------------------

/// The documents of a package are among those of the packages.
proof fn lemma_package_among(
    packages: Seq<InputView>,
    at: Seq<usize>,
    k: int,
    d: DocumentView,
)
    requires
        0 <= k < at.len(),
        corpus::files_documents(
            packages[at[k] as int].package,
            packages[at[k] as int].files,
        ).contains(d),
    ensures
        corpus::packages_documents(packages, at).contains(d),
    decreases at.len(),
{
    let all = corpus::packages_documents(packages, at);
    let before = corpus::packages_documents(packages, at.drop_last());
    let p = packages[at.last() as int];
    let own = corpus::files_documents(p.package, p.files);
    if k == at.len() - 1 {
        let n = choose|n: int| 0 <= n < own.len() && own[n] == d;
        assert(all[before.len() + n] == d);
    } else {
        lemma_package_among(packages, at.drop_last(), k, d);
        let n = choose|n: int| 0 <= n < before.len() && before[n] == d;
        assert(all[n] == d);
    }
}

/// Every document of the packages is one of some package.
proof fn lemma_packages_only(packages: Seq<InputView>, at: Seq<usize>, d: DocumentView) -> (k: int)
    requires
        corpus::packages_documents(packages, at).contains(d),
    ensures
        0 <= k < at.len(),
        corpus::files_documents(
            packages[at[k] as int].package,
            packages[at[k] as int].files,
        ).contains(d),
    decreases at.len(),
{
    let all = corpus::packages_documents(packages, at);
    let n = choose|n: int| 0 <= n < all.len() && all[n] == d;
    let before = corpus::packages_documents(packages, at.drop_last());
    let p = packages[at.last() as int];
    let own = corpus::files_documents(p.package, p.files);
    if n < before.len() {
        assert(before[n] == d);
        lemma_packages_only(packages, at.drop_last(), d)
    } else {
        assert(own[n - before.len()] == d);
        at.len() - 1
    }
}

/// One package more, wherever it goes.
proof fn lemma_count_inserted(packages: Seq<InputView>, at: Seq<usize>, i: int, k: usize)
    requires
        0 <= i <= at.len(),
    ensures
        corpus::packages_documents(packages, at.insert(i, k)).len() == corpus::packages_documents(
            packages,
            at,
        ).len() + corpus::files_documents(
            packages[k as int].package,
            packages[k as int].files,
        ).len(),
        corpus::packages_files(packages, at.insert(i, k)) == corpus::packages_files(packages, at)
            + packages[k as int].files.len(),
    decreases at.len() - i,
{
    let more = at.insert(i, k);
    if i == at.len() {
        assert(more.drop_last() =~= at);
    } else {
        lemma_count_inserted(packages, at.drop_last(), i, k);
        assert(more.drop_last() =~= at.drop_last().insert(i, k));
        assert(more.last() == at.last());
    }
}

/// However packages are ordered, they give as many documents and have as many files.
proof fn lemma_counts(packages: Seq<InputView>, views: Seq<PackageView>, n: int)
    requires
        0 <= n <= packages.len(),
        packages.len() == views.len() <= usize::MAX,
    ensures
        corpus::packages_documents(packages, corpus::package_order(views, n)).len()
            == chunks_in_packages(packages.take(n)),
        corpus::packages_files(packages, corpus::package_order(views, n)) == files_in_packages(
            packages.take(n),
        ),
    decreases n,
{
    if n > 0 {
        lemma_counts(packages, views, n - 1);
        let placed = corpus::package_order(views, n - 1);
        let i = corpus::insert_point(views, placed, n - 1);
        corpus::lemma_insert_point(views, placed, n - 1);
        let k = (n - 1) as usize;
        lemma_count_inserted(packages, placed, i, k);
        assert(packages.take(n).drop_last() =~= packages.take(n - 1));
        lemma_files_count(packages[n - 1].package, packages[n - 1].files);
    }
}

// ---------------------------------------------------------------------------
// Artifacts
// ---------------------------------------------------------------------------

/// The documents of an artifact are among those of the artifacts, and so are its
/// warnings.
proof fn lemma_artifact_among(artifacts: Seq<RustdocArtifact>, i: int)
    requires
        0 <= i < artifacts.len(),
    ensures
        forall|d: DocumentView| #[trigger]
            document::document_views(artifacts[i].normalized->Ok_0.documents@).contains(d)
                ==> corpus::artifact_documents(artifacts).contains(d),
        forall|w: Seq<char>| #[trigger]
            words::texts(artifacts[i].normalized->Ok_0.warnings@).contains(w)
                ==> corpus::artifact_warnings(artifacts).contains(w),
    decreases artifacts.len(),
{
    let init = artifacts.drop_last();
    let docs = corpus::artifact_documents(artifacts);
    let warnings = corpus::artifact_warnings(artifacts);
    let old_docs = corpus::artifact_documents(init);
    let old_warnings = corpus::artifact_warnings(init);
    let own_docs = document::document_views(artifacts[i].normalized->Ok_0.documents@);
    let own_warnings = words::texts(artifacts[i].normalized->Ok_0.warnings@);
    if i < init.len() {
        lemma_artifact_among(init, i);
        assert(init[i] == artifacts[i]);
    }
    assert forall|d: DocumentView| #[trigger] own_docs.contains(d) implies docs.contains(d) by {
        if i < init.len() {
            assert(old_docs.contains(d));
            let k = choose|k: int| 0 <= k < old_docs.len() && old_docs[k] == d;
            assert(docs[k] == d);
        } else {
            let k = choose|k: int| 0 <= k < own_docs.len() && own_docs[k] == d;
            assert(docs[old_docs.len() + k] == d);
        }
    }
    assert forall|w: Seq<char>| #[trigger] own_warnings.contains(w) implies warnings.contains(w) by {
        if i < init.len() {
            assert(old_warnings.contains(w));
            let k = choose|k: int| 0 <= k < old_warnings.len() && old_warnings[k] == w;
            assert(warnings[k] == w);
        } else {
            let k = choose|k: int| 0 <= k < own_warnings.len() && own_warnings[k] == w;
            assert(warnings[old_warnings.len() + k] == w);
        }
    }
}

/// Every document of the artifacts is one of some artifact.
proof fn lemma_artifacts_only(artifacts: Seq<RustdocArtifact>, d: DocumentView)
    requires
        corpus::artifact_documents(artifacts).contains(d),
    ensures
        is_of_artifact(artifacts, d),
    decreases artifacts.len(),
{
    let all = corpus::artifact_documents(artifacts);
    let n = choose|n: int| 0 <= n < all.len() && all[n] == d;
    let init = artifacts.drop_last();
    let before = corpus::artifact_documents(init);
    let own = document::document_views(artifacts.last().normalized->Ok_0.documents@);
    if n < before.len() {
        assert(before[n] == d);
        lemma_artifacts_only(init, d);
        let i = choose|i: int|
            0 <= i < init.len() && document::document_views(
                (#[trigger] init[i]).normalized->Ok_0.documents@,
            ).contains(d);
        assert(artifacts[i] == init[i]);
    } else {
        assert(own[n - before.len()] == d);
        assert(artifacts[artifacts.len() - 1] == artifacts.last());
    }
}

/// How many documents the artifacts give.
pub open spec fn documents_in_artifacts(artifacts: Seq<RustdocArtifact>) -> nat
    decreases artifacts.len(),
{
    if artifacts.len() == 0 {
        0
    } else {
        documents_in_artifacts(artifacts.drop_last())
            + artifacts.last().normalized->Ok_0.documents@.len()
    }
}

/// So many documents come from the artifacts.
proof fn lemma_artifacts_count(artifacts: Seq<RustdocArtifact>)
    ensures
        corpus::artifact_documents(artifacts).len() == documents_in_artifacts(artifacts),
    decreases artifacts.len(),
{
    if artifacts.len() > 0 {
        lemma_artifacts_count(artifacts.drop_last());
    }
}

// ---------------------------------------------------------------------------
// The laws
// ---------------------------------------------------------------------------

/// Putting documents in order keeps all of them, and adds none.
proof fn lemma_ordered_same(docs: Seq<DocumentView>, d: DocumentView)
    requires
        docs.len() <= usize::MAX,
    ensures
        corpus::ordered_documents(docs).len() == docs.len(),
        corpus::ordered_documents(docs).contains(d) == docs.contains(d),
{
    corpus::law_corpus_order(docs);
    let at = order::sorted_order(corpus::document_keys(docs));
    order::lemma_sorted_order(corpus::document_keys(docs));
    let sorted = corpus::ordered_documents(docs);
    if docs.contains(d) {
        let k = choose|k: int| 0 <= k < docs.len() && docs[k] == d;
        let u = k as usize;
        assert(at.contains(u));
        let i = choose|i: int| 0 <= i < at.len() && at[i] == u;
        assert(sorted[i] == docs[at[i] as int]);
    }
    if sorted.contains(d) {
        let i = choose|i: int| 0 <= i < sorted.len() && sorted[i] == d;
        assert(sorted[i] == docs[at[i] as int]);
        assert(at[i] < docs.len());
    }
}

/// Every chunk of every file that could be read is in the corpus, whatever the kind
/// of the file and wherever its package stands.
pub proof fn law_every_file_is_taken_up(
    packages: Seq<PackageInput>,
    artifacts: Seq<RustdocArtifact>,
    i: int,
    j: int,
    d: DocumentView,
)
    requires
        packages.len() <= usize::MAX,
        corpus::collected_documents(packages, artifacts).len() <= usize::MAX,
        0 <= i < packages.len(),
        0 <= j < packages[i]@.files.len(),
        packages[i]@.files[j].1 is Some,
        chunks(
            packages[i]@.package,
            packages[i]@.files[j].0,
            packages[i]@.files[j].1->0,
        ).contains(d),
    ensures
        corpus::ordered_documents(corpus::collected_documents(packages, artifacts)).contains(d),
{
    let inputs = corpus::input_views(packages);
    let views = corpus::package_views(packages);
    let at = corpus::package_order(views, packages.len() as int);
    corpus::law_packages_by_name(views, packages.len() as int);
    let u = i as usize;
    assert(at.contains(u));
    let k = choose|k: int| 0 <= k < at.len() && at[k] == u;
    assert(inputs[i] == packages[i]@);
    lemma_file_among(packages[i]@.package, packages[i]@.files, j, d);
    lemma_package_among(inputs, at, k, d);
    let given = corpus::markdown_documents(packages);
    let all = corpus::collected_documents(packages, artifacts);
    let n = choose|n: int| 0 <= n < given.len() && given[n] == d;
    assert(all[corpus::artifact_documents(artifacts).len() + n] == d);
    lemma_ordered_same(all, d);
}

/// Every document of every artifact is in the corpus.
pub proof fn law_every_artifact_is_taken_up(
    packages: Seq<PackageInput>,
    artifacts: Seq<RustdocArtifact>,
    i: int,
    d: DocumentView,
)
    requires
        corpus::collected_documents(packages, artifacts).len() <= usize::MAX,
        0 <= i < artifacts.len(),
        document::document_views(artifacts[i].normalized->Ok_0.documents@).contains(d),
    ensures
        corpus::ordered_documents(corpus::collected_documents(packages, artifacts)).contains(d),
{
    lemma_artifact_among(artifacts, i);
    let given = corpus::artifact_documents(artifacts);
    let all = corpus::collected_documents(packages, artifacts);
    let n = choose|n: int| 0 <= n < given.len() && given[n] == d;
    assert(all[n] == d);
    lemma_ordered_same(all, d);
}

/// The corpus holds nothing but the documents of the artifacts and the chunks of the
/// files.
pub proof fn law_corpus_holds_nothing_else(
    packages: Seq<PackageInput>,
    artifacts: Seq<RustdocArtifact>,
    d: DocumentView,
)
    requires
        packages.len() <= usize::MAX,
        corpus::collected_documents(packages, artifacts).len() <= usize::MAX,
        corpus::ordered_documents(corpus::collected_documents(packages, artifacts)).contains(d),
    ensures
        is_of_artifact(artifacts, d) || is_chunk(corpus::input_views(packages), d),
{
    let all = corpus::collected_documents(packages, artifacts);
    lemma_ordered_same(all, d);
    let inputs = corpus::input_views(packages);
    let views = corpus::package_views(packages);
    let at = corpus::package_order(views, packages.len() as int);
    corpus::lemma_package_order(views, packages.len() as int);
    let from = corpus::artifact_documents(artifacts);
    let given = corpus::markdown_documents(packages);
    let n = choose|n: int| 0 <= n < all.len() && all[n] == d;
    if n < from.len() {
        assert(from[n] == d);
        lemma_artifacts_only(artifacts, d);
    } else {
        assert(given[n - from.len()] == d);
        let k = lemma_packages_only(inputs, at, d);
        let i = at[k] as int;
        let j = lemma_files_only(inputs[i].package, inputs[i].files, d);
        assert(inputs[i].files[j].1 is Some);
    }
}

/// How large the corpus is: as many documents as the artifacts hold, and as many
/// chunks as the files give that could be read. The latter is what is reported of
/// Markdown documents.
pub proof fn law_corpus_size(packages: Seq<PackageInput>, artifacts: Seq<RustdocArtifact>)
    requires
        packages.len() <= usize::MAX,
        corpus::collected_documents(packages, artifacts).len() <= usize::MAX,
    ensures
        corpus::markdown_documents(packages).len() == chunks_in_packages(
            corpus::input_views(packages),
        ),
        corpus::ordered_documents(corpus::collected_documents(packages, artifacts)).len()
            == documents_in_artifacts(artifacts) + chunks_in_packages(
            corpus::input_views(packages),
        ),
{
    let inputs = corpus::input_views(packages);
    lemma_counts(inputs, corpus::package_views(packages), packages.len() as int);
    assert(inputs.take(packages.len() as int) =~= inputs);
    lemma_artifacts_count(artifacts);
    corpus::law_corpus_order(corpus::collected_documents(packages, artifacts));
}

/// The corpus is sorted by the name and version of the package, and within a package
/// by what names a document to a reader.
pub proof fn law_corpus_sorted(docs: Seq<DocumentView>, i: int, j: int)
    requires
        docs.len() <= usize::MAX,
        0 <= i < j < docs.len(),
    ensures
        ({
            let a = corpus::ordered_documents(docs)[i];
            let b = corpus::ordered_documents(docs)[j];
            let first = a.package.name + seq!['@'] + a.package.version;
            let second = b.package.name + seq!['@'] + b.package.version;
            &&& !order::text_less(second, first)
            &&& first == second ==> !order::text_less(b.context(), a.context())
        }),
{
    reveal_strlit("@");
    assert("@"@ =~= seq!['@']);
    corpus::law_corpus_order(docs);
    let sorted = corpus::ordered_documents(docs);
    let keys = corpus::document_keys(sorted);
    let a = sorted[i];
    let b = sorted[j];
    assert(!order::key_less(keys[j], keys[i]));
    assert(keys[i] =~= seq![a.package.display(), a.context()]);
    assert(keys[j] =~= seq![b.package.display(), b.context()]);
    if order::text_less(b.package.display(), a.package.display()) {
        order::lemma_text_less_asymmetric(b.package.display(), a.package.display());
    }
    if a.package.display() == b.package.display() && order::text_less(b.context(), a.context()) {
        let x = keys[j].drop_first();
        let y = keys[i].drop_first();
        assert(x[0] == b.context() && y[0] == a.context());
        order::lemma_text_less_asymmetric(b.context(), a.context());
        assert(order::key_less(x, y));
    }
}

/// What is reported of a corpus: how many packages there are, how many files they
/// have, how many artifacts there are, how many documents are of either kind, the
/// format of the first artifact, all warnings, and what was skipped.
pub proof fn law_report(
    report: CorpusReport,
    packages: Seq<PackageInput>,
    generated: GeneratedRustdoc,
    i: int,
    w: Seq<char>,
)
    requires
        packages.len() <= usize::MAX,
        corpus::report_of(report, packages, generated),
    ensures
        report.packages == packages.len(),
        files_in_packages(corpus::input_views(packages)) <= usize::MAX ==> report.markdown_files
            == files_in_packages(corpus::input_views(packages)),
        report.rustdoc_packages == generated.artifacts@.len(),
        report.markdown_documents == chunks_in_packages(corpus::input_views(packages)),
        report.rustdoc_documents == corpus::collected_documents(
            packages,
            generated.artifacts@,
        ).filter(
            |d: DocumentView| d.source_kind is RustdocItem || d.source_kind is RustdocModule,
        ).len(),
        generated.artifacts@.len() == 0 ==> report.rustdoc_format_version is None,
        generated.artifacts@.len() > 0 ==> report.rustdoc_format_version == Some(
            generated.artifacts@[0].normalized->Ok_0.format_version,
        ),
        0 <= i < generated.artifacts@.len() && words::texts(
            generated.artifacts@[i].normalized->Ok_0.warnings@,
        ).contains(w) ==> words::texts(report.warnings@).contains(w),
        report.skipped@ == generated.skipped@,
{
    let inputs = corpus::input_views(packages);
    lemma_counts(inputs, corpus::package_views(packages), packages.len() as int);
    assert(inputs.take(packages.len() as int) =~= inputs);
    lemma_rustdoc_count(corpus::collected_documents(packages, generated.artifacts@));
    if 0 <= i < generated.artifacts@.len() {
        lemma_artifact_among(generated.artifacts@, i);
    }
}

/// Counting the documents of rustdoc is picking them out.
proof fn lemma_rustdoc_count(docs: Seq<DocumentView>)
    ensures
        corpus::rustdoc_count(docs) == docs.filter(
            |d: DocumentView| d.source_kind is RustdocItem || d.source_kind is RustdocModule,
        ).len(),
    decreases docs.len(),
{
    reveal(Seq::filter);
    if docs.len() > 0 {
        lemma_rustdoc_count(docs.drop_last());
    }
}

/// The Cargo version that is reported is the first that an artifact tells: there is
/// none where no artifact tells one, and those behind the first do not matter.
pub proof fn law_first_cargo_version(artifacts: Seq<RustdocArtifact>, i: int)
    requires
        0 <= i < artifacts.len(),
        forall|k: int| 0 <= k < i ==> (#[trigger] artifacts[k]).cargo_version is None,
    ensures
        artifacts[i].cargo_version is Some ==> corpus::first_cargo(artifacts) == Some(
            (artifacts[i].cargo_version->0)@,
        ),
        corpus::first_cargo(artifacts.take(i)) is None,
    decreases artifacts.len(),
{
    lemma_no_cargo(artifacts.take(i));
    let init = artifacts.drop_last();
    if i < init.len() {
        assert forall|k: int| 0 <= k < i implies (#[trigger] init[k]).cargo_version is None by {
            assert(artifacts[k].cargo_version is None);
        }
        law_first_cargo_version(init, i);
    } else {
        assert(init =~= artifacts.take(i));
    }
}

/// Where no artifact tells a version there is none.
proof fn lemma_no_cargo(artifacts: Seq<RustdocArtifact>)
    requires
        forall|k: int| 0 <= k < artifacts.len() ==> (#[trigger] artifacts[k]).cargo_version is None,
    ensures
        corpus::first_cargo(artifacts) is None,
    decreases artifacts.len(),
{
    if artifacts.len() > 0 {
        let init = artifacts.drop_last();
        assert forall|k: int| 0 <= k < init.len() implies (#[trigger] init[k]).cargo_version is None by {
            assert(artifacts[k].cargo_version is None);
        }
        lemma_no_cargo(init);
        assert(artifacts[artifacts.len() - 1].cargo_version is None);
    }
}

/// A package that could not be documented ends the run just where only local packages
/// are asked for, and it is the first one that is named.
pub proof fn law_required_failure(scope: RustdocScope, skipped: Seq<(String, String)>)
    ensures
        scope is Workspace && skipped.len() > 0 ==> corpus::required_failure(scope, skipped)
            == Some((skipped[0].0@, skipped[0].1@)),
        scope is All || scope is MarkdownOnly || skipped.len() == 0 ==> corpus::required_failure(
            scope,
            skipped,
        ) is None,
{
}

/// The packages to document: with all, every one; with local ones, exactly those of
/// the workspace and of paths; with none, no one. They are taken in order, each once.
pub proof fn law_selection(scope: RustdocScope, origins: Seq<Origin>, k: usize)
    requires
        origins.len() <= usize::MAX,
        k < origins.len(),
    ensures
        scope is All ==> corpus::in_scope(scope, origins).contains(k),
        scope is MarkdownOnly ==> corpus::in_scope(scope, origins).len() == 0,
        scope is Workspace ==> corpus::in_scope(scope, origins).contains(k) == (
        origins[k as int] is Workspace || origins[k as int] is Path),
        forall|a: int, b: int|
            0 <= a < b < corpus::in_scope(scope, origins).len() ==> #[trigger] corpus::in_scope(
                scope,
                origins,
            )[a] < #[trigger] corpus::in_scope(scope, origins)[b],
{
    lemma_in_scope(scope, origins);
    let all = corpus::in_scope(scope, origins);
    if all.contains(k) {
        let i = choose|i: int| 0 <= i < all.len() && all[i] == k;
        assert(scope.covers(origins[all[i] as int]));
    }
    if scope is MarkdownOnly && all.len() > 0 {
        assert(scope.covers(origins[all[0] as int]));
    }
    if scope.covers(origins[k as int]) {
        assert(all.contains(k));
    }
}

/// The positions in scope.
proof fn lemma_in_scope(scope: RustdocScope, origins: Seq<Origin>)
    requires
        origins.len() <= usize::MAX,
    ensures
        forall|a: int|
            0 <= a < corpus::in_scope(scope, origins).len() ==> (#[trigger] corpus::in_scope(
                scope,
                origins,
            )[a]) < origins.len() && scope.covers(
                origins[corpus::in_scope(scope, origins)[a] as int],
            ),
        forall|k: usize|
            k < origins.len() && scope.covers(origins[k as int]) ==> #[trigger] corpus::in_scope(
                scope,
                origins,
            ).contains(k),
        forall|a: int, b: int|
            0 <= a < b < corpus::in_scope(scope, origins).len() ==> #[trigger] corpus::in_scope(
                scope,
                origins,
            )[a] < #[trigger] corpus::in_scope(scope, origins)[b],
    decreases origins.len(),
{
    if origins.len() > 0 {
        let init = origins.drop_last();
        lemma_in_scope(scope, init);
        let all = corpus::in_scope(scope, origins);
        let before = corpus::in_scope(scope, init);
        assert forall|a: int| 0 <= a < all.len() implies (#[trigger] all[a]) < origins.len()
            && scope.covers(origins[all[a] as int]) by {
            if a < before.len() {
                assert(before[a] < init.len());
                assert(origins[all[a] as int] == init[all[a] as int]);
            }
        }
        assert forall|k: usize| k < origins.len() && scope.covers(origins[k as int]) implies #[trigger] all.contains(
        k) by {
            if k < init.len() {
                assert(init[k as int] == origins[k as int]);
                assert(before.contains(k));
                let i = choose|i: int| 0 <= i < before.len() && before[i] == k;
                assert(all[i] == k);
            } else {
                assert(all[all.len() - 1] == k);
            }
        }
        assert forall|a: int, b: int| 0 <= a < b < all.len() implies #[trigger] all[a]
            < #[trigger] all[b] by {
            assert(before[a] < init.len());
            if b < before.len() {
                assert(before[a] < before[b]);
            }
        }
    }
}

/// Where a package comes from: a source says Git or a path by its prefix, and a
/// registry otherwise; without a source a member is of the workspace and anything
/// else a path.
pub proof fn law_origin(member: bool, rest: Seq<char>, source: Seq<char>)
    ensures
        corpus::origin_for(member, Some(seq!['g', 'i', 't', '+'] + rest)) is Git,
        corpus::origin_for(member, Some(seq!['p', 'a', 't', 'h', '+'] + rest)) is Path,
        corpus::origin_for(
            member,
            Some(seq!['r', 'e', 'g', 'i', 's', 't', 'r', 'y', '+'] + rest),
        ) is Registry,
        corpus::origin_for(true, None) is Workspace,
        corpus::origin_for(false, None) is Path,
        source.len() > 0 && source[0] != 'g' && source[0] != 'p' ==> corpus::origin_for(
            member,
            Some(source),
        ) is Registry,
{
    reveal_strlit("git+");
    reveal_strlit("path+");
    let git = seq!['g', 'i', 't', '+'];
    let path = seq!['p', 'a', 't', 'h', '+'];
    let registry = seq!['r', 'e', 'g', 'i', 's', 't', 'r', 'y', '+'];
    assert("git+"@ =~= git);
    assert("path+"@ =~= path);
    assert((git + rest).subrange(0, 4) =~= git);
    assert((path + rest).subrange(0, 5) =~= path);
    assert((path + rest)[0] == 'p' && git[0] == 'g' && path[0] == 'p');
    assert((registry + rest)[0] == 'r');
    assert(git.is_prefix_of(git + rest));
    assert(path.is_prefix_of(path + rest));
    if git.is_prefix_of(path + rest) {
        assert((path + rest).subrange(0, 4)[0] == git[0]);
    }
    if git.is_prefix_of(registry + rest) {
        assert((registry + rest).subrange(0, 4)[0] == git[0]);
    }
    if path.is_prefix_of(registry + rest) {
        assert((registry + rest).subrange(0, 5)[0] == path[0]);
    }
    if git.is_prefix_of(source) {
        assert(source.subrange(0, 4)[0] == git[0]);
    }
    if path.is_prefix_of(source) {
        assert(source.subrange(0, 5)[0] == path[0]);
    }
}

/// Two versions of a package: the lower one is taken first.
pub proof fn law_lower_version_first(a: PackageView, b: PackageView)
    requires
        a.name == b.name,
    ensures
        corpus::version_less(b.version, a.version) ==> corpus::package_order(seq![a, b], 2) == seq![
            1usize,
            0usize,
        ],
        !corpus::version_less(b.version, a.version) ==> corpus::package_order(seq![a, b], 2) == seq![
            0usize,
            1usize,
        ],
{
    let both = seq![a, b];
    order::lemma_text_less_asymmetric(a.name, b.name);
    reveal_with_fuel(corpus::package_order, 3);
    reveal_with_fuel(corpus::insert_point, 2);
    let one = corpus::package_order(both, 1);
    assert(one =~= seq![0usize]);
    assert(one.drop_last() =~= Seq::<usize>::empty());
    assert(corpus::package_order(both, 2).len() == 2);
}

} // verus!
