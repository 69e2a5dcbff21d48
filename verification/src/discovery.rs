//! Which Markdown files of a package are taken up.
//!
//! A README that the manifest declares wins over the common names, one README
//! is taken at most, and the files below `docs/` follow in path order.
use vstd::prelude::*;
use crate::document::{PackageIdentity, PackageView, SourceKind};
use crate::markdown::{MarkdownFile, MarkdownFileView};
use crate::order;
use crate::paths;
use crate::text;
use crate::words;

verus! {

/// Files larger than this are skipped.
pub const MAX_FILE_BYTES: u64 = 2 * 1024 * 1024;

// ---------------------------------------------------------------------------
// Walking the documentation directory
// ---------------------------------------------------------------------------

/// What to do with an entry of a directory.
#[derive(Clone, Copy, Debug, PartialEq, Eq, Structural)]
pub enum EntryAction {
    /// Go on with the entries of this directory.
    Descend,
    /// Take the file up.
    Take,
    /// Leave the entry alone.
    Skip,
}

/// Directories that are never entered.
pub open spec fn skipped_directory(name: Seq<char>) -> bool {
    ||| name == "target"@
    ||| name == ".git"@
    ||| name == "node_modules"@
    ||| name == "vendor"@
    ||| name == "tests"@
}

/// A size that is known and within the limit.
pub open spec fn fits(size: Option<u64>) -> bool {
    size is Some && size->0 <= MAX_FILE_BYTES
}

/// Whether a size is known and within the limit.
fn is_fitting(size: Option<u64>) -> (r: bool)
    ensures
        r == fits(size),
{
    match size {
        Some(bytes) => bytes <= MAX_FILE_BYTES,
        None => false,
    }
}

/// What to do with an entry: directories are entered unless they are of the
/// skipped ones; files are taken if they are Markdown by name and their size is
/// known and within the limit.
pub open spec fn entry_action_of(name: Seq<char>, is_dir: bool, size: Option<u64>) -> EntryAction {
    if is_dir {
        if skipped_directory(name) {
            EntryAction::Skip
        } else {
            EntryAction::Descend
        }
    } else if paths::markdown_name(name) && fits(size) {
        EntryAction::Take
    } else {
        EntryAction::Skip
    }
}

/// What to do with an entry of that name; `size` is unknown where it could not
/// be read.
pub fn entry_action(name: &str, is_dir: bool, size: Option<u64>) -> (r: EntryAction)
    ensures
        r == entry_action_of(name@, is_dir, size),
{
    if is_dir {
        if is_skipped_directory(name) {
            EntryAction::Skip
        } else {
            EntryAction::Descend
        }
    } else if paths::is_markdown_name(name) && is_fitting(size) {
        EntryAction::Take
    } else {
        EntryAction::Skip
    }
}

/// Whether a path lies below `docs` in a directory that is never entered.
pub open spec fn hidden_below(docs: Seq<char>, path: Seq<char>) -> bool {
    paths::has_prefix(path, docs) && exists|k: int|
        paths::components(docs).len() <= k < paths::components(path).len() - 1
            && skipped_directory(#[trigger] paths::components(path)[k])
}

/// A documentation file that is taken up: it is Markdown by name, its size is
/// known and within the limit, and no directory between `docs` and the file is one
/// that is never entered.
pub open spec fn eligible(docs: Seq<char>, path: Seq<char>, size: Option<u64>) -> bool {
    &&& fits(size)
    &&& paths::components(path).len() > 0
    &&& paths::markdown_name(paths::components(path).last())
    &&& !hidden_below(docs, path)
}

/// The documentation files that are taken up, in the order given.
pub open spec fn eligible_paths(docs: Seq<char>, entries: Seq<(Seq<char>, Option<u64>)>) -> Seq<
    Seq<char>,
>
    decreases entries.len(),
{
    if entries.len() == 0 {
        Seq::empty()
    } else {
        let before = eligible_paths(docs, entries.drop_last());
        if eligible(docs, entries.last().0, entries.last().1) {
            before.push(entries.last().0)
        } else {
            before
        }
    }
}

/// What files with their sizes show.
pub open spec fn entry_views(entries: Seq<(String, Option<u64>)>) -> Seq<(Seq<char>, Option<u64>)> {
    entries.map_values(|e: (String, Option<u64>)| (e.0@, e.1))
}

/// Whether a directory is one that is never entered.
fn is_skipped_directory(name: &str) -> (r: bool)
    ensures
        r == skipped_directory(name@),
{
    text::same_text(name, "target") || text::same_text(name, ".git") || text::same_text(
        name,
        "node_modules",
    ) || text::same_text(name, "vendor") || text::same_text(name, "tests")
}

/// Whether the first components of a path are those of a directory.
fn lies_below(names: &Vec<String>, docs: &Vec<String>) -> (r: bool)
    ensures
        r == (docs@.len() <= names@.len() && words::texts(names@).take(docs@.len() as int)
            == words::texts(docs@)),
{
    if docs.len() > names.len() {
        return false;
    }
    let ghost lead = words::texts(names@).take(docs@.len() as int);
    let mut i: usize = 0;
    while i < docs.len()
        invariant
            i <= docs@.len() <= names@.len(),
            lead == words::texts(names@).take(docs@.len() as int),
            forall|k: int| 0 <= k < i ==> lead[k] == words::texts(docs@)[k],
        decreases docs@.len() - i,
    {
        assert(lead[i as int] == names@[i as int]@);
        assert(words::texts(docs@)[i as int] == docs@[i as int]@);
        if !text::same_text(names[i].as_str(), docs[i].as_str()) {
            return false;
        }
        i = i + 1;
    }
    assert(lead =~= words::texts(docs@));
    true
}

/// Whether a documentation file is taken up.
fn is_eligible(docs: &str, path: &str, size: Option<u64>) -> (r: bool)
    ensures
        r == eligible(docs@, path@, size),
{
    if !is_fitting(size) {
        return false;
    }
    let names = paths::split_components(path);
    let lead = paths::split_components(docs);
    let ghost all = paths::components(path@);
    assert(words::texts(names@).len() == names@.len());
    if names.len() == 0 {
        return false;
    }
    assert(all.last() == names@[names@.len() - 1]@);
    if !paths::is_markdown_name(names[names.len() - 1].as_str()) {
        return false;
    }
    if lies_below(&names, &lead) {
        let mut k: usize = lead.len();
        while k < names.len() - 1
            invariant
                lead@.len() <= k,
                0 < names@.len(),
                all == words::texts(names@),
                all == paths::components(path@),
                words::texts(lead@) == paths::components(docs@),
                paths::has_prefix(path@, docs@),
                forall|i: int| lead@.len() <= i < k ==> !skipped_directory(#[trigger] all[i]),
            decreases names@.len() - k,
        {
            assert(all[k as int] == names@[k as int]@);
            if is_skipped_directory(names[k].as_str()) {
                assert(skipped_directory(paths::components(path@)[k as int]));
                return false;
            }
            k = k + 1;
        }
    }
    true
}

/// The documentation files that are taken up.
fn keep_eligible(docs: &str, entries: &Vec<(String, Option<u64>)>) -> (r: Vec<String>)
    ensures
        words::texts(r@) == eligible_paths(docs@, entry_views(entries@)),
{
    let ghost all = entry_views(entries@);
    let mut out: Vec<String> = Vec::new();
    let mut i: usize = 0;
    assert(words::texts(out@) =~= Seq::<Seq<char>>::empty());
    while i < entries.len()
        invariant
            i <= entries@.len(),
            all == entry_views(entries@),
            words::texts(out@) == eligible_paths(docs@, all.take(i as int)),
        decreases entries@.len() - i,
    {
        assert(all.take(i + 1).drop_last() == all.take(i as int));
        let ghost before = words::texts(out@);
        let entry = &entries[i];
        assert(all[i as int] == (entry.0@, entry.1));
        if is_eligible(docs, entry.0.as_str(), entry.1) {
            out.push(entry.0.clone());
            assert(words::texts(out@) == before.push(entry.0@));
        }
        i = i + 1;
    }
    assert(all.take(all.len() as int) == all);
    out
}

// ---------------------------------------------------------------------------
// README candidates
// ---------------------------------------------------------------------------

/// Where a README may be: where the manifest says, then under the common names.
pub open spec fn readme_places(root: Seq<char>, declared: Option<Seq<char>>) -> Seq<Seq<char>> {
    let common = seq![
        paths::joined(root, "README.md"@),
        paths::joined(root, "README.markdown"@),
        paths::joined(root, "README"@),
    ];
    match declared {
        Some(p) => seq![paths::joined(root, p)] + common,
        None => common,
    }
}

/// Where the README of the package may be, the best place first.
pub fn readme_candidates(package: &PackageIdentity, readme: Option<&str>) -> (r: Vec<String>)
    ensures
        words::texts(r@) == readme_places(
            package@.root(),
            match readme {
                Some(p) => Some(p@),
                None => None,
            },
        ),
{
    let root = package.root();
    let mut out: Vec<String> = Vec::new();
    if let Some(p) = readme {
        out.push(paths::path_join(root.as_str(), p));
    }
    out.push(paths::path_join(root.as_str(), "README.md"));
    out.push(paths::path_join(root.as_str(), "README.markdown"));
    out.push(paths::path_join(root.as_str(), "README"));
    assert(words::texts(out@) =~= readme_places(
        package@.root(),
        match readme {
            Some(p) => Some(p@),
            None => None,
        },
    ));
    out
}

/// The first place at which there is a file within the limit.
pub open spec fn first_found(sizes: Seq<Option<u64>>, n: int) -> Option<int>
    decreases n,
{
    if n <= 0 {
        None
    } else {
        match first_found(sizes, n - 1) {
            Some(i) => Some(i),
            None => if n <= sizes.len() && fits(sizes[n - 1]) {
                Some(n - 1)
            } else {
                None
            },
        }
    }
}

// ---------------------------------------------------------------------------
// Discovery
// ---------------------------------------------------------------------------

/// What the paths are ordered by.
pub open spec fn path_keys(all: Seq<Seq<char>>) -> Seq<Seq<Seq<char>>> {
    all.map_values(|p: Seq<char>| paths::path_key(p))
}

/// The paths in path order, those that are the same in the order given.
pub open spec fn in_path_order(all: Seq<Seq<char>>) -> Seq<Seq<char>> {
    order::sorted_order(path_keys(all)).map_values(|i: usize| all[i as int])
}

/// The paths that are neither `taken` nor the same as an earlier one.
pub open spec fn first_of_each(all: Seq<Seq<char>>, taken: Seq<Seq<char>>) -> Seq<Seq<char>>
    decreases all.len(),
{
    if all.len() == 0 {
        Seq::empty()
    } else {
        let before = first_of_each(all.drop_last(), taken);
        if known(taken, all.last()) || known(all.drop_last(), all.last()) {
            before
        } else {
            before.push(all.last())
        }
    }
}

/// Whether the path is one of these.
pub open spec fn known(some: Seq<Seq<char>>, p: Seq<char>) -> bool {
    exists|i: int| 0 <= i < some.len() && #[trigger] paths::same_path(some[i], p)
}

/// The file at a path of a package.
pub open spec fn file_at(root: Seq<char>, path: Seq<char>, kind: SourceKind) -> MarkdownFileView {
    MarkdownFileView { rel_path: paths::relative_name(path, root), abs_path: path, kind }
}

/// The README, if there is one.
pub open spec fn readme_taken(places: Seq<Seq<char>>, sizes: Seq<Option<u64>>) -> Seq<Seq<char>> {
    match first_found(sizes, places.len() as int) {
        Some(i) => seq![places[i]],
        None => Seq::empty(),
    }
}

/// The files of a package, given the README that was found and its
/// documentation files in path order.
pub open spec fn files_of(
    root: Seq<char>,
    readme: Seq<Seq<char>>,
    sorted: Seq<Seq<char>>,
) -> Seq<MarkdownFileView> {
    readme.map_values(|p: Seq<char>| file_at(root, p, SourceKind::CrateReadme)) + first_of_each(
        sorted,
        readme,
    ).map_values(|p: Seq<char>| file_at(root, p, SourceKind::MarkdownDocument))
}

/// What a list of files shows.
pub open spec fn file_views(files: Seq<MarkdownFile>) -> Seq<MarkdownFileView> {
    files.map_values(|f: MarkdownFile| f@)
}

/// Whether the path is one of these.
fn is_known(some: &Vec<String>, upto: usize, p: &str) -> (r: bool)
    requires
        upto <= some@.len(),
    ensures
        r == known(words::texts(some@).take(upto as int), p@),
{
    let ghost shown = words::texts(some@).take(upto as int);
    let mut i: usize = 0;
    while i < upto
        invariant
            i <= upto <= some@.len(),
            shown == words::texts(some@).take(upto as int),
            forall|k: int| 0 <= k < i ==> !#[trigger] paths::same_path(shown[k], p@),
        decreases upto - i,
    {
        assert(shown[i as int] == some@[i as int]@);
        if paths::is_same_path(some[i].as_str(), p) {
            assert(paths::same_path(shown[i as int], p@));
            return true;
        }
        i = i + 1;
    }
    false
}

/// The paths in path order.
fn sort_paths(all: &Vec<String>) -> (r: Vec<String>)
    ensures
        words::texts(r@) == in_path_order(words::texts(all@)),
{
    let ghost shown = words::texts(all@);
    let ghost wanted = path_keys(shown);
    let mut keys: Vec<Vec<String>> = Vec::new();
    let mut i: usize = 0;
    while i < all.len()
        invariant
            i <= all@.len(),
            shown == words::texts(all@),
            wanted == path_keys(shown),
            order::key_views(keys@) == wanted.take(i as int),
        decreases all@.len() - i,
    {
        let ghost before = order::key_views(keys@);
        let key = paths::sort_key(all[i].as_str());
        let ghost key_shown = words::texts(key@);
        keys.push(key);
        assert(order::key_views(keys@) == before.push(key_shown));
        assert(wanted.take(i + 1) == wanted.take(i as int).push(wanted[i as int]));
        i = i + 1;
    }
    assert(wanted.take(wanted.len() as int) == wanted);
    let positions = order::sorted_positions(&keys);
    let mut out: Vec<String> = Vec::new();
    let ghost moved = positions@.map_values(|i: usize| shown[i as int]);
    let mut k: usize = 0;
    while k < positions.len()
        invariant
            k <= positions@.len(),
            shown == words::texts(all@),
            wanted.len() == all@.len(),
            order::stable_order(wanted, positions@),
            moved == positions@.map_values(|i: usize| shown[i as int]),
            words::texts(out@) == moved.take(k as int),
        decreases positions@.len() - k,
    {
        let ghost before = words::texts(out@);
        let at: usize = positions[k];
        assert(at < all@.len());
        out.push(all[at].clone());
        assert(words::texts(out@) == before.push(shown[at as int]));
        assert(moved.take(k + 1) == moved.take(k as int).push(moved[k as int]));
        k = k + 1;
    }
    assert(moved.take(moved.len() as int) == moved);
    out
}

/// The first place at which there is a file within the limit.
fn find_first(sizes: &Vec<Option<u64>>, n: usize) -> (r: Option<usize>)
    ensures
        match r {
            Some(i) => first_found(sizes@, n as int) == Some(i as int) && i < n,
            None => first_found(sizes@, n as int) is None,
        },
{
    let mut i: usize = 0;
    while i < n
        invariant
            i <= n,
            first_found(sizes@, i as int) is None,
        decreases n - i,
    {
        if i < sizes.len() && is_fitting(sizes[i]) {
            proof {
                lemma_first_found_stays(sizes@, i as int, i + 1, n as int);
            }
            return Some(i);
        }
        i = i + 1;
    }
    None
}

/// What was found first stays first.
proof fn lemma_first_found_stays(sizes: Seq<Option<u64>>, i: int, m: int, n: int)
    requires
        0 <= m <= n,
        first_found(sizes, m) == Some(i),
    ensures
        first_found(sizes, n) == Some(i),
    decreases n - m,
{
    if m < n {
        assert(first_found(sizes, m + 1) == Some(i));
        lemma_first_found_stays(sizes, i, m + 1, n);
    }
}

/// The directory of the documentation files of a package.
pub open spec fn docs_directory(root: Seq<char>) -> Seq<char> {
    paths::joined(root, "docs"@)
}

/// The Markdown files of a package: the README, which is the first of the
/// candidates at which there is a file within the limit, and the files below the
/// documentation directory in path order. `sizes` holds the size of the file at
/// each candidate, where there is one; `doc_files` the files that were found below
/// the documentation directory, with their sizes where they are known. No file is
/// taken twice, and none that is too large or in a directory that is never entered.
pub fn discover(
    package: &PackageIdentity,
    readme: Option<&str>,
    sizes: &Vec<Option<u64>>,
    doc_files: &Vec<(String, Option<u64>)>,
) -> (r: Vec<MarkdownFile>)
    ensures
        file_views(r@) == files_of(
            package@.root(),
            readme_taken(
                readme_places(
                    package@.root(),
                    match readme {
                        Some(p) => Some(p@),
                        None => None,
                    },
                ),
                sizes@,
            ),
            in_path_order(
                eligible_paths(docs_directory(package@.root()), entry_views(doc_files@)),
            ),
        ),
{
    let root = package.root();
    let candidates = readme_candidates(package, readme);
    let ghost places = words::texts(candidates@);
    let ghost chosen = readme_taken(places, sizes@);
    let mut files: Vec<MarkdownFile> = Vec::new();
    let mut taken: Vec<String> = Vec::new();
    if let Some(i) = find_first(sizes, candidates.len()) {
        let path = candidates[i].clone();
        assert(path@ == places[i as int]);
        files.push(
            MarkdownFile {
                rel_path: paths::rel_name(path.as_str(), root.as_str()),
                abs_path: path.clone(),
                kind: SourceKind::CrateReadme,
            },
        );
        taken.push(path);
    }
    assert(words::texts(taken@) =~= chosen);
    let ghost lead = chosen.map_values(
        |p: Seq<char>| file_at(root@, p, SourceKind::CrateReadme),
    );
    assert(file_views(files@) =~= lead);
    let docs = paths::path_join(root.as_str(), "docs");
    let eligible_files = keep_eligible(docs.as_str(), doc_files);
    let sorted = sort_paths(&eligible_files);
    let ghost all = words::texts(sorted@);
    let mut k: usize = 0;
    while k < sorted.len()
        invariant
            k <= sorted@.len(),
            all == words::texts(sorted@),
            words::texts(taken@) == chosen,
            file_views(files@) == lead + first_of_each(all.take(k as int), chosen).map_values(
                |p: Seq<char>| file_at(root@, p, SourceKind::MarkdownDocument),
            ),
        decreases sorted@.len() - k,
    {
        let ghost before = file_views(files@);
        let ghost kept = first_of_each(all.take(k as int), chosen);
        assert(all.take(k + 1).drop_last() == all.take(k as int));
        assert(words::texts(taken@).take(taken@.len() as int) == chosen);
        let path = sorted[k].clone();
        assert(all[k as int] == path@);
        if !is_known(&taken, taken.len(), path.as_str()) && !is_known(&sorted, k, path.as_str()) {
            let file = MarkdownFile {
                rel_path: paths::rel_name(path.as_str(), root.as_str()),
                abs_path: path,
                kind: SourceKind::MarkdownDocument,
            };
            let ghost shown = file@;
            files.push(file);
            assert(file_views(files@) == before.push(shown));
            assert(kept.push(all[k as int]).map_values(
                |p: Seq<char>| file_at(root@, p, SourceKind::MarkdownDocument),
            ) == kept.map_values(
                |p: Seq<char>| file_at(root@, p, SourceKind::MarkdownDocument),
            ).push(shown));
        }
        k = k + 1;
    }
    assert(all.take(all.len() as int) == all);
    files
}

// ---------------------------------------------------------------------------
// Laws
// ---------------------------------------------------------------------------

/// What is kept is neither taken already nor the same as another kept path.
pub proof fn lemma_first_of_each(all: Seq<Seq<char>>, taken: Seq<Seq<char>>)
    ensures
        forall|i: int|
            0 <= i < first_of_each(all, taken).len() ==> !known(
                taken,
                #[trigger] first_of_each(all, taken)[i],
            ) && all.contains(first_of_each(all, taken)[i]),
        forall|i: int, j: int|
            0 <= i < j < first_of_each(all, taken).len() ==> !paths::same_path(
                #[trigger] first_of_each(all, taken)[i],
                #[trigger] first_of_each(all, taken)[j],
            ),
    decreases all.len(),
{
    if all.len() > 0 {
        let init = all.drop_last();
        lemma_first_of_each(init, taken);
        let before = first_of_each(init, taken);
        let last = all.last();
        assert(all.contains(all[all.len() - 1]));
        assert forall|i: int| 0 <= i < before.len() implies all.contains(#[trigger] before[i]) && (
        !known(init, last) ==> !paths::same_path(before[i], last)) by {
            assert(init.contains(before[i]));
            let k = choose|k: int| 0 <= k < init.len() && init[k] == before[i];
            assert(all[k] == before[i]);
            if paths::same_path(before[i], last) {
                assert(paths::same_path(init[k], last));
            }
        }
    }
}

/// One README at most, and no file twice.
pub proof fn law_no_file_twice(
    root: Seq<char>,
    places: Seq<Seq<char>>,
    sizes: Seq<Option<u64>>,
    sorted: Seq<Seq<char>>,
)
    ensures
        ({
            let files = files_of(root, readme_taken(places, sizes), sorted);
            &&& forall|i: int|
                1 <= i < files.len() ==> (#[trigger] files[i]).kind is MarkdownDocument
            &&& forall|i: int, j: int|
                0 <= i < j < files.len() ==> !paths::same_path(
                    (#[trigger] files[i]).abs_path,
                    (#[trigger] files[j]).abs_path,
                )
        }),
{
    let readme = readme_taken(places, sizes);
    let rest = first_of_each(sorted, readme);
    let files = files_of(root, readme, sorted);
    lemma_first_of_each(sorted, readme);
    assert forall|i: int, j: int| 0 <= i < j < files.len() implies !paths::same_path(
        (#[trigger] files[i]).abs_path,
        (#[trigger] files[j]).abs_path,
    ) by {
        let n = readme.len();
        assert(files[j].abs_path == rest[j - n]);
        if i < n {
            assert(files[i].abs_path == readme[i]);
            assert(!known(readme, rest[j - n]));
            if paths::same_path(readme[i], rest[j - n]) {
                assert(known(readme, rest[j - n]));
            }
        } else {
            assert(files[i].abs_path == rest[i - n]);
        }
    }
}

/// In path order no path stands behind one that it comes before, every path given
/// is there, and no other.
pub proof fn law_path_order(all: Seq<Seq<char>>)
    requires
        all.len() <= usize::MAX,
    ensures
        in_path_order(all).len() == all.len(),
        forall|i: int, j: int|
            0 <= i < j < all.len() ==> !order::key_less(
                paths::path_key(#[trigger] in_path_order(all)[j]),
                paths::path_key(#[trigger] in_path_order(all)[i]),
            ),
        forall|p: Seq<char>| #[trigger] all.contains(p) ==> in_path_order(all).contains(p),
        forall|i: int| 0 <= i < all.len() ==> all.contains(#[trigger] in_path_order(all)[i]),
{
    let keys = path_keys(all);
    order::lemma_sorted_order(keys);
    let at = order::sorted_order(keys);
    let sorted = in_path_order(all);
    assert forall|i: int, j: int| 0 <= i < j < all.len() implies !order::key_less(
        paths::path_key(#[trigger] sorted[j]),
        paths::path_key(#[trigger] sorted[i]),
    ) by {
        assert(order::goes_before(keys, at[i] as int, at[j] as int));
        assert(keys[at[i] as int] == paths::path_key(sorted[i]));
        assert(keys[at[j] as int] == paths::path_key(sorted[j]));
        order::lemma_key_less_asymmetric(keys[at[i] as int], keys[at[j] as int]);
    }
    assert forall|i: int| 0 <= i < all.len() implies all.contains(#[trigger] sorted[i]) by {
        assert(sorted[i] == all[at[i] as int]);
    }
    assert forall|p: Seq<char>| #[trigger] all.contains(p) implies sorted.contains(p) by {
        let k = choose|k: int| 0 <= k < all.len() && all[k] == p;
        assert(at.contains(k as usize));
        let i = choose|i: int| 0 <= i < at.len() && at[i] == k as usize;
        assert(sorted[i] == p);
    }
}

/// The first place that is found has a file within the limit.
proof fn lemma_first_found_fits(sizes: Seq<Option<u64>>, n: int)
    ensures
        first_found(sizes, n) matches Some(i) ==> 0 <= i < n && i < sizes.len() && fits(sizes[i]),
    decreases n,
{
    if n > 0 {
        lemma_first_found_fits(sizes, n - 1);
    }
}

/// The path is that of an eligible file.
pub open spec fn comes_from(docs: Seq<char>, entries: Seq<(Seq<char>, Option<u64>)>, path: Seq<char>) -> bool {
    exists|k: int|
        0 <= k < entries.len() && (#[trigger] entries[k]).0 == path && eligible(
            docs,
            path,
            entries[k].1,
        )
}

/// What is taken up was given and is eligible.
pub proof fn lemma_eligible_paths(docs: Seq<char>, entries: Seq<(Seq<char>, Option<u64>)>)
    ensures
        eligible_paths(docs, entries).len() <= entries.len(),
        forall|i: int|
            0 <= i < eligible_paths(docs, entries).len() ==> comes_from(
                docs,
                entries,
                #[trigger] eligible_paths(docs, entries)[i],
            ),
    decreases entries.len(),
{
    if entries.len() > 0 {
        let init = entries.drop_last();
        let before = eligible_paths(docs, init);
        let all = eligible_paths(docs, entries);
        lemma_eligible_paths(docs, init);
        assert forall|i: int| 0 <= i < all.len() implies comes_from(
            docs,
            entries,
            #[trigger] all[i],
        ) by {
            if i < before.len() {
                assert(comes_from(docs, init, before[i]));
                let k = choose|k: int|
                    0 <= k < init.len() && (#[trigger] init[k]).0 == before[i] && eligible(
                        docs,
                        before[i],
                        init[k].1,
                    );
                assert(entries[k] == init[k]);
            } else {
                assert(entries[entries.len() - 1] == entries.last());
            }
        }
    }
}

/// Every file that is taken up was found with a size within the limit, and no
/// documentation file lies in a directory that is never entered.
pub proof fn law_files_fit(
    root: Seq<char>,
    places: Seq<Seq<char>>,
    sizes: Seq<Option<u64>>,
    entries: Seq<(Seq<char>, Option<u64>)>,
    at: int,
)
    requires
        entries.len() <= usize::MAX,
        0 <= at < files_of(
            root,
            readme_taken(places, sizes),
            in_path_order(eligible_paths(docs_directory(root), entries)),
        ).len(),
    ensures
        ({
            let file = files_of(
                root,
                readme_taken(places, sizes),
                in_path_order(eligible_paths(docs_directory(root), entries)),
            )[at];
            if file.kind is CrateReadme {
                exists|k: int|
                    0 <= k < places.len() && k < sizes.len() && #[trigger] places[k]
                        == file.abs_path && fits(sizes[k])
            } else {
                file.kind is MarkdownDocument && exists|k: int|
                    0 <= k < entries.len() && (#[trigger] entries[k]).0 == file.abs_path && fits(
                        entries[k].1,
                    ) && !hidden_below(docs_directory(root), file.abs_path)
            }
        }),
{
    let docs = docs_directory(root);
    let readme = readme_taken(places, sizes);
    let given = eligible_paths(docs, entries);
    let sorted = in_path_order(given);
    let rest = first_of_each(sorted, readme);
    lemma_first_found_fits(sizes, places.len() as int);
    if at < readme.len() {
        let i = first_found(sizes, places.len() as int)->0;
        assert(readme[at] == places[i]);
    } else {
        lemma_eligible_paths(docs, entries);
        law_path_order(given);
        lemma_first_of_each(sorted, readme);
        let path = rest[at - readme.len()];
        assert(sorted.contains(path));
        let m = choose|m: int| 0 <= m < sorted.len() && sorted[m] == path;
        assert(given.contains(sorted[m]));
        let i = choose|i: int| 0 <= i < given.len() && given[i] == path;
        assert(comes_from(docs, entries, given[i]));
    }
}

/// The README that the manifest declares wins over the common names where there
/// is a file within the limit at its place.
pub proof fn law_declared_readme_wins(
    root: Seq<char>,
    declared: Seq<char>,
    sizes: Seq<Option<u64>>,
    sorted: Seq<Seq<char>>,
)
    requires
        sizes.len() > 0,
        fits(sizes[0]),
    ensures
        ({
            let files = files_of(
                root,
                readme_taken(readme_places(root, Some(declared)), sizes),
                sorted,
            );
            files.len() > 0 && files[0] == file_at(
                root,
                paths::joined(root, declared),
                SourceKind::CrateReadme,
            )
        }),
{
    let places = readme_places(root, Some(declared));
    assert(first_found(sizes, 1) == Some(0int)) by {
        reveal_with_fuel(first_found, 2);
    }
    lemma_first_found_stays(sizes, 0, 1, places.len() as int);
    assert(places[0] == paths::joined(root, declared));
}

} // verus!
