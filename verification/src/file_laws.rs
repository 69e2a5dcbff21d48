//! Which files of a package are taken up, and how they are named.
use vstd::prelude::*;
use crate::discovery;
use crate::document::PackageView;
use crate::order;
use crate::paths;
use crate::pieces;
use crate::text;
use crate::text_laws;

verus! {

// ---------------------------------------------------------------------------
// Paths
// ---------------------------------------------------------------------------

/// Places moved behind a beginning.
spec fn moved(rs: Seq<(int, int)>, by: nat) -> Seq<(int, int)> {
    rs.map_values(|r: (int, int)| (r.0 + by, r.1 + by))
}

/// The runs of a path below a directory.
proof fn lemma_runs_below(base: Seq<char>, rel: Seq<char>)
    ensures
        paths::runs(base + seq!['/'] + rel) == paths::runs(base) + moved(
            paths::runs(rel),
            base.len() + 1,
        ),
    decreases rel.len(),
{
    let by = base.len() + 1;
    let p = base + seq!['/'] + rel;
    if rel.len() == 0 {
        assert(p.drop_last() =~= base);
        assert(p.last() == '/');
        assert(paths::runs(base) + moved(paths::runs(rel), by) =~= paths::runs(base));
    } else {
        let init = rel.drop_last();
        lemma_runs_below(base, init);
        let q = base + seq!['/'] + init;
        assert(p.drop_last() =~= q);
        assert(p.last() == rel.last());
        let a = paths::runs(base);
        let b = paths::runs(init);
        if rel.last() != '/' {
            if rel.len() >= 2 {
                assert(p[p.len() - 2] == rel[rel.len() - 2]);
                if rel[rel.len() - 2] != '/' {
                    paths::lemma_runs(init);
                    assert(b.len() > 0);
                    let joined = a + moved(b, by);
                    assert(joined.last() == (b.last().0 + by, b.last().1 + by));
                    assert(joined.drop_last().push((joined.last().0, p.len() as int)) =~= a + moved(
                        b.drop_last().push((b.last().0, rel.len() as int)),
                        by,
                    ));
                } else {
                    assert((a + moved(b, by)).push((p.len() - 1, p.len() as int)) =~= a + moved(
                        b.push((rel.len() - 1, rel.len() as int)),
                        by,
                    ));
                }
            } else {
                assert(init =~= Seq::<char>::empty());
                assert(p[p.len() - 2] == '/');
                assert((a + moved(b, by)).push((p.len() - 1, p.len() as int)) =~= a + moved(
                    b.push((rel.len() - 1, rel.len() as int)),
                    by,
                ));
            }
        }
    }
}

/// A path made of names only: it begins and ends with one, and none of them is a
/// single dot.
pub open spec fn plain_path(rel: Seq<char>) -> bool {
    &&& rel.len() > 0
    &&& rel[0] != '/'
    &&& rel.last() != '/'
    &&& forall|k: int|
        0 <= k < paths::runs(rel).len() ==> rel.subrange(
            (#[trigger] paths::runs(rel)[k]).0,
            paths::runs(rel)[k].1,
        ) != seq!['.']
}

/// Where all runs count, all of them are named.
proof fn lemma_all_named(p: Seq<char>, a: Seq<(int, int)>, b: Seq<(int, int)>)
    requires
        forall|k: int| 0 <= k < b.len() ==> paths::counts(p, #[trigger] b[k]),
    ensures
        paths::named(p, a + b) == paths::named(p, a) + b,
    decreases b.len(),
{
    if b.len() == 0 {
        assert(a + b =~= a);
        assert(paths::named(p, a) + b =~= paths::named(p, a));
    } else {
        let init = b.drop_last();
        assert forall|k: int| 0 <= k < init.len() implies paths::counts(p, #[trigger] init[k]) by {
            assert(paths::counts(p, b[k]));
        }
        lemma_all_named(p, a, init);
        assert((a + b).drop_last() =~= a + init);
        assert((a + b).last() == b[b.len() - 1]);
        assert((paths::named(p, a) + init).push(b.last()) =~= paths::named(p, a) + b);
    }
}

/// Runs of a beginning are named in the whole as in the beginning.
proof fn lemma_named_in_whole(base: Seq<char>, p: Seq<char>, rs: Seq<(int, int)>)
    requires
        base.is_prefix_of(p),
        paths::inside(base, rs),
    ensures
        paths::named(p, rs) == paths::named(base, rs),
    decreases rs.len(),
{
    if rs.len() > 0 {
        let init = rs.drop_last();
        assert forall|k: int| 0 <= k < init.len() implies 0 <= (#[trigger] init[k]).0 < init[k].1
            <= base.len() by {
            assert(0 <= rs[k].0 < rs[k].1 <= base.len());
        }
        lemma_named_in_whole(base, p, init);
        let r = rs[rs.len() - 1];
        assert(0 <= r.0 < r.1 <= base.len());
        assert(p.subrange(r.0, r.1) =~= base.subrange(r.0, r.1)) by {
            assert forall|i: int| r.0 <= i < r.1 implies p[i] == base[i] by {
                assert(p.subrange(0, base.len() as int)[i] == base[i]);
            }
        }
    }
}

/// The places of the names of a path below a directory.
proof fn lemma_spans_below(base: Seq<char>, rel: Seq<char>)
    requires
        base.len() > 0,
        plain_path(rel),
    ensures
        paths::spans(base + seq!['/'] + rel) == paths::spans(base) + moved(
            paths::runs(rel),
            base.len() + 1,
        ),
        paths::runs(rel).len() > 0,
        paths::runs(rel)[0].0 == 0,
        paths::runs(rel).last().1 == rel.len(),
        forall|k: int|
            0 <= k < paths::runs(base).len() ==> 0 <= (#[trigger] paths::runs(base)[k]).0
                < paths::runs(base)[k].1 <= base.len(),
{
    let by = base.len() + 1;
    let p = base + seq!['/'] + rel;
    lemma_runs_below(base, rel);
    paths::lemma_runs(base);
    paths::lemma_runs(rel);
    lemma_first_run(rel);
    let a = paths::runs(base);
    let b = moved(paths::runs(rel), by);
    assert(p.subrange(0, base.len() as int) =~= base);
    assert forall|k: int| 0 <= k < b.len() implies paths::counts(p, #[trigger] b[k]) by {
        let r = paths::runs(rel)[k];
        assert(0 <= r.0 < r.1 <= rel.len());
        assert(p.subrange(r.0 + by, r.1 + by) =~= rel.subrange(r.0, r.1));
    }
    lemma_all_named(p, a, b);
    lemma_named_in_whole(base, p, a);
    assert(p[0] == base[0]);
    let front = if base[0] == '/' {
        seq![(0int, 1int)]
    } else {
        Seq::empty()
    };
    assert(paths::spans(base) =~= front + paths::named(base, a));
    assert(paths::spans(p) =~= front + (paths::named(base, a) + b));
}

/// The first run of a path that begins with a name begins at its start.
proof fn lemma_first_run(p: Seq<char>)
    requires
        p.len() > 0,
        p[0] != '/',
    ensures
        paths::runs(p).len() > 0,
        paths::runs(p)[0].0 == 0,
    decreases p.len(),
{
    let init = p.drop_last();
    if init.len() > 0 {
        lemma_first_run(init);
        let before = paths::runs(init);
        if p.last() != '/' && p[p.len() - 2] != '/' {
            if before.len() == 1 {
                assert(paths::runs(p)[0] == (before.last().0, p.len() as int));
            } else {
                assert(paths::runs(p)[0] == before[0]);
            }
        }
    } else {
        assert(paths::runs(init).len() == 0);
    }
}

/// A file below a directory is named by its path below it, with slashes for
/// backslashes.
pub proof fn law_relative_name(root: Seq<char>, rel: Seq<char>)
    requires
        root.len() > 0,
        root.last() != '/',
        plain_path(rel),
        !rel.contains('\\'),
    ensures
        paths::joined(root, rel) == root + seq!['/'] + rel,
        paths::relative_name(paths::joined(root, rel), root) == rel,
{
    reveal_strlit("/");
    assert("/"@ =~= seq!['/']);
    let p = root + seq!['/'] + rel;
    assert(paths::joined(root, rel) =~= p);
    lemma_spans_below(root, rel);
    let n = paths::spans(root).len() as int;
    let below = moved(paths::runs(rel), root.len() + 1);
    let all = paths::spans(p);
    assert(all =~= paths::spans(root) + below);
    assert(all[n] == below[0]);
    assert(all.last() == below.last());
    assert(below[0].0 == root.len() + 1);
    assert(below.last().1 == p.len());
    paths::lemma_runs(root);
    let a = paths::components(p);
    let b = paths::components(root);
    assert(a.take(n) =~= b) by {
        assert forall|k: int| 0 <= k < n implies a[k] == b[k] by {
            let r = paths::spans(root)[k];
            assert(all[k] == r);
            lemma_span_inside(root, k);
            assert(p.subrange(r.0, r.1) =~= root.subrange(r.0, r.1));
        }
    }
    assert(n > 0) by {
        lemma_some_span(root);
    }
    assert(paths::tail(p, n) =~= rel);
    text_laws::law_replace_char(rel, '\\', '/');
    assert(pieces::replace_each(rel, '\\', "/"@) =~= rel);
}

/// The names of a path stand inside it.
proof fn lemma_span_inside(p: Seq<char>, k: int)
    requires
        0 <= k < paths::spans(p).len(),
    ensures
        0 <= paths::spans(p)[k].0 <= paths::spans(p)[k].1 <= p.len(),
{
    paths::lemma_runs(p);
    paths::lemma_named(p, paths::runs(p));
    let named = paths::named(p, paths::runs(p));
    let all = paths::spans(p);
    if p.len() > 0 && p[0] == '/' {
        if k > 0 {
            assert(all[k] == named[k - 1]);
            assert(paths::runs(p).contains(named[k - 1]));
        }
    } else {
        assert(all[k] == named[k]);
        assert(paths::runs(p).contains(named[k]));
    }
}

/// A path that is not empty has a name, or is the root.
proof fn lemma_some_span(p: Seq<char>)
    requires
        p.len() > 0,
    ensures
        paths::spans(p).len() > 0,
{
    if p[0] != '/' {
        lemma_first_run(p);
        lemma_first_counts(p, paths::runs(p));
    }
}

/// A run at the start counts.
proof fn lemma_first_counts(p: Seq<char>, rs: Seq<(int, int)>)
    requires
        rs.len() > 0,
        rs[0].0 == 0,
    ensures
        paths::named(p, rs).len() > 0,
    decreases rs.len(),
{
    if rs.len() > 1 {
        lemma_first_counts(p, rs.drop_last());
    }
}

/// The directory of a file is what its path says before the last slash; so the root
/// of a package is where its manifest stands.
pub proof fn law_directory_of_file(directory: Seq<char>, name: Seq<char>, package: PackageView)
    requires
        directory.len() > 0,
        directory.last() != '/',
        !pieces::has_suffix(directory, seq!['/', '.']),
        name.len() > 0,
        !name.contains('/'),
        name != seq!['.'],
    ensures
        paths::parent_of(directory + seq!['/'] + name) == Some(directory),
        package.manifest_path == directory + seq!['/'] + name ==> package.root() == directory,
{
    let p = directory + seq!['/'] + name;
    lemma_one_run(name);
    assert(name[0] != '/' && name[name.len() - 1] != '/');
    assert(name.subrange(0, name.len() as int) =~= name);
    lemma_spans_below(directory, name);
    lemma_some_span(directory);
    lemma_last_span(directory);
    let all = paths::spans(p);
    let d = paths::spans(directory);
    assert(all.len() == d.len() + 1);
    assert(all[all.len() - 2] == d.last());
    assert(p.take(directory.len() as int) =~= directory);
}

/// A name is one run.
proof fn lemma_one_run(name: Seq<char>)
    requires
        name.len() > 0,
        !name.contains('/'),
    ensures
        paths::runs(name) == seq![(0int, name.len() as int)],
    decreases name.len(),
{
    let init = name.drop_last();
    assert(name[name.len() - 1] != '/');
    if init.len() > 0 {
        assert forall|i: int| 0 <= i < init.len() implies init[i] != '/' by {
            assert(name[i] != '/');
        }
        lemma_one_run(init);
        assert(name[name.len() - 2] != '/');
        assert(paths::runs(name) =~= seq![(0int, name.len() as int)]);
    } else {
        assert(paths::runs(init) =~= Seq::<(int, int)>::empty());
        assert(paths::runs(name) =~= seq![(0int, name.len() as int)]);
    }
}

/// The last name of a path that does not end in a slash or a dot goes to its end.
proof fn lemma_last_span(p: Seq<char>)
    requires
        p.len() > 0,
        p.last() != '/',
        !pieces::has_suffix(p, seq!['/', '.']),
    ensures
        paths::spans(p).len() > 0,
        paths::spans(p).last().1 == p.len(),
        !(paths::spans(p).len() == 1 && p == seq!['/']),
{
    paths::lemma_runs(p);
    let rs = paths::runs(p);
    let r = rs.last();
    assert(r.1 == p.len());
    if !paths::counts(p, r) {
        assert(p.subrange(r.0, r.1) == seq!['.']);
        assert(r.0 == p.len() - 1);
        lemma_before_run(p);
        assert(p.skip(p.len() - 2) =~= seq!['/', '.']) by {
            assert(p.subrange(r.0, r.1)[0] == p[r.0]);
        }
    }
    assert(paths::named(p, rs).last() == r);
}

/// A slash stands before the last run, unless it begins the path.
proof fn lemma_before_run(p: Seq<char>)
    requires
        p.len() > 0,
        p.last() != '/',
        paths::runs(p).len() > 0,
    ensures
        paths::runs(p).last().0 > 0 ==> p[paths::runs(p).last().0 - 1] == '/',
    decreases p.len(),
{
    let init = p.drop_last();
    if p.len() >= 2 && p[p.len() - 2] != '/' {
        paths::lemma_runs(init);
        assert(init.last() == p[p.len() - 2]);
        lemma_before_run(init);
        let r = paths::runs(p).last();
        assert(r.0 == paths::runs(init).last().0);
    }
}

/// A path below a directory: with a slash between, unless there is one or the directory
/// is empty; and an absolute path is itself.
pub proof fn law_joined(base: Seq<char>, rel: Seq<char>)
    ensures
        paths::joined(base, seq!['/'] + rel) == seq!['/'] + rel,
        rel.len() == 0 || rel[0] != '/' ==> paths::joined(Seq::empty(), rel) == rel,
        rel.len() == 0 || rel[0] != '/' ==> paths::joined(base + seq!['/'], rel) == base + seq!['/']
            + rel,
        (rel.len() == 0 || rel[0] != '/') && base.len() > 0 && base.last() != '/' ==> paths::joined(
            base,
            rel,
        ) == base + seq!['/'] + rel,
{
    reveal_strlit("/");
    assert("/"@ =~= seq!['/']);
    assert((seq!['/'] + rel)[0] == '/');
    assert(Seq::<char>::empty() + rel =~= rel);
    assert((base + seq!['/']).last() == '/');
}

/// A file without a directory is in the empty one, and the root is in none. A file that
/// is not below the package keeps its path, with slashes for backslashes.
pub proof fn law_paths_outside(name: Seq<char>, path: Seq<char>, root: Seq<char>, i: int)
    requires
        name.len() > 0,
        !name.contains('/'),
        !paths::has_prefix(path, root),
        0 <= i < path.len(),
    ensures
        paths::parent_of(name) == Some(Seq::<char>::empty()),
        paths::parent_of(seq!['/']) is None,
        paths::relative_name(path, root).len() == path.len(),
        paths::relative_name(path, root)[i] == (if path[i] == '\\' {
            '/'
        } else {
            path[i]
        }),
{
    reveal_strlit("/");
    assert("/"@ =~= seq!['/']);
    lemma_one_run(name);
    assert(name[0] != '/');
    reveal_with_fuel(paths::named, 2);
    assert(paths::spans(name).len() == 1);
    let slash = seq!['/'];
    assert(slash.drop_last() =~= Seq::<char>::empty());
    reveal_with_fuel(paths::runs, 2);
    assert(paths::runs(slash) =~= Seq::<(int, int)>::empty());
    assert(paths::spans(slash) =~= seq![(0int, 1int)]);
    text_laws::law_replace_char(path, '\\', '/');
}

/// Two paths are the same just when they have the same names.
pub proof fn law_same_path(a: Seq<char>, b: Seq<char>)
    ensures
        paths::same_path(a, b) == (paths::components(a) == paths::components(b)),
{
    let x = paths::components(a);
    let y = paths::components(b);
    if paths::same_path(a, b) {
        let p = paths::path_key(a);
        let q = paths::path_key(b);
        assert(x.len() == p.len() && y.len() == q.len());
        assert forall|i: int| 0 <= i < x.len() implies x[i] == y[i] by {
            assert(p[i] == paths::component_key(x[i]) && q[i] == paths::component_key(y[i]));
            lemma_key_tells(x[i], y[i]);
        }
        assert(x =~= y);
    }
}

/// The key of a name tells the name.
proof fn lemma_key_tells(a: Seq<char>, b: Seq<char>)
    requires
        paths::component_key(a) == paths::component_key(b),
    ensures
        a == b,
{
    let x = paths::component_key(a);
    let y = paths::component_key(b);
    assert(x[0] == y[0]);
    if x[0] == '\u{3}' {
        assert(x.skip(1) =~= a);
        assert(y.skip(1) =~= b);
    }
}

/// Files in one directory are ordered by their names.
pub proof fn law_files_by_name(directory: Seq<char>, a: Seq<char>, b: Seq<char>)
    requires
        directory.len() > 0,
        file_name(a),
        file_name(b),
        order::text_less(a, b),
    ensures
        order::key_less(
            paths::path_key(directory + seq!['/'] + a),
            paths::path_key(directory + seq!['/'] + b),
        ),
{
    let x = paths::path_key(directory + seq!['/'] + a);
    let y = paths::path_key(directory + seq!['/'] + b);
    lemma_file_key(directory, a);
    lemma_file_key(directory, b);
    let three = seq!['\u{3}'];
    order::lemma_text_less_asymmetric(a, b);
    assert((three + a).drop_first() =~= a);
    assert((three + b).drop_first() =~= b);
    assert(order::text_less(three + a, three + b));
    let none = Seq::<Seq<char>>::empty();
    let same = paths::path_key(directory);
    text_laws::law_list_order(same, three + a, none, three + b, none);
    assert(x =~= same + seq![three + a] + none);
    assert(y =~= same + seq![three + b] + none);
}

/// The name of a file: no slash in it, and neither one dot nor two.
pub open spec fn file_name(name: Seq<char>) -> bool {
    name.len() > 0 && !name.contains('/') && name != seq!['.'] && name != seq!['.', '.']
}

/// The key of a file is that of its directory and its name.
proof fn lemma_file_key(directory: Seq<char>, name: Seq<char>)
    requires
        directory.len() > 0,
        file_name(name),
    ensures
        paths::path_key(directory + seq!['/'] + name) == paths::path_key(directory).push(
            seq!['\u{3}'] + name,
        ),
{
    reveal_strlit("/");
    reveal_strlit(".");
    reveal_strlit("..");
    assert("/"@ =~= seq!['/']);
    assert("."@ =~= seq!['.']);
    assert(".."@ =~= seq!['.', '.']);
    assert(seq!['/'].contains('/')) by {
        assert(seq!['/'][0] == '/');
    }
    let p = directory + seq!['/'] + name;
    lemma_one_run(name);
    assert(name[0] != '/' && name[name.len() - 1] != '/');
    assert(name.subrange(0, name.len() as int) =~= name);
    lemma_spans_below(directory, name);
    let all = paths::spans(p);
    let d = paths::spans(directory);
    let n = d.len() as int;
    assert(all.len() == n + 1);
    assert(all[n] == (directory.len() as int + 1, p.len() as int));
    let key = paths::path_key(p);
    let was = paths::path_key(directory);
    assert(p.subrange(directory.len() as int + 1, p.len() as int) =~= name);
    assert forall|k: int| 0 <= k < n implies key[k] == was[k] by {
        lemma_span_inside(directory, k);
        assert(all[k] == d[k]);
        assert(p.subrange(d[k].0, d[k].1) =~= directory.subrange(d[k].0, d[k].1));
    }
    assert(key =~= was.push(seq!['\u{3}'] + name));
}

// ---------------------------------------------------------------------------
// Names
// ---------------------------------------------------------------------------

/// What is a Markdown file: a name, a dot, and `md` or `markdown` in any case. A name
/// without a dot is none, and neither is one that only begins with a dot.
pub proof fn law_markdown_names(stem: Seq<char>, extension: Seq<char>, bare: Seq<char>)
    requires
        stem.len() > 0,
        !extension.contains('.'),
        stem + seq!['.'] + extension != seq!['.', '.'],
        !bare.contains('.'),
    ensures
        paths::markdown_name(stem + seq!['.'] + extension) == (text::ascii_lowercase(extension)
            == seq!['m', 'd'] || text::ascii_lowercase(extension) == seq![
            'm',
            'a',
            'r',
            'k',
            'd',
            'o',
            'w',
            'n',
        ]),
        !paths::markdown_name(bare),
        !paths::markdown_name(seq!['.'] + bare),
{
    reveal_strlit(".");
    reveal_strlit("..");
    reveal_strlit("md");
    reveal_strlit("markdown");
    assert("."@ =~= seq!['.']);
    assert(".."@ =~= seq!['.', '.']);
    assert("md"@ =~= seq!['m', 'd']);
    assert("markdown"@ =~= seq!['m', 'a', 'r', 'k', 'd', 'o', 'w', 'n']);
    text_laws::lemma_behind_last_char(stem, extension, '.');
    assert((stem + seq!['.'] + extension).skip(stem.len() as int + 1) =~= extension);
    text_laws::lemma_no_last_char(bare, '.');
    let none = Seq::<char>::empty();
    text_laws::lemma_behind_last_char(none, bare, '.');
    assert(none + seq!['.'] + bare =~= seq!['.'] + bare);
}

/// What is done with an entry of a directory. Directories of builds, repositories,
/// modules, vendored code and tests are left out and all others entered; files are
/// taken where they are Markdown files of at most two mebibytes.
pub proof fn law_entry_action(name: Seq<char>, size: Option<u64>)
    ensures
        (discovery::entry_action_of(name, true, size) is Skip) == (name == "target"@ || name
            == ".git"@ || name == "node_modules"@ || name == "vendor"@ || name == "tests"@),
        discovery::entry_action_of(name, true, size) is Skip || discovery::entry_action_of(
            name,
            true,
            size,
        ) is Descend,
        (discovery::entry_action_of(name, false, size) is Take) == (paths::markdown_name(name)
            && size is Some && size->0 <= 2097152),
        discovery::entry_action_of(name, false, size) is Take || discovery::entry_action_of(
            name,
            false,
            size,
        ) is Skip,
{
}

// ---------------------------------------------------------------------------
// The README
// ---------------------------------------------------------------------------

/// Where a README is looked for: first where the manifest says, then under the common
/// names, all of them in the directory of the package.
pub proof fn law_readme_places(root: Seq<char>, declared: Seq<char>)
    ensures
        ({
            let said = discovery::readme_places(root, Some(declared));
            let common = discovery::readme_places(root, None);
            &&& said.len() == 4 && common.len() == 3
            &&& said[0] == paths::joined(root, declared)
            &&& said.drop_first() == common
            &&& common[0] == paths::joined(root, "README.md"@)
            &&& common[1] == paths::joined(root, "README.markdown"@)
            &&& common[2] == paths::joined(root, "README"@)
        }),
{
    let said = discovery::readme_places(root, Some(declared));
    assert(said.drop_first() =~= discovery::readme_places(root, None));
}

/// The README is at the first place where there is a file of at most two mebibytes,
/// and there is none where there is no such place.
pub proof fn law_first_readme(places: Seq<Seq<char>>, sizes: Seq<Option<u64>>, i: int)
    requires
        sizes.len() == places.len(),
        0 <= i < places.len(),
        forall|k: int|
            0 <= k < i ==> !((#[trigger] sizes[k]) is Some && sizes[k]->0 <= 2097152),
    ensures
        sizes[i] is Some && sizes[i]->0 <= 2097152 ==> discovery::readme_taken(places, sizes)
            == seq![places[i]],
        i == places.len() - 1 && !(sizes[i] is Some && sizes[i]->0 <= 2097152)
            ==> discovery::readme_taken(places, sizes).len() == 0,
{
    lemma_first_found(sizes, places.len() as int, i);
}

/// The first size that fits.
proof fn lemma_first_found(sizes: Seq<Option<u64>>, n: int, i: int)
    requires
        0 <= i < sizes.len(),
        0 <= n <= sizes.len(),
        forall|k: int|
            0 <= k < i ==> !((#[trigger] sizes[k]) is Some && sizes[k]->0 <= 2097152),
    ensures
        n <= i ==> discovery::first_found(sizes, n) is None,
        i < n && sizes[i] is Some && sizes[i]->0 <= 2097152 ==> discovery::first_found(sizes, n)
            == Some(i),
        n == i + 1 && !(sizes[i] is Some && sizes[i]->0 <= 2097152) ==> discovery::first_found(
            sizes,
            n,
        ) is None,
    decreases n,
{
    if n > 0 {
        lemma_first_found(sizes, n - 1, i);
        if n - 1 < i {
            assert(!(sizes[n - 1] is Some && sizes[n - 1]->0 <= 2097152));
        }
    }
}

// ---------------------------------------------------------------------------
// Files
// ---------------------------------------------------------------------------

/// Every eligible path is kept.
proof fn lemma_eligible_kept(docs: Seq<char>, entries: Seq<(Seq<char>, Option<u64>)>, k: int)
    requires
        0 <= k < entries.len(),
        discovery::eligible(docs, entries[k].0, entries[k].1),
    ensures
        discovery::eligible_paths(docs, entries).contains(entries[k].0),
    decreases entries.len(),
{
    let all = discovery::eligible_paths(docs, entries);
    let init = entries.drop_last();
    let before = discovery::eligible_paths(docs, init);
    if k == init.len() {
        assert(all[before.len() as int] == entries[k].0);
    } else {
        lemma_eligible_kept(docs, init, k);
        let i = choose|i: int| 0 <= i < before.len() && before[i] == entries[k].0;
        assert(all[i] == entries[k].0);
    }
}

/// Of every path there is one that is taken, unless it was taken before.
proof fn lemma_one_of_each(all: Seq<Seq<char>>, taken: Seq<Seq<char>>, p: Seq<char>)
    requires
        all.contains(p),
    ensures
        discovery::known(taken, p) || discovery::known(discovery::first_of_each(all, taken), p),
    decreases all.len(),
{
    let init = all.drop_last();
    let k = choose|k: int| 0 <= k < all.len() && all[k] == p;
    let result = discovery::first_of_each(all, taken);
    let before = discovery::first_of_each(init, taken);
    if k < init.len() {
        assert(init[k] == p);
        lemma_one_of_each(init, taken, p);
        if discovery::known(before, p) {
            let i = choose|i: int| 0 <= i < before.len() && #[trigger] paths::same_path(before[i], p);
            assert(result[i] == before[i]);
            assert(paths::same_path(result[i], p));
        }
    } else if discovery::known(taken, p) {
    } else if discovery::known(init, p) {
        let i = choose|i: int| 0 <= i < init.len() && #[trigger] paths::same_path(init[i], p);
        let q = init[i];
        lemma_one_of_each(init, taken, q);
        if discovery::known(taken, q) {
            let j = choose|j: int| 0 <= j < taken.len() && #[trigger] paths::same_path(taken[j], q);
            assert(paths::same_path(taken[j], p));
        } else {
            let j = choose|j: int| 0 <= j < before.len() && #[trigger] paths::same_path(before[j], q);
            assert(result[j] == before[j]);
            assert(paths::same_path(result[j], p));
        }
    } else {
        let n = before.len() as int;
        assert(result[n] == p);
        assert(paths::same_path(result[n], p));
    }
}

/// Every Markdown file below the directory of documents that is small enough and not
/// in a directory that is left out is taken up, if it is not the README already.
pub proof fn law_every_document_found(
    root: Seq<char>,
    readme: Seq<Seq<char>>,
    entries: Seq<(Seq<char>, Option<u64>)>,
    k: int,
) -> (i: int)
    requires
        entries.len() <= usize::MAX,
        0 <= k < entries.len(),
        entries[k].1 is Some,
        entries[k].1->0 <= 2097152,
        paths::components(entries[k].0).len() > 0,
        paths::markdown_name(paths::components(entries[k].0).last()),
        !discovery::hidden_below(discovery::docs_directory(root), entries[k].0),
    ensures
        ({
            let files = discovery::files_of(
                root,
                readme,
                discovery::in_path_order(
                    discovery::eligible_paths(discovery::docs_directory(root), entries),
                ),
            );
            &&& 0 <= i < files.len()
            &&& paths::same_path(files[i].abs_path, entries[k].0)
        }),
{
    let p = entries[k].0;
    let docs = discovery::docs_directory(root);
    let found = discovery::eligible_paths(docs, entries);
    lemma_eligible_kept(docs, entries, k);
    discovery::lemma_eligible_paths(docs, entries);
    discovery::law_path_order(found);
    let sorted = discovery::in_path_order(found);
    lemma_one_of_each(sorted, readme, p);
    let files = discovery::files_of(root, readme, sorted);
    if discovery::known(readme, p) {
        let i = choose|i: int| 0 <= i < readme.len() && #[trigger] paths::same_path(readme[i], p);
        assert(files[i].abs_path == readme[i]);
        i
    } else {
        let rest = discovery::first_of_each(sorted, readme);
        let j = choose|j: int| 0 <= j < rest.len() && #[trigger] paths::same_path(rest[j], p);
        let i = readme.len() + j;
        assert(files[i].abs_path == rest[j]);
        i
    }
}

/// Every file is named by its path below the package. The README, where there is one,
/// comes first and is the only one of its kind.
pub proof fn law_files_named(
    root: Seq<char>,
    readme: Seq<Seq<char>>,
    sorted: Seq<Seq<char>>,
    i: int,
)
    requires
        0 <= i < discovery::files_of(root, readme, sorted).len(),
    ensures
        ({
            let files = discovery::files_of(root, readme, sorted);
            &&& files[i].rel_path == paths::relative_name(files[i].abs_path, root)
            &&& (files[i].kind is CrateReadme) == (i < readme.len())
            &&& i < readme.len() ==> files[i].abs_path == readme[i]
            &&& i >= readme.len() ==> files[i].kind is MarkdownDocument && sorted.contains(
                files[i].abs_path,
            )
        }),
{
    let files = discovery::files_of(root, readme, sorted);
    let rest = discovery::first_of_each(sorted, readme);
    if i >= readme.len() {
        discovery::lemma_first_of_each(sorted, readme);
        assert(files[i].abs_path == rest[i - readme.len()]);
    }
}

/// A file is not hidden where none of the directories between is left out.
pub proof fn law_not_hidden(docs: Seq<char>, path: Seq<char>)
    requires
        forall|k: int|
            paths::components(docs).len() <= k < paths::components(path).len() - 1 ==> {
                let name = #[trigger] paths::components(path)[k];
                name != "target"@ && name != ".git"@ && name != "node_modules"@ && name
                    != "vendor"@ && name != "tests"@
            },
    ensures
        !discovery::hidden_below(docs, path),
{
}

/// The directory of documents is `docs` in the directory of the package. A file is
/// hidden in it where one of the directories between is left out.
pub proof fn law_hidden(docs: Seq<char>, path: Seq<char>, root: Seq<char>, k: int)
    requires
        paths::has_prefix(path, docs),
        paths::components(docs).len() <= k < paths::components(path).len() - 1,
        paths::components(path)[k] == "target"@ || paths::components(path)[k] == ".git"@
            || paths::components(path)[k] == "node_modules"@ || paths::components(path)[k]
            == "vendor"@ || paths::components(path)[k] == "tests"@,
    ensures
        discovery::hidden_below(docs, path),
        !discovery::eligible(docs, path, Some(0)),
        discovery::docs_directory(root) == paths::joined(root, "docs"@),
{
    assert(discovery::skipped_directory(paths::components(path)[k]));
}

} // verus!
