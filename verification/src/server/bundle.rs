//! Which files of the projects directory go into the bundle, and under
//! which names.

use vstd::prelude::*;
use vstd::string::*;

use crate::mods::table::entries_view;
use crate::order::str_equal;
use crate::text::{join_path, path_join, push_char};

verus! {

/// The pieces of a path between its `/` separators (empty pieces included).
pub open spec fn split_path(s: Seq<char>) -> Seq<Seq<char>>
    decreases s.len(),
{
    if s.len() == 0 {
        seq![seq![]]
    } else {
        let prev = split_path(s.drop_last());
        if s.last() == '/' {
            prev.push(seq![])
        } else {
            prev.update(prev.len() - 1, prev.last().push(s.last()))
        }
    }
}

pub proof fn lemma_split_path_nonempty(s: Seq<char>)
    ensures
        split_path(s).len() >= 1,
    decreases s.len(),
{
    if s.len() > 0 {
        lemma_split_path_nonempty(s.drop_last());
    }
}

/// Directories that never go into a bundle.
pub open spec fn is_skipped_name(piece: Seq<char>) -> bool {
    piece == ".git"@ || piece == ".build"@ || piece == "target"@
}

/// Some piece is a skipped directory.
pub open spec fn any_skipped(pieces: Seq<Seq<char>>) -> bool {
    exists|k: int| 0 <= k < pieces.len() && is_skipped_name(#[trigger] pieces[k])
}

/// A path is skipped when one of its components is `.git`, `.build` or
/// `target`.
pub open spec fn spec_should_skip(path: Seq<char>) -> bool {
    any_skipped(split_path(path))
}

proof fn lemma_any_skipped_last(pieces: Seq<Seq<char>>)
    requires
        pieces.len() >= 1,
    ensures
        any_skipped(pieces) == (any_skipped(pieces.drop_last()) || is_skipped_name(pieces.last())),
{
    let init = pieces.drop_last();
    if any_skipped(pieces) {
        let k = choose|k: int| 0 <= k < pieces.len() && is_skipped_name(#[trigger] pieces[k]);
        if k < pieces.len() - 1 {
            assert(init[k] == pieces[k]);
        }
    }
    if any_skipped(init) {
        let k = choose|k: int| 0 <= k < init.len() && is_skipped_name(#[trigger] init[k]);
        assert(pieces[k] == init[k]);
    }
    if is_skipped_name(pieces.last()) {
        assert(is_skipped_name(pieces[pieces.len() - 1]));
    }
}

proof fn lemma_split_path_join(a: Seq<char>, b: Seq<char>)
    ensures
        split_path(a + seq!['/'] + b) == split_path(a) + split_path(b),
    decreases b.len(),
{
    let s = a + seq!['/'] + b;
    if b.len() == 0 {
        assert(s.drop_last() =~= a);
        assert(split_path(s) =~= split_path(a) + split_path(b));
    } else {
        assert(s.drop_last() =~= a + seq!['/'] + b.drop_last());
        lemma_split_path_join(a, b.drop_last());
        lemma_split_path_nonempty(b.drop_last());
        let pa = split_path(a);
        let pb = split_path(b.drop_last());
        assert(s.last() == b.last());
        if b.last() == '/' {
            assert(split_path(s) =~= pa + split_path(b));
        } else {
            assert((pa + pb).last() == pb.last());
            assert(split_path(s) =~= pa + split_path(b));
        }
    }
}

proof fn lemma_any_skipped_concat(p: Seq<Seq<char>>, q: Seq<Seq<char>>)
    ensures
        any_skipped(p + q) == (any_skipped(p) || any_skipped(q)),
{
    let pq = p + q;
    if any_skipped(pq) {
        let k = choose|k: int| 0 <= k < pq.len() && is_skipped_name(#[trigger] pq[k]);
        if k < p.len() {
            assert(p[k] == pq[k]);
        } else {
            assert(q[k - p.len()] == pq[k]);
        }
    }
    if any_skipped(p) {
        let k = choose|k: int| 0 <= k < p.len() && is_skipped_name(#[trigger] p[k]);
        assert(pq[k] == p[k]);
    }
    if any_skipped(q) {
        let k = choose|k: int| 0 <= k < q.len() && is_skipped_name(#[trigger] q[k]);
        assert(pq[k + p.len()] == q[k]);
    }
}

proof fn lemma_split_path_single(c: Seq<char>)
    requires
        !c.contains('/'),
    ensures
        split_path(c) == seq![c],
    decreases c.len(),
{
    if c.len() == 0 {
        assert(c =~= Seq::<char>::empty());
        assert(split_path(c) =~= seq![c]);
    } else {
        let init = c.drop_last();
        assert(!init.contains('/')) by {
            if init.contains('/') {
                let k = init.index_of('/');
                assert(c[k] == '/');
            }
        }
        lemma_split_path_single(init);
        assert(c[c.len() - 1] != '/');
        assert(init.push(c.last()) =~= c);
        assert(split_path(c) =~= seq![c]);
    }
}

/// A path joined from two with `/` is skipped exactly when one of the two
/// is; and a single component (no `/`) is skipped exactly when it is
/// `.git`, `.build` or `target`. So a path is skipped exactly when one of
/// its components is one of those three names.
pub proof fn lemma_should_skip_components(a: Seq<char>, b: Seq<char>, component: Seq<char>)
    ensures
        spec_should_skip(a + seq!['/'] + b) == (spec_should_skip(a) || spec_should_skip(b)),
        !component.contains('/') ==> (spec_should_skip(component) == (component == ".git"@
            || component == ".build"@ || component == "target"@)),
{
    lemma_split_path_join(a, b);
    lemma_any_skipped_concat(split_path(a), split_path(b));
    if !component.contains('/') {
        lemma_split_path_single(component);
        let pieces = seq![component];
        if is_skipped_name(component) {
            assert(is_skipped_name(pieces[0]));
        }
    }
}

/// A piece that names a file or directory (not empty, not `.`).
pub open spec fn is_normal_piece(piece: Seq<char>) -> bool {
    piece.len() > 0 && piece != "."@
}

/// The last piece that names something.
pub open spec fn last_normal(pieces: Seq<Seq<char>>) -> Option<Seq<char>>
    decreases pieces.len(),
{
    if pieces.len() == 0 {
        None
    } else if is_normal_piece(pieces.last()) {
        Some(pieces.last())
    } else {
        last_normal(pieces.drop_last())
    }
}

/// `Path::file_name`: the last component, unless it is `..` or there is
/// none.
pub open spec fn spec_file_name(path: Seq<char>) -> Option<Seq<char>> {
    match last_normal(split_path(path)) {
        Some(piece) => if piece == ".."@ {
            None
        } else {
            Some(piece)
        },
        None => None,
    }
}

/// The top directory of the bundle: the projects directory's own name,
/// `projects` when it has none.
pub open spec fn spec_bundle_prefix(projects_root: Seq<char>) -> Seq<char> {
    match spec_file_name(projects_root) {
        Some(name) => name,
        None => "projects"@,
    }
}

fn is_skipped_piece(piece: &str) -> (skipped: bool)
    ensures
        skipped == is_skipped_name(piece@),
{
    str_equal(piece, ".git") || str_equal(piece, ".build") || str_equal(piece, "target")
}

fn is_normal(piece: &str) -> (normal: bool)
    ensures
        normal == is_normal_piece(piece@),
{
    piece.unicode_len() > 0 && !str_equal(piece, ".")
}

/// Whether `path` has a `.git`, `.build` or `target` component.
pub fn should_skip(path: &str) -> (skip: bool)
    ensures
        skip == spec_should_skip(path@),
{
    let n = path.unicode_len();
    let mut piece = String::new();
    let mut found = false;
    proof {
        assert(path@.take(0) =~= Seq::<char>::empty());
        assert(!any_skipped(split_path(path@.take(0)).drop_last()));
    }
    for i in 0..n
        invariant
            n == path@.len(),
            split_path(path@.take(i as int)).len() >= 1,
            split_path(path@.take(i as int)).last() == piece@,
            found == any_skipped(split_path(path@.take(i as int)).drop_last()),
    {
        let c = path.get_char(i);
        let ghost segs = split_path(path@.take(i as int));
        proof {
            assert(path@.take(i + 1).drop_last() =~= path@.take(i as int));
            assert(path@.take(i + 1).last() == c);
        }
        if c == '/' {
            let skipped = is_skipped_piece(piece.as_str());
            proof {
                let next = split_path(path@.take(i + 1));
                assert(next == segs.push(seq![]));
                assert(next.drop_last() =~= segs);
                lemma_any_skipped_last(segs);
            }
            found = found || skipped;
            piece = String::new();
        } else {
            push_char(&mut piece, c);
            proof {
                let next = split_path(path@.take(i + 1));
                assert(next == segs.update(segs.len() - 1, segs.last().push(c)));
                assert(next.drop_last() =~= segs.drop_last());
            }
        }
    }
    proof {
        assert(path@.take(n as int) =~= path@);
        lemma_any_skipped_last(split_path(path@));
    }
    let last_skipped = is_skipped_piece(piece.as_str());
    found || last_skipped
}

/// The name of the bundle's top directory.
pub fn bundle_prefix(projects_root: &str) -> (prefix: String)
    ensures
        prefix@ == spec_bundle_prefix(projects_root@),
{
    let n = projects_root.unicode_len();
    let mut piece = String::new();
    let mut last: Option<String> = None;
    proof {
        assert(projects_root@.take(0) =~= Seq::<char>::empty());
    }
    for i in 0..n
        invariant
            n == projects_root@.len(),
            split_path(projects_root@.take(i as int)).len() >= 1,
            split_path(projects_root@.take(i as int)).last() == piece@,
            last_normal(split_path(projects_root@.take(i as int)).drop_last()) == crate::process::option_view(last),
    {
        let c = projects_root.get_char(i);
        let ghost segs = split_path(projects_root@.take(i as int));
        proof {
            assert(projects_root@.take(i + 1).drop_last() =~= projects_root@.take(i as int));
            assert(projects_root@.take(i + 1).last() == c);
        }
        if c == '/' {
            if is_normal(piece.as_str()) {
                last = Some(piece);
            }
            piece = String::new();
            proof {
                let next = split_path(projects_root@.take(i + 1));
                assert(next == segs.push(seq![]));
                assert(next.drop_last() =~= segs);
                assert(segs.drop_last().push(segs.last()) =~= segs);
            }
        } else {
            push_char(&mut piece, c);
            proof {
                let next = split_path(projects_root@.take(i + 1));
                assert(next == segs.update(segs.len() - 1, segs.last().push(c)));
                assert(next.drop_last() =~= segs.drop_last());
            }
        }
    }
    proof {
        assert(projects_root@.take(n as int) =~= projects_root@);
        let segs = split_path(projects_root@);
        assert(segs.drop_last().push(segs.last()) =~= segs);
    }
    let name = if is_normal(piece.as_str()) {
        Some(piece)
    } else {
        last
    };
    match name {
        Some(name) => {
            if str_equal(name.as_str(), "..") {
                "projects".to_owned()
            } else {
                name
            }
        },
        None => "projects".to_owned(),
    }
}

/// The name in the bundle of the file at `relative` under the projects
/// directory.
pub fn archive_path(prefix: &str, relative: &str) -> (name: String)
    ensures
        name@ == path_join(prefix@, relative@),
{
    join_path(prefix, relative)
}

/// The entries of the bundle for the regular files `files`, given by their
/// paths relative to `projects_root`, in the order given: for each file
/// that neither its full path nor its relative path puts under `.git`,
/// `.build` or `target`, its name in the archive and its relative path.
pub open spec fn spec_bundle_entries(projects_root: Seq<char>, files: Seq<Seq<char>>) -> Seq<
    (Seq<char>, Seq<char>),
>
    decreases files.len(),
{
    if files.len() == 0 {
        seq![]
    } else {
        let rest = spec_bundle_entries(projects_root, files.drop_last());
        let relative = files.last();
        if spec_should_skip(path_join(projects_root, relative)) || spec_should_skip(relative) {
            rest
        } else {
            rest.push((path_join(spec_bundle_prefix(projects_root), relative), relative))
        }
    }
}

/// The bundle holds an entry exactly for each listed file that is not
/// skipped, named by the bundle's top directory joined with the file's
/// relative path.
pub proof fn lemma_bundle_entries_exact(
    projects_root: Seq<char>,
    files: Seq<Seq<char>>,
    name: Seq<char>,
    relative: Seq<char>,
)
    ensures
        spec_bundle_entries(projects_root, files).contains((name, relative)) <==> {
            &&& files.contains(relative)
            &&& !spec_should_skip(path_join(projects_root, relative))
            &&& !spec_should_skip(relative)
            &&& name == path_join(spec_bundle_prefix(projects_root), relative)
        },
    decreases files.len(),
{
    if files.len() > 0 {
        let init = files.drop_last();
        lemma_bundle_entries_exact(projects_root, init, name, relative);
        let rest = spec_bundle_entries(projects_root, init);
        let all = spec_bundle_entries(projects_root, files);
        assert(files =~= init.push(files.last()));
        if files.contains(relative) && !init.contains(relative) {
            let i = files.index_of(relative);
            if i < init.len() {
                assert(init[i] == relative);
            }
            assert(relative == files.last());
        }
        if init.contains(relative) {
            let i = init.index_of(relative);
            assert(files[i] == relative);
        }
        if all.contains((name, relative)) && !rest.contains((name, relative)) {
            let i = all.index_of((name, relative));
            if i < rest.len() {
                assert(rest[i] == all[i]);
            }
        }
        if rest.contains((name, relative)) {
            let i = rest.index_of((name, relative));
            assert(all[i] == rest[i]);
        }
        if files.last() == relative && !spec_should_skip(path_join(projects_root, relative))
            && !spec_should_skip(relative) && name == path_join(
            spec_bundle_prefix(projects_root),
            relative,
        ) {
            assert(all[all.len() - 1] == (name, relative));
        }
    }
}

/// The bundle lists the kept files in the order given, each once: there is
/// a strictly increasing choice of positions in `files`, one per entry,
/// such that each entry is the file at its position with its archive name,
/// and every file that is not skipped is chosen. So listed files that
/// differ give entries that differ.
pub proof fn lemma_bundle_entries_follow_listing(projects_root: Seq<char>, files: Seq<Seq<char>>) -> (positions: Seq<int>)
    ensures
        ({
            let entries = spec_bundle_entries(projects_root, files);
            let prefix = spec_bundle_prefix(projects_root);
            &&& positions.len() == entries.len()
            &&& entries.len() <= files.len()
            &&& forall|k: int|
                0 <= k < positions.len() ==> {
                    let p = #[trigger] positions[k];
                    &&& 0 <= p < files.len()
                    &&& entries[k] == (path_join(prefix, files[p]), files[p])
                    &&& !spec_should_skip(path_join(projects_root, files[p]))
                    &&& !spec_should_skip(files[p])
                }
            &&& forall|k: int, l: int|
                0 <= k < l < positions.len() ==> #[trigger] positions[k] < #[trigger] positions[l]
            &&& forall|p: int|
                0 <= p < files.len() && !spec_should_skip(path_join(projects_root, files[p]))
                    && !spec_should_skip(#[trigger] files[p]) ==> exists|k: int|
                    0 <= k < positions.len() && #[trigger] positions[k] == p
            &&& files.no_duplicates() ==> entries.no_duplicates()
        }),
    decreases files.len(),
{
    let entries = spec_bundle_entries(projects_root, files);
    let prefix = spec_bundle_prefix(projects_root);
    if files.len() == 0 {
        seq![]
    } else {
        let init = files.drop_last();
        let before = lemma_bundle_entries_follow_listing(projects_root, init);
        let rest = spec_bundle_entries(projects_root, init);
        let last = files.len() - 1;
        let relative = files[last];
        let kept = !spec_should_skip(path_join(projects_root, relative)) && !spec_should_skip(
            relative,
        );
        let positions = if kept {
            before.push(last)
        } else {
            before
        };
        assert forall|k: int| 0 <= k < positions.len() implies {
            let p = #[trigger] positions[k];
            &&& 0 <= p < files.len()
            &&& entries[k] == (path_join(prefix, files[p]), files[p])
            &&& !spec_should_skip(path_join(projects_root, files[p]))
            &&& !spec_should_skip(files[p])
        } by {
            if k < before.len() {
                assert(positions[k] == before[k]);
                assert(entries[k] == rest[k]);
                assert(files[before[k]] == init[before[k]]);
            }
        }
        assert forall|k: int, l: int| 0 <= k < l < positions.len() implies #[trigger] positions[k]
            < #[trigger] positions[l] by {
            if l < before.len() {
                assert(positions[k] == before[k] && positions[l] == before[l]);
            } else {
                assert(positions[k] == before[k]);
            }
        }
        assert forall|p: int|
            0 <= p < files.len() && !spec_should_skip(path_join(projects_root, files[p]))
                && !spec_should_skip(#[trigger] files[p]) implies exists|k: int|
            0 <= k < positions.len() && #[trigger] positions[k] == p by {
            if p < last {
                assert(files[p] == init[p]);
                let k = choose|k: int| 0 <= k < before.len() && #[trigger] before[k] == p;
                assert(positions[k] == p);
            } else {
                assert(positions[before.len() as int] == p);
            }
        }
        if files.no_duplicates() {
            assert forall|k: int, l: int| 0 <= k < entries.len() && 0 <= l < entries.len() && k
                != l implies entries[k] != entries[l] by {
                let pk = positions[k];
                let pl = positions[l];
                if k < l {
                    assert(pk < pl);
                } else {
                    assert(pl < pk);
                }
                assert(files[pk] != files[pl]);
            }
        }
        positions
    }
}

/// The entries of the bundle for the regular files `files` found under
/// `projects_root`, given by their relative paths: see
/// [`spec_bundle_entries`].
pub fn bundle_entries(projects_root: &str, files: &Vec<String>) -> (entries: Vec<(String, String)>)
    ensures
        entries_view(entries@) == spec_bundle_entries(projects_root@, files.deep_view()),
{
    let ghost fs = files.deep_view();
    let prefix = bundle_prefix(projects_root);
    let mut entries: Vec<(String, String)> = Vec::new();
    proof {
        assert(entries_view(entries@) =~= spec_bundle_entries(projects_root@, fs.take(0)));
    }
    for i in 0..files.len()
        invariant
            fs == files.deep_view(),
            prefix@ == spec_bundle_prefix(projects_root@),
            entries_view(entries@) == spec_bundle_entries(projects_root@, fs.take(i as int)),
    {
        let relative = files[i].as_str();
        let full = join_path(projects_root, relative);
        proof {
            assert(fs.take(i + 1).drop_last() =~= fs.take(i as int));
            assert(fs.take(i + 1).last() == relative@);
        }
        if !should_skip(full.as_str()) && !should_skip(relative) {
            let name = archive_path(prefix.as_str(), relative);
            let ghost before = entries_view(entries@);
            entries.push((name, files[i].clone()));
            proof {
                assert(entries_view(entries@) =~= before.push((name@, relative@)));
            }
        }
    }
    proof {
        assert(fs.take(files@.len() as int) =~= fs);
    }
    entries
}

} // verus!
