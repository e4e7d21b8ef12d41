//! A mathematical model of the filesystem, and the bridge's laws proved
//! on it.
//!
//! The model is a map from absolute paths to nodes: a node is a directory
//! or a text file with its content. Each operation of the bridge has a
//! spec function here saying what it does to that map; the laws below are
//! proved of those functions — a successful initialization leaves the
//! three subdirectories standing as directories and touches nothing
//! else, a run that stops early keeps what it created and attempts
//! nothing later, initialization is idempotent and mutates nothing on a
//! bad root, a write followed by a read returns what was written, and a
//! rename moves an entry with its whole subtree and leaves nothing
//! behind.

use vstd::prelude::*;
use crate::init::subdir_names;

verus! {

/// One filesystem entry: a directory, or a text file with its content.
pub enum FsNode {
    Directory,
    TextFile { content: Seq<char> },
}

/// The path of a direct child of `dir` named `name`.
pub open spec fn child_path(dir: Seq<char>, name: Seq<char>) -> Seq<char> {
    dir + seq!['/'] + name
}

/// `p` names an existing directory.
pub open spec fn is_dir(fs: Map<Seq<char>, FsNode>, p: Seq<char>) -> bool {
    fs.contains_key(p) && fs[p] is Directory
}

/// `p` names an existing text file.
pub open spec fn is_file(fs: Map<Seq<char>, FsNode>, p: Seq<char>) -> bool {
    fs.contains_key(p) && fs[p] is TextFile
}

/// What reading the file at `p` returns: its content, or nothing where
/// no text file is at `p`.
pub open spec fn read_model(fs: Map<Seq<char>, FsNode>, p: Seq<char>) -> Option<Seq<char>> {
    if is_file(fs, p) {
        Some(fs[p]->content)
    } else {
        None
    }
}

/// Nothing blocks a directory at `p`: a directory stands there already,
/// or nothing does. Any other entry there makes the creation step fail —
/// creation never replaces an existing entry.
pub open spec fn clear_for_dir(fs: Map<Seq<char>, FsNode>, p: Seq<char>) -> bool {
    !fs.contains_key(p) || fs[p] is Directory
}

/// The effect of one completed subdirectory step: a directory already in
/// place is left untouched, not recreated or cleared; otherwise the
/// directory is created. (A step met by a blocking entry does not
/// complete: the run stops there, see [`lemma_init_partial_layout`].)
pub open spec fn ensure_dir(fs: Map<Seq<char>, FsNode>, p: Seq<char>) -> Map<Seq<char>, FsNode> {
    if is_dir(fs, p) {
        fs
    } else {
        fs.insert(p, FsNode::Directory)
    }
}

/// The completed steps for each of `names` under `root`, in order.
pub open spec fn ensure_dirs(
    fs: Map<Seq<char>, FsNode>,
    root: Seq<char>,
    names: Seq<Seq<char>>,
) -> Map<Seq<char>, FsNode>
    decreases names.len(),
{
    if names.len() == 0 {
        fs
    } else {
        ensure_dirs(ensure_dir(fs, child_path(root, names[0])), root, names.drop_first())
    }
}

/// What a successful project initialization does to the filesystem:
/// nothing unless the root is an existing directory, else it ensures the
/// fixed subdirectory set under the root.
pub open spec fn init_model(fs: Map<Seq<char>, FsNode>, root: Seq<char>) -> Map<
    Seq<char>,
    FsNode,
> {
    if is_dir(fs, root) {
        ensure_dirs(fs, root, subdir_names())
    } else {
        fs
    }
}

/// What a run that stopped early leaves behind: the first `took` names
/// dealt with, in order, and nothing later attempted.
pub open spec fn init_partial_model(
    fs: Map<Seq<char>, FsNode>,
    root: Seq<char>,
    took: int,
) -> Map<Seq<char>, FsNode> {
    ensure_dirs(fs, root, subdir_names().take(took))
}

/// What writing `content` to `p` does: the file is created if absent and
/// overwritten if present.
pub open spec fn write_model(
    fs: Map<Seq<char>, FsNode>,
    p: Seq<char>,
    content: Seq<char>,
) -> Map<Seq<char>, FsNode> {
    fs.insert(p, FsNode::TextFile { content })
}

/// `p` lies in the subtree rooted at `a`: it is `a` itself, or a path
/// below it.
pub open spec fn in_subtree(p: Seq<char>, a: Seq<char>) -> bool {
    p == a || (p.len() > a.len() && p.subrange(0, a.len() as int) == a && p[a.len() as int] == '/')
}

/// The path of the same entry after the subtree at `a` moves to `b`.
pub open spec fn rebased(p: Seq<char>, a: Seq<char>, b: Seq<char>) -> Seq<char> {
    b + p.skip(a.len() as int)
}

/// What renaming the entry at `a` to `b` does: the entry and everything
/// below it leave their old paths and stand, rebased, below `b`; every
/// path outside the two subtrees keeps its entry.
pub open spec fn rename_model(
    fs: Map<Seq<char>, FsNode>,
    a: Seq<char>,
    b: Seq<char>,
) -> Map<Seq<char>, FsNode> {
    Map::new(
        |q: Seq<char>|
            (fs.contains_key(q) && !in_subtree(q, a)) || (in_subtree(q, b) && fs.contains_key(
                rebased(q, b, a),
            )),
        |q: Seq<char>|
            if in_subtree(q, b) && fs.contains_key(rebased(q, b, a)) {
                fs[rebased(q, b, a)]
            } else {
                fs[q]
            },
    )
}

/// The names under which `dir` has text files as direct children. A name
/// holds no separator: what stands deeper in the tree is no child.
pub open spec fn file_children(fs: Map<Seq<char>, FsNode>, dir: Seq<char>) -> Set<Seq<char>> {
    Set::new(|name: Seq<char>| !name.contains('/') && is_file(fs, child_path(dir, name)))
}

/// The paths that ensuring `names` under `root` may add.
pub open spec fn subdir_paths(root: Seq<char>, names: Seq<Seq<char>>) -> Set<Seq<char>> {
    Set::new(|p: Seq<char>| exists|i: int| 0 <= i < names.len() && p == child_path(root, names[i]))
}

/// The full effect of a run of completed steps: each named path stands
/// as a directory afterwards, nothing else is added, and every entry
/// outside the named paths — and every directory anywhere — keeps its
/// value.
pub proof fn lemma_ensure_dirs_effect(
    fs: Map<Seq<char>, FsNode>,
    root: Seq<char>,
    names: Seq<Seq<char>>,
)
    ensures
        forall|p: Seq<char>| #[trigger] ensure_dirs(fs, root, names).contains_key(p)
            <==> fs.contains_key(p) || subdir_paths(root, names).contains(p),
        forall|p: Seq<char>| subdir_paths(root, names).contains(p) ==> #[trigger] ensure_dirs(
            fs,
            root,
            names,
        )[p] is Directory,
        forall|p: Seq<char>|
            fs.contains_key(p) && !subdir_paths(root, names).contains(p) ==> #[trigger] ensure_dirs(
                fs,
                root,
                names,
            )[p] == fs[p],
        forall|p: Seq<char>|
            fs.contains_key(p) && fs[p] is Directory ==> #[trigger] ensure_dirs(fs, root, names)[p]
                == fs[p],
    decreases names.len(),
{
    if names.len() > 0 {
        let first = child_path(root, names[0]);
        let step = ensure_dir(fs, first);
        lemma_ensure_dirs_effect(step, root, names.drop_first());
        assert(subdir_paths(root, names).contains(first));
        assert forall|p: Seq<char>| #[trigger] ensure_dirs(fs, root, names).contains_key(p)
            implies fs.contains_key(p) || subdir_paths(root, names).contains(p) by {
            if !fs.contains_key(p) && !step.contains_key(p) {
                let i = choose|i: int| 0 <= i < names.drop_first().len() && p == child_path(
                    root,
                    names.drop_first()[i],
                );
                assert(names.drop_first()[i] == names[i + 1]);
            }
        }
        assert forall|p: Seq<char>|
            fs.contains_key(p) || subdir_paths(root, names).contains(p)
            implies #[trigger] ensure_dirs(fs, root, names).contains_key(p) by {
            if !fs.contains_key(p) {
                let i = choose|i: int| 0 <= i < names.len() && p == child_path(root, names[i]);
                if i == 0 {
                    assert(step.contains_key(p));
                } else {
                    assert(names.drop_first()[i - 1] == names[i]);
                    assert(subdir_paths(root, names.drop_first()).contains(p));
                }
            }
        }
        assert forall|p: Seq<char>| subdir_paths(root, names).contains(p)
            implies #[trigger] ensure_dirs(fs, root, names)[p] is Directory by {
            let i = choose|i: int| 0 <= i < names.len() && p == child_path(root, names[i]);
            if i == 0 {
                assert(step.contains_key(p) && step[p] is Directory);
            } else {
                assert(names.drop_first()[i - 1] == names[i]);
                assert(subdir_paths(root, names.drop_first()).contains(p));
            }
        }
        assert forall|p: Seq<char>|
            fs.contains_key(p) && !subdir_paths(root, names).contains(p)
            implies #[trigger] ensure_dirs(fs, root, names)[p] == fs[p] by {
            assert(p != first);
            assert(step.contains_key(p) && step[p] == fs[p]);
            assert forall|i: int| 0 <= i < names.drop_first().len()
                implies p != child_path(root, #[trigger] names.drop_first()[i]) by {
                assert(names.drop_first()[i] == names[i + 1]);
            }
            assert(!subdir_paths(root, names.drop_first()).contains(p));
        }
    }
}

/// Completed steps on names that already stand as directories change
/// nothing.
pub proof fn lemma_ensure_dirs_noop(
    fs: Map<Seq<char>, FsNode>,
    root: Seq<char>,
    names: Seq<Seq<char>>,
)
    requires
        forall|i: int| 0 <= i < names.len() ==> is_dir(
            fs,
            #[trigger] child_path(root, names[i]),
        ),
    ensures
        ensure_dirs(fs, root, names) == fs,
    decreases names.len(),
{
    if names.len() > 0 {
        assert(is_dir(fs, child_path(root, names[0])));
        assert(ensure_dir(fs, child_path(root, names[0])) == fs);
        assert forall|i: int| 0 <= i < names.drop_first().len() implies is_dir(
            fs,
            #[trigger] child_path(root, names.drop_first()[i]),
        ) by {
            assert(names.drop_first()[i] == names[i + 1]);
        }
        lemma_ensure_dirs_noop(fs, root, names.drop_first());
    }
}

/// A successful initialization leaves each of the three subdirectory
/// paths standing as a directory, and touches nothing else. A run can
/// only complete when no other kind of entry blocks a subdirectory path:
/// creation over a blocking entry fails and ends the run with the tagged
/// error instead.
pub proof fn lemma_init_success_layout(fs: Map<Seq<char>, FsNode>, root: Seq<char>)
    requires
        is_dir(fs, root),
        forall|i: int| 0 <= i < subdir_names().len() ==> clear_for_dir(
            fs,
            #[trigger] child_path(root, subdir_names()[i]),
        ),
    ensures
        is_dir(init_model(fs, root), root),
        forall|i: int| 0 <= i < subdir_names().len() ==> is_dir(
            init_model(fs, root),
            #[trigger] child_path(root, subdir_names()[i]),
        ),
        forall|p: Seq<char>| !subdir_paths(root, subdir_names()).contains(p) ==> (
        #[trigger] init_model(fs, root).contains_key(p) <==> fs.contains_key(p)),
        forall|p: Seq<char>|
            fs.contains_key(p) && !subdir_paths(root, subdir_names()).contains(p)
                ==> #[trigger] init_model(fs, root)[p] == fs[p],
{
    lemma_ensure_dirs_effect(fs, root, subdir_names());
    let after = init_model(fs, root);
    assert forall|i: int| 0 <= i < subdir_names().len() implies is_dir(
        after,
        #[trigger] child_path(root, subdir_names()[i]),
    ) by {
        assert(subdir_paths(root, subdir_names()).contains(child_path(root, subdir_names()[i])));
    }
}

/// What a run that stopped after its first `took` steps leaves behind —
/// `took` is the walk's position (`InitPlan::position`) when creation
/// failed: each name already dealt with stands as a directory, what was
/// created stays (no rollback), and no path outside those names — in
/// particular none of the later names — is touched.
pub proof fn lemma_init_partial_layout(fs: Map<Seq<char>, FsNode>, root: Seq<char>, took: int)
    requires
        0 <= took <= subdir_names().len(),
    ensures
        forall|j: int| 0 <= j < took ==> is_dir(
            init_partial_model(fs, root, took),
            #[trigger] child_path(root, subdir_names()[j]),
        ),
        forall|p: Seq<char>| !subdir_paths(root, subdir_names().take(took)).contains(p) ==> (
        #[trigger] init_partial_model(fs, root, took).contains_key(p) <==> fs.contains_key(p)),
        forall|p: Seq<char>|
            fs.contains_key(p) && !subdir_paths(root, subdir_names().take(took)).contains(p)
                ==> #[trigger] init_partial_model(fs, root, took)[p] == fs[p],
{
    let taken = subdir_names().take(took);
    lemma_ensure_dirs_effect(fs, root, taken);
    assert forall|j: int| 0 <= j < took implies is_dir(
        init_partial_model(fs, root, took),
        #[trigger] child_path(root, subdir_names()[j]),
    ) by {
        assert(taken[j] == subdir_names()[j]);
        assert(subdir_paths(root, taken).contains(child_path(root, taken[j])));
    }
}

/// The three subdirectory names give three distinct paths under one
/// root: no step of a run can stand for another.
pub proof fn lemma_subdir_paths_distinct(root: Seq<char>)
    ensures
        forall|i: int, j: int|
            0 <= i < subdir_names().len() && 0 <= j < subdir_names().len() && i != j
                ==> #[trigger] child_path(root, subdir_names()[i]) != #[trigger] child_path(
                root,
                subdir_names()[j],
            ),
{
    reveal_strlit("chapters");
    reveal_strlit("characters");
    reveal_strlit("lore");
    assert(subdir_names()[0].len() == 8);
    assert(subdir_names()[1].len() == 10);
    assert(subdir_names()[2].len() == 4);
    assert forall|i: int, j: int|
        0 <= i < subdir_names().len() && 0 <= j < subdir_names().len() && i != j
        implies #[trigger] child_path(root, subdir_names()[i]) != #[trigger] child_path(
        root,
        subdir_names()[j],
    ) by {
        assert(subdir_names()[i].len() != subdir_names()[j].len());
        assert(child_path(root, subdir_names()[i]).len() != child_path(
            root,
            subdir_names()[j],
        ).len());
    }
}

/// The entry that blocked a run — whatever stands at the failing name's
/// path — is exactly what stood there before: a failed creation replaces
/// nothing.
pub proof fn lemma_blocked_entry_remains(fs: Map<Seq<char>, FsNode>, root: Seq<char>, took: int)
    requires
        0 <= took < subdir_names().len(),
        fs.contains_key(child_path(root, subdir_names()[took])),
    ensures
        init_partial_model(fs, root, took).contains_key(child_path(root, subdir_names()[took])),
        init_partial_model(fs, root, took)[child_path(root, subdir_names()[took])] == fs[
            child_path(root, subdir_names()[took])
        ],
{
    let blocked = child_path(root, subdir_names()[took]);
    let taken = subdir_names().take(took);
    lemma_subdir_paths_distinct(root);
    assert forall|j: int| 0 <= j < taken.len() implies blocked != child_path(
        root,
        #[trigger] taken[j],
    ) by {
        assert(taken[j] == subdir_names()[j]);
    }
    assert(!subdir_paths(root, taken).contains(blocked));
    lemma_init_partial_layout(fs, root, took);
}

/// Initializing a project twice is the same as initializing it once: the
/// second call succeeds and creates no new directories.
pub proof fn lemma_init_idempotent(fs: Map<Seq<char>, FsNode>, root: Seq<char>)
    requires
        is_dir(fs, root),
    ensures
        is_dir(init_model(fs, root), root),
        init_model(init_model(fs, root), root) == init_model(fs, root),
{
    let once = init_model(fs, root);
    lemma_ensure_dirs_effect(fs, root, subdir_names());
    assert(once == ensure_dirs(fs, root, subdir_names()));
    assert(once[root] == fs[root]);
    assert(is_dir(once, root));
    assert forall|i: int| 0 <= i < subdir_names().len() implies is_dir(
        once,
        #[trigger] child_path(root, subdir_names()[i]),
    ) by {
        assert(subdir_paths(root, subdir_names()).contains(child_path(root, subdir_names()[i])));
    }
    lemma_ensure_dirs_noop(once, root, subdir_names());
}

/// Initialization on a path that is not an existing directory mutates
/// nothing: the filesystem is exactly what it was.
pub proof fn lemma_init_invalid_root_no_mutation(fs: Map<Seq<char>, FsNode>, root: Seq<char>)
    requires
        !is_dir(fs, root),
    ensures
        init_model(fs, root) == fs,
{
}

/// A write followed by a read of the same path returns exactly the
/// content written.
pub proof fn lemma_write_read_round_trip(
    fs: Map<Seq<char>, FsNode>,
    p: Seq<char>,
    content: Seq<char>,
)
    requires
        !is_dir(fs, p),
    ensures
        read_model(write_model(fs, p, content), p) == Some(content),
{
}

/// Concatenation leaves both parts recoverable: the head is the prefix,
/// the tail is what follows it.
proof fn lemma_concat_parts(x: Seq<char>, y: Seq<char>)
    ensures
        (x + y).len() == x.len() + y.len(),
        (x + y).subrange(0, x.len() as int) == x,
        (x + y).skip(x.len() as int) == y,
{
    assert((x + y).subrange(0, x.len() as int) =~= x);
    assert((x + y).skip(x.len() as int) =~= y);
}

/// Rebasing a path under `a` onto `b` lands in `b`'s subtree, and
/// rebasing back recovers the path.
proof fn lemma_rebased_round_trip(p: Seq<char>, a: Seq<char>, b: Seq<char>)
    requires
        in_subtree(p, a),
    ensures
        in_subtree(rebased(p, a, b), b),
        rebased(rebased(p, a, b), b, a) == p,
{
    let tail = p.skip(a.len() as int);
    lemma_concat_parts(b, tail);
    assert(rebased(rebased(p, a, b), b, a) == a + tail);
    assert(a + tail =~= p);
    if p == a {
        assert(tail =~= Seq::empty());
        assert(rebased(p, a, b) =~= b);
    } else {
        assert(tail[0] == p[a.len() as int]);
        assert(rebased(p, a, b)[b.len() as int] == '/');
    }
}

/// Two subtrees can only share a path by being nested in one another.
proof fn lemma_overlapping_subtrees_nest(p: Seq<char>, a: Seq<char>, b: Seq<char>)
    requires
        in_subtree(p, a),
        in_subtree(p, b),
    ensures
        in_subtree(a, b) || in_subtree(b, a),
{
    if a != b && p != a && p != b {
        if a.len() == b.len() {
            assert(a =~= b);
        } else if a.len() < b.len() {
            assert(b.subrange(0, a.len() as int) =~= p.subrange(0, a.len() as int));
            assert(b[a.len() as int] == p[a.len() as int]);
        } else {
            assert(a.subrange(0, b.len() as int) =~= p.subrange(0, b.len() as int));
            assert(a[b.len() as int] == p[b.len() as int]);
        }
    }
}

/// Renaming an existing file to a free path moves the content: reading
/// the old path finds nothing, reading the new one finds the original
/// content. (A destination inside the source's own subtree is an
/// unsupported move and is left out.)
pub proof fn lemma_rename_moves_content(fs: Map<Seq<char>, FsNode>, a: Seq<char>, b: Seq<char>)
    requires
        is_file(fs, a),
        !fs.contains_key(b),
        !in_subtree(a, b),
    ensures
        read_model(rename_model(fs, a, b), a) is None,
        read_model(rename_model(fs, a, b), b) == read_model(fs, a),
{
    lemma_rebased_round_trip(b, b, a);
    assert(rebased(b, b, a) == a);
    assert(rename_model(fs, a, b).contains_key(b));
    assert(rename_model(fs, a, b)[b] == fs[a]);
}

/// Renaming moves the whole subtree: every entry at or below the old
/// path leaves it and reappears, with its value, at the rebased path
/// below the new one. Moves that nest the two paths in one another are
/// unsupported and left out.
pub proof fn lemma_rename_moves_subtree(
    fs: Map<Seq<char>, FsNode>,
    a: Seq<char>,
    b: Seq<char>,
    p: Seq<char>,
)
    requires
        !fs.contains_key(b),
        !in_subtree(a, b),
        !in_subtree(b, a),
        in_subtree(p, a),
        fs.contains_key(p),
    ensures
        !rename_model(fs, a, b).contains_key(p),
        rename_model(fs, a, b).contains_key(rebased(p, a, b)),
        rename_model(fs, a, b)[rebased(p, a, b)] == fs[p],
{
    if in_subtree(p, b) {
        lemma_overlapping_subtrees_nest(p, a, b);
        assert(false);
    }
    lemma_rebased_round_trip(p, a, b);
}

/// A rename reads and changes nothing outside the two subtrees: every
/// other path keeps exactly the entry it had.
pub proof fn lemma_rename_preserves_outside(
    fs: Map<Seq<char>, FsNode>,
    a: Seq<char>,
    b: Seq<char>,
)
    ensures
        forall|q: Seq<char>| !in_subtree(q, a) && !in_subtree(q, b) ==> (#[trigger] rename_model(
            fs,
            a,
            b,
        ).contains_key(q) <==> fs.contains_key(q)),
        forall|q: Seq<char>|
            !in_subtree(q, a) && !in_subtree(q, b) && fs.contains_key(q) ==> #[trigger] rename_model(
                fs,
                a,
                b,
            )[q] == fs[q],
{
}

/// A child path is longer than the directory's own path, so it is never
/// the directory itself.
pub proof fn lemma_child_path_is_deeper(dir: Seq<char>, name: Seq<char>)
    ensures
        child_path(dir, name).len() > dir.len(),
        child_path(dir, name) != dir,
{
}

/// The scenario of an empty project root: initializing a filesystem that
/// holds only the root directory yields the three subdirectories, no
/// file anywhere — every listing, of the root as of a fresh
/// subdirectory, is empty.
pub proof fn lemma_init_empty_root_scenario(fs: Map<Seq<char>, FsNode>, root: Seq<char>)
    requires
        fs.dom() == set![root],
        fs[root] is Directory,
    ensures
        is_dir(init_model(fs, root), root),
        forall|i: int| 0 <= i < subdir_names().len() ==> is_dir(
            init_model(fs, root),
            #[trigger] child_path(root, subdir_names()[i]),
        ),
        forall|dir: Seq<char>| #[trigger] file_children(init_model(fs, root), dir)
            == Set::<Seq<char>>::empty(),
{
    assert(fs.dom().contains(root));
    assert(is_dir(fs, root));
    let after = init_model(fs, root);
    lemma_ensure_dirs_effect(fs, root, subdir_names());
    assert(after[root] == fs[root]);
    assert forall|i: int| 0 <= i < subdir_names().len() implies is_dir(
        after,
        #[trigger] child_path(root, subdir_names()[i]),
    ) by {
        assert(subdir_paths(root, subdir_names()).contains(child_path(root, subdir_names()[i])));
    }
    assert forall|p: Seq<char>| #[trigger] after.contains_key(p) implies after[p] is Directory by {
        if !subdir_paths(root, subdir_names()).contains(p) {
            assert(p == root);
        }
    }
    assert forall|dir: Seq<char>| #[trigger] file_children(after, dir)
        =~= Set::<Seq<char>>::empty() by {
        assert forall|name: Seq<char>| !#[trigger] is_file(after, child_path(dir, name)) by {
            if after.contains_key(child_path(dir, name)) {
                assert(after[child_path(dir, name)] is Directory);
            }
        }
    }
}

} // verus!
