//! The executable resolver.
//!
//! Given the tree of files under an installed game's directory, the resolver
//! finds the launch target: a breadth-first search locates the shallowest
//! directory that directly holds an executable file (skipping every entry
//! whose name ends in a blacklisted suffix), and within that directory the
//! candidates are ranked — a name containing "64" above all others, a name
//! containing "32" below all others, larger files above smaller ones, and
//! directory order breaking exact ties.
//!
//! The caller snapshots the real directory tree into [`FsTree`] values; the
//! search itself never touches the filesystem.

use vstd::prelude::*;

use crate::text::{spec_contains, spec_ends_with, str_contains, str_ends_with};

verus! {

/// One filesystem entry: a file with its size, or a directory with its
/// entries in directory order.
pub enum FsTree {
    File { name: String, size: u64 },
    Dir { name: String, children: Vec<FsTree> },
}

/// The name of an entry.
pub open spec fn name_of(t: FsTree) -> Seq<char> {
    match t {
        FsTree::File { name, .. } => name@,
        FsTree::Dir { name, .. } => name@,
    }
}

/// True when `name` ends in one of the blacklisted suffixes.
pub open spec fn spec_blacklisted(name: Seq<char>, blacklist: Seq<String>) -> bool {
    exists|i: int| 0 <= i < blacklist.len() && spec_ends_with(name, blacklist[i]@)
}

/// True when `name` carries the executable extension: it ends in ".exe" and
/// the dot is not its first character.
pub open spec fn spec_is_exe_name(name: Seq<char>) -> bool {
    name.len() > 4 && spec_ends_with(name, ".exe"@)
}

/// True when `t` is an executable file the search may choose: an
/// executable-named file that is not blacklisted.
pub open spec fn spec_is_match_file(t: FsTree, blacklist: Seq<String>) -> bool {
    &&& t is File
    &&& spec_is_exe_name(name_of(t))
    &&& !spec_blacklisted(name_of(t), blacklist)
}

/// True when a directory with entries `children` directly holds a chooseable
/// executable.
pub open spec fn spec_dir_has_match(children: Seq<FsTree>, blacklist: Seq<String>) -> bool {
    exists|i: int| 0 <= i < children.len() && spec_is_match_file(children[i], blacklist)
}

/// The number of entries in a tree, the entry itself included.
pub open spec fn tree_size(t: FsTree) -> nat
    decreases t,
{
    match t {
        FsTree::File { .. } => 1,
        FsTree::Dir { children, .. } => 1 + forest_size(children@),
    }
}

/// The number of entries in a forest.
pub open spec fn forest_size(ts: Seq<FsTree>) -> nat
    decreases ts,
{
    if ts.len() == 0 {
        0
    } else {
        tree_size(ts[0]) + forest_size(ts.drop_first())
    }
}

/// The queue entries the children of a directory contribute: one entry per
/// non-blacklisted subdirectory, in directory order, each with its path.
pub open spec fn child_entries(
    path: Seq<Seq<char>>,
    children: Seq<FsTree>,
    blacklist: Seq<String>,
) -> Seq<(Seq<Seq<char>>, Seq<FsTree>)>
    decreases children,
{
    if children.len() == 0 {
        Seq::empty()
    } else {
        let rest = child_entries(path, children.drop_first(), blacklist);
        match children[0] {
            FsTree::Dir { name, children: sub } => {
                if !spec_blacklisted(name@, blacklist) {
                    seq![(path.push(name@), sub@)] + rest
                } else {
                    rest
                }
            },
            FsTree::File { .. } => rest,
        }
    }
}

/// The termination measure of the search: every queued directory counts one
/// plus the entries below it.
pub open spec fn queue_weight(q: Seq<(Seq<Seq<char>>, Seq<FsTree>)>) -> nat
    decreases q.len(),
{
    if q.len() == 0 {
        0
    } else {
        1 + forest_size(q[0].1) + queue_weight(q.drop_first())
    }
}

/// The breadth-first search: directories leave the front of the queue; the
/// first one that directly holds a chooseable executable is the result, and
/// the non-blacklisted subdirectories of a directory without one join the
/// back of the queue.
pub open spec fn spec_bfs(
    q: Seq<(Seq<Seq<char>>, Seq<FsTree>)>,
    blacklist: Seq<String>,
) -> Option<(Seq<Seq<char>>, Seq<FsTree>)>
    decreases queue_weight(q),
    via spec_bfs_decreases
{
    if q.len() == 0 {
        None
    } else if spec_dir_has_match(q[0].1, blacklist) {
        Some(q[0])
    } else {
        spec_bfs(q.drop_first() + child_entries(q[0].0, q[0].1, blacklist), blacklist)
    }
}

#[via_fn]
proof fn spec_bfs_decreases(q: Seq<(Seq<Seq<char>>, Seq<FsTree>)>, blacklist: Seq<String>) {
    if q.len() > 0 && !spec_dir_has_match(q[0].1, blacklist) {
        lemma_bfs_step_weight(q, blacklist);
    }
}

/// One expansion step strictly shrinks the termination measure.
proof fn lemma_bfs_step_weight(
    q: Seq<(Seq<Seq<char>>, Seq<FsTree>)>,
    blacklist: Seq<String>,
)
    requires
        q.len() > 0,
    ensures
        queue_weight(q.drop_first() + child_entries(q[0].0, q[0].1, blacklist)) < queue_weight(
            q,
        ),
{
    lemma_queue_weight_concat(q.drop_first(), child_entries(q[0].0, q[0].1, blacklist));
    lemma_child_entries_weight(q[0].0, q[0].1, blacklist);
}

/// The measure adds over concatenation.
proof fn lemma_queue_weight_concat(
    a: Seq<(Seq<Seq<char>>, Seq<FsTree>)>,
    b: Seq<(Seq<Seq<char>>, Seq<FsTree>)>,
)
    ensures
        queue_weight(a + b) == queue_weight(a) + queue_weight(b),
    decreases a.len(),
{
    if a.len() == 0 {
        assert(a + b =~= b);
    } else {
        lemma_queue_weight_concat(a.drop_first(), b);
        assert((a + b).drop_first() =~= a.drop_first() + b);
    }
}

/// What a directory's children contribute weighs no more than the entries
/// below the directory.
proof fn lemma_child_entries_weight(
    path: Seq<Seq<char>>,
    children: Seq<FsTree>,
    blacklist: Seq<String>,
)
    ensures
        queue_weight(child_entries(path, children, blacklist)) <= forest_size(children),
    decreases children,
{
    if children.len() > 0 {
        lemma_child_entries_weight(path, children.drop_first(), blacklist);
        let rest = child_entries(path, children.drop_first(), blacklist);
        assert(forest_size(children) == tree_size(children[0]) + forest_size(
            children.drop_first(),
        ));
        match children[0] {
            FsTree::Dir { name, children: sub } => {
                assert(tree_size(children[0]) == 1 + forest_size(sub@));
                if !spec_blacklisted(name@, blacklist) {
                    let whole = seq![(path.push(name@), sub@)] + rest;
                    assert(whole.drop_first() =~~= rest);
                    assert(whole[0].1 == sub@);
                    assert(queue_weight(whole) == 1 + forest_size(sub@) + queue_weight(rest));
                }
            },
            FsTree::File { .. } => {
                assert(tree_size(children[0]) == 1);
            },
        }
    }
}

/// What a single tree contributes to the queue: one entry when it is a
/// non-blacklisted directory, nothing otherwise.
proof fn lemma_child_entries_single(path: Seq<Seq<char>>, t: FsTree, blacklist: Seq<String>)
    ensures
        child_entries(path, seq![t], blacklist) == match t {
            FsTree::Dir { name, children: sub } => {
                if !spec_blacklisted(name@, blacklist) {
                    seq![(path.push(name@), sub@)]
                } else {
                    Seq::<(Seq<Seq<char>>, Seq<FsTree>)>::empty()
                }
            },
            FsTree::File { .. } => Seq::<(Seq<Seq<char>>, Seq<FsTree>)>::empty(),
        },
{
    let single = seq![t];
    assert(single.drop_first() =~~= Seq::<FsTree>::empty());
    assert(child_entries(path, Seq::<FsTree>::empty(), blacklist) == Seq::<
        (Seq<Seq<char>>, Seq<FsTree>),
    >::empty());
    match t {
        FsTree::Dir { name, children: sub } => {
            if !spec_blacklisted(name@, blacklist) {
                assert(seq![(path.push(name@), sub@)] + Seq::<
                    (Seq<Seq<char>>, Seq<FsTree>),
                >::empty() =~~= seq![(path.push(name@), sub@)]);
            }
        },
        FsTree::File { .. } => {},
    }
}

/// Appending one tree to a forest appends what it contributes to the queue.
proof fn lemma_child_entries_push(
    path: Seq<Seq<char>>,
    children: Seq<FsTree>,
    t: FsTree,
    blacklist: Seq<String>,
)
    ensures
        child_entries(path, children.push(t), blacklist) == child_entries(
            path,
            children,
            blacklist,
        ) + child_entries(path, seq![t], blacklist),
    decreases children,
{
    if children.len() == 0 {
        assert(children.push(t) =~= seq![t]);
        assert(child_entries(path, children, blacklist) =~= Seq::empty());
        assert(child_entries(path, children.push(t), blacklist) =~= Seq::empty() + child_entries(
            path,
            seq![t],
            blacklist,
        ));
    } else {
        lemma_child_entries_push(path, children.drop_first(), t, blacklist);
        assert(children.push(t).drop_first() =~= children.drop_first().push(t));
        assert(children.push(t)[0] == children[0]);
        let rest_all = child_entries(path, children.drop_first(), blacklist) + child_entries(
            path,
            seq![t],
            blacklist,
        );
        match children[0] {
            FsTree::Dir { name, children: sub } => {
                if !spec_blacklisted(name@, blacklist) {
                    assert(seq![(path.push(name@), sub@)] + rest_all =~= (seq![
                        (path.push(name@), sub@),
                    ] + child_entries(path, children.drop_first(), blacklist)) + child_entries(
                        path,
                        seq![t],
                        blacklist,
                    ));
                }
            },
            FsTree::File { .. } => {},
        }
    }
}

/// A forest outweighs the entries below any of its members.
proof fn lemma_forest_size_member(ts: Seq<FsTree>, i: int)
    requires
        0 <= i < ts.len(),
    ensures
        ts[i] matches FsTree::Dir { children, .. } ==> forest_size(children@) < forest_size(
            ts,
        ),
    decreases ts,
{
    assert(forest_size(ts) == tree_size(ts[0]) + forest_size(ts.drop_first()));
    if i > 0 {
        lemma_forest_size_member(ts.drop_first(), i - 1);
        assert(ts.drop_first()[i - 1] == ts[i]);
    } else {
        match ts[0] {
            FsTree::Dir { children, .. } => {
                assert(tree_size(ts[0]) == 1 + forest_size(children@));
            },
            FsTree::File { .. } => {},
        }
    }
}

/// True when a chooseable executable is reachable from a directory with
/// entries `children`: one of the entries is itself chooseable, or one is a
/// non-blacklisted subdirectory from which one is reachable.
pub open spec fn spec_reachable_match(children: Seq<FsTree>, blacklist: Seq<String>) -> bool
    decreases forest_size(children),
    via spec_reachable_match_decreases
{
    ||| spec_dir_has_match(children, blacklist)
    ||| exists|i: int|
        0 <= i < children.len() && ((#[trigger] children[i]) matches FsTree::Dir {
            name,
            children: sub,
        } && !spec_blacklisted(name@, blacklist) && spec_reachable_match(sub@, blacklist))
}

#[via_fn]
proof fn spec_reachable_match_decreases(children: Seq<FsTree>, blacklist: Seq<String>) {
    assert forall|i: int| 0 <= i < children.len() implies ((#[trigger] children[i]) matches
        FsTree::Dir { children: sub, .. } ==> forest_size(sub@) < forest_size(children)) by {
        lemma_forest_size_member(children, i);
    }
}

/// Every non-blacklisted subdirectory contributes its entries to the queue.
proof fn lemma_child_entries_member(
    path: Seq<Seq<char>>,
    children: Seq<FsTree>,
    blacklist: Seq<String>,
    i: int,
)
    requires
        0 <= i < children.len(),
        children[i] is Dir,
        !spec_blacklisted(name_of(children[i]), blacklist),
    ensures
        exists|j: int|
            0 <= j < child_entries(path, children, blacklist).len() && (#[trigger] child_entries(
                path,
                children,
                blacklist,
            )[j]).1 == children[i]->Dir_children@,
    decreases children,
{
    let es = child_entries(path, children, blacklist);
    if i == 0 {
        match children[0] {
            FsTree::Dir { name, children: sub } => {
                assert(es[0].1 == sub@);
            },
            FsTree::File { .. } => {},
        }
    } else {
        assert(children.drop_first()[i - 1] == children[i]);
        lemma_child_entries_member(path, children.drop_first(), blacklist, i - 1);
        let rest = child_entries(path, children.drop_first(), blacklist);
        let j = choose|j: int| 0 <= j < rest.len() && (#[trigger] rest[j]).1 == children[i]->Dir_children@;
        match children[0] {
            FsTree::Dir { name, children: sub } => {
                if !spec_blacklisted(name@, blacklist) {
                    assert(es[j + 1] == rest[j]);
                } else {
                    assert(es[j] == rest[j]);
                }
            },
            FsTree::File { .. } => {
                assert(es[j] == rest[j]);
            },
        }
    }
}

/// Every queue entry a directory contributes comes from one of its
/// non-blacklisted subdirectories.
proof fn lemma_child_entries_source(
    path: Seq<Seq<char>>,
    children: Seq<FsTree>,
    blacklist: Seq<String>,
    j: int,
)
    requires
        0 <= j < child_entries(path, children, blacklist).len(),
    ensures
        exists|i: int|
            0 <= i < children.len() && ((#[trigger] children[i]) matches FsTree::Dir {
                name,
                children: sub,
            } && !spec_blacklisted(name@, blacklist) && child_entries(path, children, blacklist)[j].1
                == sub@),
    decreases children,
{
    let es = child_entries(path, children, blacklist);
    let rest = child_entries(path, children.drop_first(), blacklist);
    match children[0] {
        FsTree::Dir { name, children: sub } => {
            if !spec_blacklisted(name@, blacklist) {
                if j == 0 {
                    assert(es[0].1 == sub@);
                    assert(0 <= 0 < children.len() && (children[0] matches FsTree::Dir {
                        name,
                        children: sub,
                    } && !spec_blacklisted(name@, blacklist) && es[j].1 == sub@));
                } else {
                    lemma_child_entries_source(path, children.drop_first(), blacklist, j - 1);
                    let i = choose|i: int|
                        0 <= i < children.drop_first().len() && ((#[trigger] children.drop_first()[i]) matches FsTree::Dir {
                            name,
                            children: sub,
                        } && !spec_blacklisted(name@, blacklist) && rest[j - 1].1 == sub@);
                    assert(children[i + 1] == children.drop_first()[i]);
                    assert(es[j] == rest[j - 1]);
                }
            } else {
                lemma_child_entries_source(path, children.drop_first(), blacklist, j);
                let i = choose|i: int|
                    0 <= i < children.drop_first().len() && ((#[trigger] children.drop_first()[i]) matches FsTree::Dir {
                        name,
                        children: sub,
                    } && !spec_blacklisted(name@, blacklist) && rest[j].1 == sub@);
                assert(children[i + 1] == children.drop_first()[i]);
                assert(es[j] == rest[j]);
            }
        },
        FsTree::File { .. } => {
            lemma_child_entries_source(path, children.drop_first(), blacklist, j);
            let i = choose|i: int|
                0 <= i < children.drop_first().len() && ((#[trigger] children.drop_first()[i]) matches FsTree::Dir {
                    name,
                    children: sub,
                } && !spec_blacklisted(name@, blacklist) && rest[j].1 == sub@);
            assert(children[i + 1] == children.drop_first()[i]);
            assert(es[j] == rest[j]);
        },
    }
}

/// The search succeeds exactly when some queued directory reaches a
/// chooseable executable.
pub proof fn lemma_bfs_complete(q: Seq<(Seq<Seq<char>>, Seq<FsTree>)>, blacklist: Seq<String>)
    ensures
        spec_bfs(q, blacklist) is Some <==> exists|k: int|
            0 <= k < q.len() && spec_reachable_match((#[trigger] q[k]).1, blacklist),
    decreases queue_weight(q),
{
    if q.len() == 0 {
    } else if spec_dir_has_match(q[0].1, blacklist) {
        assert(spec_reachable_match(q[0].1, blacklist));
    } else {
        lemma_bfs_step_weight(q, blacklist);
        let expansion = child_entries(q[0].0, q[0].1, blacklist);
        let q2 = q.drop_first() + expansion;
        lemma_bfs_complete(q2, blacklist);
        if exists|k: int| 0 <= k < q.len() && spec_reachable_match((#[trigger] q[k]).1, blacklist) {
            let k = choose|k: int|
                0 <= k < q.len() && spec_reachable_match((#[trigger] q[k]).1, blacklist);
            if k == 0 {
                let i = choose|i: int|
                    0 <= i < q[0].1.len() && ((#[trigger] q[0].1[i]) matches FsTree::Dir {
                        name,
                        children: sub,
                    } && !spec_blacklisted(name@, blacklist) && spec_reachable_match(
                        sub@,
                        blacklist,
                    ));
                lemma_child_entries_member(q[0].0, q[0].1, blacklist, i);
                let j = choose|j: int|
                    0 <= j < expansion.len() && (#[trigger] expansion[j]).1 == q[0].1[i]->Dir_children@;
                assert(q2[q.len() - 1 + j] == expansion[j]);
                assert(spec_reachable_match(q2[q.len() - 1 + j].1, blacklist));
            } else {
                assert(q2[k - 1] == q[k]);
                assert(spec_reachable_match(q2[k - 1].1, blacklist));
            }
            assert(spec_bfs(q2, blacklist) is Some);
        }
        if spec_bfs(q, blacklist) is Some {
            let j = choose|j: int|
                0 <= j < q2.len() && spec_reachable_match((#[trigger] q2[j]).1, blacklist);
            if j < q.len() - 1 {
                assert(q2[j] == q[j + 1]);
                assert(spec_reachable_match(q[j + 1].1, blacklist));
            } else {
                let jj = j - (q.len() - 1);
                assert(q2[j] == expansion[jj]);
                lemma_child_entries_source(q[0].0, q[0].1, blacklist, jj);
                assert(spec_reachable_match(q[0].1, blacklist));
            }
        }
    }
}

/// True when a chooseable executable stands exactly `depth` directory levels
/// below a directory with entries `children`, through non-blacklisted
/// directories.
pub open spec fn spec_match_at_depth(
    children: Seq<FsTree>,
    blacklist: Seq<String>,
    depth: nat,
) -> bool
    decreases forest_size(children),
    via spec_match_at_depth_decreases
{
    if depth == 0 {
        spec_dir_has_match(children, blacklist)
    } else {
        exists|i: int|
            0 <= i < children.len() && ((#[trigger] children[i]) matches FsTree::Dir {
                name,
                children: sub,
            } && !spec_blacklisted(name@, blacklist) && spec_match_at_depth(
                sub@,
                blacklist,
                (depth - 1) as nat,
            ))
    }
}

#[via_fn]
proof fn spec_match_at_depth_decreases(
    children: Seq<FsTree>,
    blacklist: Seq<String>,
    depth: nat,
) {
    assert forall|i: int| 0 <= i < children.len() implies ((#[trigger] children[i]) matches
        FsTree::Dir { children: sub, .. } ==> forest_size(sub@) < forest_size(children)) by {
        lemma_forest_size_member(children, i);
    }
}

/// Reachability and depth agree: a chooseable executable is reachable
/// exactly when it stands at some depth.
pub proof fn lemma_reachable_iff_some_depth(children: Seq<FsTree>, blacklist: Seq<String>)
    ensures
        spec_reachable_match(children, blacklist) <==> exists|d: nat|
            spec_match_at_depth(children, blacklist, d),
    decreases forest_size(children),
{
    assert forall|i: int| 0 <= i < children.len() implies ((#[trigger] children[i]) matches
        FsTree::Dir { children: sub, .. } ==> forest_size(sub@) < forest_size(children)) by {
        lemma_forest_size_member(children, i);
    }
    if spec_reachable_match(children, blacklist) {
        if spec_dir_has_match(children, blacklist) {
            assert(spec_match_at_depth(children, blacklist, 0));
        } else {
            let i = choose|i: int|
                0 <= i < children.len() && ((#[trigger] children[i]) matches FsTree::Dir {
                    name,
                    children: sub,
                } && !spec_blacklisted(name@, blacklist) && spec_reachable_match(sub@, blacklist));
            match children[i] {
                FsTree::Dir { name, children: sub } => {
                    lemma_reachable_iff_some_depth(sub@, blacklist);
                    let d = choose|d: nat| spec_match_at_depth(sub@, blacklist, d);
                    assert(spec_match_at_depth(children, blacklist, d + 1));
                },
                FsTree::File { .. } => {},
            }
        }
    }
    if exists|d: nat| spec_match_at_depth(children, blacklist, d) {
        let d = choose|d: nat| spec_match_at_depth(children, blacklist, d);
        if d == 0 {
        } else {
            let i = choose|i: int|
                0 <= i < children.len() && ((#[trigger] children[i]) matches FsTree::Dir {
                    name,
                    children: sub,
                } && !spec_blacklisted(name@, blacklist) && spec_match_at_depth(
                    sub@,
                    blacklist,
                    (d - 1) as nat,
                ));
            match children[i] {
                FsTree::Dir { name, children: sub } => {
                    lemma_reachable_iff_some_depth(sub@, blacklist);
                    assert(spec_reachable_match(sub@, blacklist));
                },
                FsTree::File { .. } => {},
            }
        }
    }
}

/// Paths never get shorter along the queue.
spec fn paths_sorted(q: Seq<(Seq<Seq<char>>, Seq<FsTree>)>) -> bool {
    forall|i: int, j: int|
        0 <= i <= j < q.len() ==> (#[trigger] q[i]).0.len() <= (#[trigger] q[j]).0.len()
}

/// The queue spans at most two adjacent depths: a breadth-first frontier.
spec fn paths_two_level(q: Seq<(Seq<Seq<char>>, Seq<FsTree>)>) -> bool {
    forall|i: int, j: int|
        0 <= i < q.len() && 0 <= j < q.len() ==> (#[trigger] q[j]).0.len()
            <= (#[trigger] q[i]).0.len() + 1
}

/// Every entry a directory contributes carries a path one longer than the
/// directory's own.
proof fn lemma_child_entries_path_len(
    path: Seq<Seq<char>>,
    children: Seq<FsTree>,
    blacklist: Seq<String>,
)
    ensures
        forall|j: int|
            0 <= j < child_entries(path, children, blacklist).len() ==> (#[trigger] child_entries(
                path,
                children,
                blacklist,
            )[j]).0.len() == path.len() + 1,
    decreases children,
{
    if children.len() > 0 {
        lemma_child_entries_path_len(path, children.drop_first(), blacklist);
        let rest = child_entries(path, children.drop_first(), blacklist);
        let es = child_entries(path, children, blacklist);
        assert forall|j: int| 0 <= j < es.len() implies (#[trigger] es[j]).0.len() == path.len()
            + 1 by {
            match children[0] {
                FsTree::Dir { name, children: sub } => {
                    if !spec_blacklisted(name@, blacklist) {
                        if j > 0 {
                            assert(es[j] == rest[j - 1]);
                        }
                    } else {
                        assert(es[j] == rest[j]);
                    }
                },
                FsTree::File { .. } => {
                    assert(es[j] == rest[j]);
                },
            }
        }
    }
}

/// Shallowest match wins, over any breadth-first frontier: when some queued
/// directory reaches a chooseable executable `d` levels down, the search
/// succeeds, and the directory it returns lies no deeper than that.
proof fn lemma_bfs_shallowest(
    q: Seq<(Seq<Seq<char>>, Seq<FsTree>)>,
    blacklist: Seq<String>,
    k: int,
    d: nat,
)
    requires
        paths_sorted(q),
        paths_two_level(q),
        0 <= k < q.len(),
        spec_match_at_depth(q[k].1, blacklist, d),
    ensures
        spec_bfs(q, blacklist) matches Some(e) && e.0.len() <= q[k].0.len() + d,
    decreases queue_weight(q),
{
    if spec_dir_has_match(q[0].1, blacklist) {
        assert(q[0].0.len() <= q[k].0.len());
    } else {
        lemma_bfs_step_weight(q, blacklist);
        let expansion = child_entries(q[0].0, q[0].1, blacklist);
        let q2 = q.drop_first() + expansion;
        lemma_child_entries_path_len(q[0].0, q[0].1, blacklist);
        assert forall|i: int, j: int| 0 <= i <= j < q2.len() implies (#[trigger] q2[i]).0.len()
            <= (#[trigger] q2[j]).0.len() by {
            if i < q.len() - 1 {
                assert(q2[i] == q[i + 1]);
            } else {
                assert(q2[i] == expansion[i - (q.len() - 1)]);
            }
            if j < q.len() - 1 {
                assert(q2[j] == q[j + 1]);
            } else {
                assert(q2[j] == expansion[j - (q.len() - 1)]);
            }
        }
        assert forall|i: int, j: int|
            0 <= i < q2.len() && 0 <= j < q2.len() implies (#[trigger] q2[j]).0.len()
            <= (#[trigger] q2[i]).0.len() + 1 by {
            if i < q.len() - 1 {
                assert(q2[i] == q[i + 1]);
            } else {
                assert(q2[i] == expansion[i - (q.len() - 1)]);
            }
            if j < q.len() - 1 {
                assert(q2[j] == q[j + 1]);
            } else {
                assert(q2[j] == expansion[j - (q.len() - 1)]);
            }
        }
        if k == 0 {
            assert(d > 0);
            let i = choose|i: int|
                0 <= i < q[0].1.len() && ((#[trigger] q[0].1[i]) matches FsTree::Dir {
                    name,
                    children: sub,
                } && !spec_blacklisted(name@, blacklist) && spec_match_at_depth(
                    sub@,
                    blacklist,
                    (d - 1) as nat,
                ));
            lemma_child_entries_member(q[0].0, q[0].1, blacklist, i);
            let j = choose|j: int|
                0 <= j < expansion.len() && (#[trigger] expansion[j]).1 == q[0].1[i]->Dir_children@;
            let k2 = q.len() - 1 + j;
            assert(q2[k2] == expansion[j]);
            assert(q2[k2].0.len() == q[0].0.len() + 1);
            lemma_bfs_shallowest(q2, blacklist, k2, (d - 1) as nat);
        } else {
            assert(q2[k - 1] == q[k]);
            lemma_bfs_shallowest(q2, blacklist, k - 1, d);
        }
    }
}

/// Shallowest match wins: whenever a chooseable executable stands `d`
/// directory levels below the root, the search succeeds and the directory
/// it returns lies no more than `d` levels down.
pub proof fn lemma_find_target_shallowest(root: Seq<FsTree>, blacklist: Seq<String>, d: nat)
    requires
        spec_match_at_depth(root, blacklist, d),
    ensures
        spec_bfs(seq![(Seq::<Seq<char>>::empty(), root)], blacklist) matches Some(e)
            && e.0.len() <= d,
{
    let q = seq![(Seq::<Seq<char>>::empty(), root)];
    assert(q[0].1 == root);
    assert(q[0].0.len() == 0);
    lemma_bfs_shallowest(q, blacklist, 0, d);
}

/// The search from a root forest finds a launch target exactly when a
/// chooseable executable is reachable from the root through non-blacklisted
/// directories.  In particular, a tree whose executables are all
/// blacklisted yields nothing.
pub proof fn lemma_find_target_iff_reachable(root: Seq<FsTree>, blacklist: Seq<String>)
    ensures
        spec_bfs(seq![(Seq::<Seq<char>>::empty(), root)], blacklist) is Some
            <==> spec_reachable_match(root, blacklist),
{
    let q = seq![(Seq::<Seq<char>>::empty(), root)];
    lemma_bfs_complete(q, blacklist);
    assert(q[0].1 == root);
}

/// The ranking class of a candidate name: names containing "64" above the
/// rest, names containing "32" below the rest.
pub open spec fn spec_rank_class(name: Seq<char>) -> int {
    if spec_contains(name, "64"@) {
        2
    } else if spec_contains(name, "32"@) {
        0
    } else {
        1
    }
}

/// True when candidate `a` ranks strictly above candidate `b`: a higher
/// class, or the same class and a larger file.
pub open spec fn spec_better(a: FsTree, b: FsTree) -> bool {
    ||| spec_rank_class(name_of(a)) > spec_rank_class(name_of(b))
    ||| (spec_rank_class(name_of(a)) == spec_rank_class(name_of(b)) && a->File_size
        > b->File_size)
}

/// True when `i` indexes the chosen candidate among `children`: a chooseable
/// executable, no candidate ranks strictly above it, and it ranks strictly
/// above every earlier candidate.  At most one index satisfies this.
pub open spec fn is_best_index(children: Seq<FsTree>, blacklist: Seq<String>, i: int) -> bool {
    &&& 0 <= i < children.len()
    &&& spec_is_match_file(children[i], blacklist)
    &&& forall|j: int|
        0 <= j < children.len() && spec_is_match_file(children[j], blacklist) ==> !spec_better(
            children[j],
            children[i],
        )
    &&& forall|j: int|
        0 <= j < i && spec_is_match_file(children[j], blacklist) ==> spec_better(
            children[i],
            children[j],
        )
}

/// The suffix blacklist the manager uses: crash-handler stubs bundled by a
/// common engine, which are never the game itself.
pub fn default_blacklist() -> (r: Vec<String>)
    ensures
        r@.len() == 2,
        r@[0]@ == "UnityCrashHandler64.exe"@,
        r@[1]@ == "UnityCrashHandler32.exe"@,
{
    let mut r: Vec<String> = Vec::new();
    r.push(String::from_str("UnityCrashHandler64.exe"));
    r.push(String::from_str("UnityCrashHandler32.exe"));
    r
}

/// True when `name` ends in one of the blacklisted suffixes.
pub fn is_executable_blacklisted(name: &str, blacklist: &Vec<String>) -> (r: bool)
    ensures
        r == spec_blacklisted(name@, blacklist@),
{
    let mut i: usize = 0;
    while i < blacklist.len()
        invariant
            i <= blacklist.len(),
            forall|j: int| 0 <= j < i ==> !spec_ends_with(name@, blacklist@[j]@),
        decreases blacklist.len() - i,
    {
        if str_ends_with(name, blacklist[i].as_str()) {
            return true;
        }
        i = i + 1;
    }
    false
}

/// True when `name` carries the executable extension.
pub fn has_exe_extension(name: &str) -> (r: bool)
    ensures
        r == spec_is_exe_name(name@),
{
    name.unicode_len() > 4 && str_ends_with(name, ".exe")
}

/// True when `t` is an executable file the search may choose.
fn is_match_file(t: &FsTree, blacklist: &Vec<String>) -> (r: bool)
    ensures
        r == spec_is_match_file(*t, blacklist@),
{
    match t {
        FsTree::File { name, .. } => {
            has_exe_extension(name.as_str()) && !is_executable_blacklisted(
                name.as_str(),
                blacklist,
            )
        },
        FsTree::Dir { .. } => false,
    }
}

/// The current queue as the specification sees it.
spec fn queue_view<'a>(paths: Seq<Vec<String>>, forests: Seq<&'a Vec<FsTree>>) -> Seq<
    (Seq<Seq<char>>, Seq<FsTree>),
>
    recommends
        paths.len() == forests.len(),
{
    Seq::new(paths.len(), |i: int| (paths[i].deep_view(), forests[i]@))
}

/// The breadth-first search over a snapshot: the path (from the search root,
/// which is not itself named) and the entries of the first directory in
/// breadth-first order that directly holds a chooseable executable.
#[verifier::loop_isolation(false)]
fn bfs_locate<'a>(root: &'a Vec<FsTree>, blacklist: &Vec<String>) -> (r: Option<
    (Vec<String>, &'a Vec<FsTree>),
>)
    ensures
        match spec_bfs(seq![(Seq::<Seq<char>>::empty(), root@)], blacklist@) {
            None => r is None,
            Some(e) => r matches Some((path, children)) && path.deep_view() == e.0 && children@
                == e.1 && spec_dir_has_match(children@, blacklist@),
        },
{
    let ghost init = seq![(Seq::<Seq<char>>::empty(), root@)];
    let mut paths: Vec<Vec<String>> = Vec::new();
    let mut forests: Vec<&'a Vec<FsTree>> = Vec::new();
    paths.push(Vec::new());
    forests.push(root);
    proof {
        assert(queue_view(paths@, forests@) =~~= init);
    }
    while paths.len() > 0
        invariant
            paths@.len() == forests@.len(),
            spec_bfs(queue_view(paths@, forests@), blacklist@) == spec_bfs(init, blacklist@),
        decreases queue_weight(queue_view(paths@, forests@)),
    {
        let ghost q_before = queue_view(paths@, forests@);
        let path = paths.remove(0);
        let children: &'a Vec<FsTree> = forests.remove(0);
        proof {
            assert(q_before[0].0 == path.deep_view() && q_before[0].1 == children@);
            assert(queue_view(paths@, forests@) =~~= q_before.drop_first());
        }
        let mut k: usize = 0;
        let mut found = false;
        while k < children.len() && !found
            invariant
                k <= children@.len(),
                !found ==> forall|j: int|
                    0 <= j < k ==> !spec_is_match_file(children@[j], blacklist@),
                found ==> spec_dir_has_match(children@, blacklist@),
            decreases children@.len() - k + if found {
                0int
            } else {
                1int
            },
        {
            if is_match_file(&children[k], blacklist) {
                found = true;
            } else {
                k = k + 1;
            }
        }
        if found {
            proof {
                assert(spec_bfs(q_before, blacklist@) == Some(q_before[0]));
            }
            return Some((path, children));
        }
        assert(!spec_dir_has_match(children@, blacklist@));
        let ghost expanded = q_before.drop_first() + child_entries(
            path.deep_view(),
            children@,
            blacklist@,
        );
        let mut c: usize = 0;
        while c < children.len()
            invariant
                c <= children@.len(),
                paths@.len() == forests@.len(),
                queue_view(paths@, forests@) =~~= q_before.drop_first() + child_entries(
                    path.deep_view(),
                    children@.take(c as int),
                    blacklist@,
                ),
            decreases children@.len() - c,
        {
            let ghost q_mid = queue_view(paths@, forests@);
            match &children[c] {
                FsTree::Dir { name, children: sub } => {
                    if !is_executable_blacklisted(name.as_str(), blacklist) {
                        let mut sub_path = clone_path(&path);
                        sub_path.push(name.clone());
                        proof {
                            assert(sub_path.deep_view() =~~= path.deep_view().push(name@));
                        }
                        paths.push(sub_path);
                        forests.push(sub);
                        proof {
                            assert(queue_view(paths@, forests@) =~~= q_mid.push(
                                (path.deep_view().push(name@), sub@),
                            ));
                        }
                    }
                },
                FsTree::File { .. } => {},
            }
            proof {
                lemma_child_entries_push(
                    path.deep_view(),
                    children@.take(c as int),
                    children@[c as int],
                    blacklist@,
                );
                lemma_child_entries_single(path.deep_view(), children@[c as int], blacklist@);
                assert(children@.take(c + 1) =~~= children@.take(c as int).push(
                    children@[c as int],
                ));
                assert(queue_view(paths@, forests@) =~~= q_before.drop_first() + child_entries(
                    path.deep_view(),
                    children@.take(c + 1),
                    blacklist@,
                ));
            }
            c = c + 1;
        }
        proof {
            assert(children@.take(children@.len() as int) =~~= children@);
            assert(queue_view(paths@, forests@) =~~= expanded);
            assert(spec_bfs(q_before, blacklist@) == spec_bfs(expanded, blacklist@));
            lemma_bfs_step_weight(q_before, blacklist@);
        }
    }
    proof {
        assert(queue_view(paths@, forests@) =~~= Seq::<(Seq<Seq<char>>, Seq<FsTree>)>::empty());
    }
    None
}

/// The ranking class of a candidate file name; see [`spec_rank_class`].
fn rank_class(name: &str) -> (r: u8)
    ensures
        r as int == spec_rank_class(name@),
{
    if str_contains(name, "64") {
        2
    } else if str_contains(name, "32") {
        0
    } else {
        1
    }
}

/// True when candidate `a` ranks strictly above candidate `b`.
fn better(a: &FsTree, b: &FsTree) -> (r: bool)
    requires
        a is File,
        b is File,
    ensures
        r == spec_better(*a, *b),
{
    match (a, b) {
        (FsTree::File { name: a_name, size: a_size }, FsTree::File {
            name: b_name,
            size: b_size,
        }) => {
            let a_class = rank_class(a_name.as_str());
            let b_class = rank_class(b_name.as_str());
            a_class > b_class || (a_class == b_class && *a_size > *b_size)
        },
        _ => false,
    }
}

/// The path of the directory that holds the launch target: the first
/// directory in breadth-first order that directly holds a chooseable
/// executable.  The path is relative to the search root; an empty path is
/// the root itself.  `None` when no such directory exists.
pub fn find_executable_parent(root: &Vec<FsTree>, blacklist: &Vec<String>) -> (r: Option<
    Vec<String>,
>)
    ensures
        match spec_bfs(seq![(Seq::<Seq<char>>::empty(), root@)], blacklist@) {
            None => r is None,
            Some(e) => r matches Some(p) && p.deep_view() == e.0,
        },
{
    match bfs_locate(root, blacklist) {
        Some((path, _)) => Some(path),
        None => None,
    }
}

/// The launch target: the path, relative to the search root, of the chosen
/// executable file.  The containing directory is found breadth-first (so the
/// shallowest match wins), and its candidates are ranked by
/// [`spec_better`], directory order breaking exact ties.  `None` when no
/// directory holds a chooseable executable.
pub fn find_executable(root: &Vec<FsTree>, blacklist: &Vec<String>) -> (r: Option<Vec<String>>)
    ensures
        match spec_bfs(seq![(Seq::<Seq<char>>::empty(), root@)], blacklist@) {
            None => r is None,
            Some(e) => r matches Some(p) && exists|i: int|
                is_best_index(e.1, blacklist@, i) && p.deep_view() == e.0.push(
                    name_of(e.1[i]),
                ),
        },
{
    match bfs_locate(root, blacklist) {
        None => None,
        Some((path, children)) => {
            let mut best: Option<usize> = None;
            let mut k: usize = 0;
            while k < children.len()
                invariant
                    k <= children@.len(),
                    best is Some <==> exists|j: int|
                        0 <= j < k && spec_is_match_file(children@[j], blacklist@),
                    best matches Some(b) ==> ({
                        &&& 0 <= b < k
                        &&& spec_is_match_file(children@[b as int], blacklist@)
                        &&& forall|j: int|
                            0 <= j < k && spec_is_match_file(children@[j], blacklist@)
                                ==> !spec_better(children@[j], children@[b as int])
                        &&& forall|j: int|
                            0 <= j < b && spec_is_match_file(children@[j], blacklist@)
                                ==> spec_better(children@[b as int], children@[j])
                    }),
                decreases children@.len() - k,
            {
                if is_match_file(&children[k], blacklist) {
                    match best {
                        None => {
                            best = Some(k);
                        },
                        Some(b) => {
                            if better(&children[k], &children[b]) {
                                best = Some(k);
                            }
                        },
                    }
                }
                k = k + 1;
            }
            match best {
                Some(b) => {
                    assert(is_best_index(children@, blacklist@, b as int));
                    let ghost dir_path = path.deep_view();
                    let mut p = path;
                    let name = match &children[b] {
                        FsTree::File { name, .. } => name.clone(),
                        FsTree::Dir { name, .. } => name.clone(),
                    };
                    p.push(name);
                    proof {
                        assert(p.deep_view() =~~= dir_path.push(name_of(children@[b as int])));
                    }
                    Some(p)
                },
                None => {
                    proof {
                        assert(false);
                    }
                    None
                },
            }
        },
    }
}

/// A copy of a path.
fn clone_path(path: &Vec<String>) -> (r: Vec<String>)
    ensures
        r.deep_view() == path.deep_view(),
{
    let mut r: Vec<String> = Vec::new();
    let mut i: usize = 0;
    while i < path.len()
        invariant
            i <= path@.len(),
            r@.len() == i,
            forall|j: int| 0 <= j < i ==> r@[j]@ == path@[j]@,
        decreases path@.len() - i,
    {
        r.push(path[i].clone());
        i = i + 1;
    }
    proof {
        assert(r.deep_view() =~= path.deep_view());
    }
    r
}

} // verus!
