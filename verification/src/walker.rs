//! The tree walker: traverses an in-memory snapshot of a directory tree,
//! prunes every directory whose name equals the exclusion name before
//! descending into it, and yields the relative path (as components) of every
//! file whose name equals the manifest filename.
//!
//! The snapshot is built by the caller from the real file system; an entry
//! that could not be read is simply left out of the snapshot, which matches
//! the walker's contract of skipping unreadable entries.

use vstd::prelude::*;
use crate::strutil::str_eq;

verus! {

/// One node of a directory-tree snapshot.
pub enum FsTree {
    File { name: String },
    Dir { name: String, children: Vec<FsTree> },
}

/// The paths yielded for one (non-root) node reached under `prefix`.
pub open spec fn walk_node(
    t: FsTree,
    prefix: Seq<Seq<char>>,
    exclude: Seq<char>,
    manifest_name: Seq<char>,
) -> Seq<Seq<Seq<char>>>
    decreases t,
{
    match t {
        FsTree::File { name } => if name@ == manifest_name {
            seq![prefix.push(name@)]
        } else {
            Seq::empty()
        },
        FsTree::Dir { name, children } => if name@ == exclude {
            Seq::empty()
        } else {
            walk_nodes(children@, prefix.push(name@), exclude, manifest_name)
        },
    }
}

/// The paths yielded for a list of sibling nodes, in order.
pub open spec fn walk_nodes(
    s: Seq<FsTree>,
    prefix: Seq<Seq<char>>,
    exclude: Seq<char>,
    manifest_name: Seq<char>,
) -> Seq<Seq<Seq<char>>>
    decreases s,
{
    if s.len() == 0 {
        Seq::empty()
    } else {
        walk_node(s[0], prefix, exclude, manifest_name) + walk_nodes(
            s.drop_first(),
            prefix,
            exclude,
            manifest_name,
        )
    }
}

/// The paths yielded for a whole walk: the root directory's own name is not
/// a path component, and the root is never pruned.
pub open spec fn walk_spec(root: FsTree, exclude: Seq<char>, manifest_name: Seq<char>) -> Seq<
    Seq<Seq<char>>,
> {
    match root {
        FsTree::File { name } => if name@ == manifest_name {
            seq![seq![name@]]
        } else {
            Seq::empty()
        },
        FsTree::Dir { name, children } => walk_nodes(
            children@,
            Seq::empty(),
            exclude,
            manifest_name,
        ),
    }
}

/// Walks a directory-tree snapshot and returns the relative paths (as name
/// components) of every manifest file found, pruning excluded directories.
pub fn walk(root: &FsTree, exclude: &str, manifest_name: &str) -> (out: Vec<Vec<String>>)
    ensures
        out.deep_view() == walk_spec(*root, exclude@, manifest_name@),
{
    let mut out: Vec<Vec<String>> = Vec::new();
    match root {
        FsTree::File { name } => {
            if str_eq(name.as_str(), manifest_name) {
                let mut path: Vec<String> = Vec::new();
                path.push(name.clone());
                out.push(path);
                proof {
                    assert(out.deep_view() =~~= walk_spec(*root, exclude@, manifest_name@));
                }
            } else {
                proof {
                    assert(out.deep_view() =~~= walk_spec(*root, exclude@, manifest_name@));
                }
            }
        },
        FsTree::Dir { name, children } => {
            let prefix: Vec<String> = Vec::new();
            proof {
                assert(prefix.deep_view() =~= Seq::<Seq<char>>::empty());
            }
            walk_into_list(children, &prefix, exclude, manifest_name, &mut out);
            proof {
                assert(out.deep_view() =~~= walk_spec(*root, exclude@, manifest_name@));
            }
        },
    }
    out
}

/// Appends the walk of one node to the output.
fn walk_into(
    t: &FsTree,
    prefix: &Vec<String>,
    exclude: &str,
    manifest_name: &str,
    out: &mut Vec<Vec<String>>,
)
    ensures
        final(out).deep_view() == old(out).deep_view() + walk_node(
            *t,
            prefix.deep_view(),
            exclude@,
            manifest_name@,
        ),
    decreases *t,
{
    match t {
        FsTree::File { name } => {
            if str_eq(name.as_str(), manifest_name) {
                let mut path: Vec<String> = prefix.clone();
                path.push(name.clone());
                proof {
                    assert(path.deep_view() =~~= prefix.deep_view().push(name@));
                }
                out.push(path);
                proof {
                    assert(final(out).deep_view() =~~= old(out).deep_view() + walk_node(
                        *t,
                        prefix.deep_view(),
                        exclude@,
                        manifest_name@,
                    ));
                }
            } else {
                proof {
                    assert(final(out).deep_view() =~~= old(out).deep_view() + walk_node(
                        *t,
                        prefix.deep_view(),
                        exclude@,
                        manifest_name@,
                    ));
                }
            }
        },
        FsTree::Dir { name, children } => {
            if str_eq(name.as_str(), exclude) {
                proof {
                    assert(final(out).deep_view() =~~= old(out).deep_view() + walk_node(
                        *t,
                        prefix.deep_view(),
                        exclude@,
                        manifest_name@,
                    ));
                }
            } else {
                let mut sub_prefix: Vec<String> = prefix.clone();
                sub_prefix.push(name.clone());
                proof {
                    assert(sub_prefix.deep_view() =~~= prefix.deep_view().push(name@));
                }
                walk_into_list(children, &sub_prefix, exclude, manifest_name, out);
            }
        },
    }
}

/// Appends the walk of a list of sibling nodes to the output.
fn walk_into_list(
    s: &Vec<FsTree>,
    prefix: &Vec<String>,
    exclude: &str,
    manifest_name: &str,
    out: &mut Vec<Vec<String>>,
)
    ensures
        final(out).deep_view() == old(out).deep_view() + walk_nodes(
            s@,
            prefix.deep_view(),
            exclude@,
            manifest_name@,
        ),
    decreases s@,
{
    let mut i: usize = 0;
    proof {
        lemma_walk_nodes_take(s@, prefix.deep_view(), exclude@, manifest_name@, 0);
        assert(out.deep_view() =~~= old(out).deep_view() + walk_nodes(
            s@.take(0),
            prefix.deep_view(),
            exclude@,
            manifest_name@,
        ));
    }
    while i < s.len()
        invariant
            i <= s@.len(),
            out.deep_view() == old(out).deep_view() + walk_nodes(
                s@.take(i as int),
                prefix.deep_view(),
                exclude@,
                manifest_name@,
            ),
        decreases s@.len() - i,
    {
        proof {
            assert(decreases_to!(s@ => s@[i as int]));
        }
        walk_into(&s[i], prefix, exclude, manifest_name, out);
        proof {
            lemma_walk_nodes_take(s@, prefix.deep_view(), exclude@, manifest_name@, i + 1);
        }
        i = i + 1;
    }
    proof {
        assert(s@.take(s@.len() as int) =~= s@);
    }
}

/// Unrolls `walk_nodes` over a prefix of the sibling list by one node.
proof fn lemma_walk_nodes_take(
    s: Seq<FsTree>,
    prefix: Seq<Seq<char>>,
    exclude: Seq<char>,
    manifest_name: Seq<char>,
    i: int,
)
    requires
        0 <= i <= s.len(),
    ensures
        i == 0 ==> walk_nodes(s.take(0), prefix, exclude, manifest_name) == Seq::<
            Seq<Seq<char>>,
        >::empty(),
        i > 0 ==> walk_nodes(s.take(i), prefix, exclude, manifest_name) == walk_nodes(
            s.take(i - 1),
            prefix,
            exclude,
            manifest_name,
        ) + walk_node(s[i - 1], prefix, exclude, manifest_name),
    decreases i,
{
    if i == 0 {
        assert(s.take(0).len() == 0);
    } else if i == 1 {
        let t = s.take(1);
        assert(t[0] == s[0]);
        assert(t.drop_first().len() == 0);
        assert(walk_nodes(t.drop_first(), prefix, exclude, manifest_name) =~= Seq::empty());
        assert(walk_nodes(s.take(0), prefix, exclude, manifest_name) =~= Seq::empty());
        assert(walk_nodes(t, prefix, exclude, manifest_name) =~= walk_node(
            s[0],
            prefix,
            exclude,
            manifest_name,
        ));
        assert(walk_nodes(s.take(0), prefix, exclude, manifest_name) + walk_node(
            s[0],
            prefix,
            exclude,
            manifest_name,
        ) =~= walk_nodes(t, prefix, exclude, manifest_name));
    } else {
        let t = s.take(i);
        let u = s.take(i - 1);
        assert(t.drop_first() =~= s.drop_first().take(i - 1));
        assert(u.drop_first() =~= s.drop_first().take(i - 2));
        lemma_walk_nodes_take(s.drop_first(), prefix, exclude, manifest_name, i - 1);
        assert(s.drop_first()[i - 2] == s[i - 1]);
        assert(t[0] == s[0]);
        assert(u[0] == s[0]);
        let a = walk_node(s[0], prefix, exclude, manifest_name);
        let b = walk_nodes(s.drop_first().take(i - 2), prefix, exclude, manifest_name);
        let c = walk_node(s[i - 1], prefix, exclude, manifest_name);
        assert(walk_nodes(t, prefix, exclude, manifest_name) == a + (b + c));
        assert(walk_nodes(u, prefix, exclude, manifest_name) == a + b);
        assert(a + (b + c) =~= (a + b) + c);
    }
}

/// A path that contains no excluded component, with none in the prefix,
/// stays free of excluded components.
pub open spec fn path_clear(p: Seq<Seq<char>>, exclude: Seq<char>) -> bool {
    forall|c: int| 0 <= c < p.len() ==> p[c] != exclude
}

/// The walker never yields a path that contains the excluded directory name
/// as a component, provided the prefix it started from is itself clear of
/// it and the manifest filename is not the exclusion name.
pub proof fn lemma_walk_node_excludes(
    t: FsTree,
    prefix: Seq<Seq<char>>,
    exclude: Seq<char>,
    manifest_name: Seq<char>,
)
    requires
        path_clear(prefix, exclude),
        manifest_name != exclude,
    ensures
        forall|j: int|
            0 <= j < walk_node(t, prefix, exclude, manifest_name).len() ==> path_clear(
                #[trigger] walk_node(t, prefix, exclude, manifest_name)[j],
                exclude,
            ),
    decreases t,
{
    match t {
        FsTree::File { name } => {
            if name@ == manifest_name {
                assert(path_clear(prefix.push(name@), exclude));
                assert forall|j: int|
                    0 <= j < walk_node(t, prefix, exclude, manifest_name).len() implies path_clear(
                    walk_node(t, prefix, exclude, manifest_name)[j],
                    exclude,
                ) by {
                    assert(walk_node(t, prefix, exclude, manifest_name)[j] == prefix.push(name@));
                }
            }
        },
        FsTree::Dir { name, children } => {
            if name@ != exclude {
                assert(path_clear(prefix.push(name@), exclude));
                lemma_walk_nodes_excludes(children@, prefix.push(name@), exclude, manifest_name);
                assert forall|j: int|
                    0 <= j < walk_node(t, prefix, exclude, manifest_name).len() implies path_clear(
                    walk_node(t, prefix, exclude, manifest_name)[j],
                    exclude,
                ) by {
                    assert(walk_node(t, prefix, exclude, manifest_name)[j] == walk_nodes(
                        children@,
                        prefix.push(name@),
                        exclude,
                        manifest_name,
                    )[j]);
                }
            }
        },
    }
}

/// As `lemma_walk_node_excludes`, for a list of sibling nodes.
pub proof fn lemma_walk_nodes_excludes(
    s: Seq<FsTree>,
    prefix: Seq<Seq<char>>,
    exclude: Seq<char>,
    manifest_name: Seq<char>,
)
    requires
        path_clear(prefix, exclude),
        manifest_name != exclude,
    ensures
        forall|j: int|
            0 <= j < walk_nodes(s, prefix, exclude, manifest_name).len() ==> path_clear(
                #[trigger] walk_nodes(s, prefix, exclude, manifest_name)[j],
                exclude,
            ),
    decreases s,
{
    if s.len() > 0 {
        lemma_walk_node_excludes(s[0], prefix, exclude, manifest_name);
        lemma_walk_nodes_excludes(s.drop_first(), prefix, exclude, manifest_name);
        let head = walk_node(s[0], prefix, exclude, manifest_name);
        let tail = walk_nodes(s.drop_first(), prefix, exclude, manifest_name);
        assert forall|j: int|
            0 <= j < walk_nodes(s, prefix, exclude, manifest_name).len() implies path_clear(
            walk_nodes(s, prefix, exclude, manifest_name)[j],
            exclude,
        ) by {
            if j < head.len() {
                assert(walk_nodes(s, prefix, exclude, manifest_name)[j] == head[j]);
            } else {
                assert(walk_nodes(s, prefix, exclude, manifest_name)[j] == tail[j - head.len()]);
            }
        }
    }
}

/// The walker's exclusion guarantee, stated of a whole walk: no yielded
/// path contains the excluded directory name as a component.
pub proof fn lemma_walk_excludes(root: FsTree, exclude: Seq<char>, manifest_name: Seq<char>)
    requires
        manifest_name != exclude,
    ensures
        forall|j: int|
            0 <= j < walk_spec(root, exclude, manifest_name).len() ==> path_clear(
                #[trigger] walk_spec(root, exclude, manifest_name)[j],
                exclude,
            ),
{
    match root {
        FsTree::File { name } => {
        },
        FsTree::Dir { name, children } => {
            lemma_walk_nodes_excludes(children@, Seq::empty(), exclude, manifest_name);
        },
    }
}

} // verus!
