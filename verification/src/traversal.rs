//! Walking a scene's node hierarchy depth first: each node before its
//! children, children in order, a node reached along two paths visited
//! along each. Each visit carries its depth, from which a caller rebuilds
//! the transform of the nodes above it.
use vstd::prelude::*;

verus! {

/// Why a node hierarchy cannot be walked.
#[derive(Clone, Copy, Debug, PartialEq, Eq, Structural)]
pub enum WalkError {
    /// A node index that is not an index into the nodes.
    InvalidNodeIndex,
    /// A path deeper than there are nodes: the hierarchy has a cycle.
    TooDeep,
}

/// The children of each node, as sequences.
pub open spec fn child_lists(children: Seq<Vec<usize>>) -> Seq<Seq<usize>> {
    children.map_values(|c: Vec<usize>| c@)
}

/// The depth-first walk of the subtrees at `nodes` (at `depth`): for each
/// node in order, its visit and then the walk of its children one level
/// deeper; or the first problem met in that order.
pub open spec fn spec_walk(children: Seq<Seq<usize>>, nodes: Seq<usize>, depth: nat) -> Result<
    Seq<(usize, nat)>,
    WalkError,
>
    decreases children.len() + 1 - depth, nodes.len(),
{
    if nodes.len() == 0 {
        Ok(Seq::empty())
    } else {
        match spec_walk(children, nodes.drop_last(), depth) {
            Err(e) => Err(e),
            Ok(prefix) => {
                let n = nodes.last();
                if n >= children.len() {
                    Err(WalkError::InvalidNodeIndex)
                } else if depth >= children.len() {
                    Err(WalkError::TooDeep)
                } else {
                    match spec_walk(children, children[n as int], depth + 1) {
                        Err(e) => Err(e),
                        Ok(sub) => Ok(prefix.push((n, depth)) + sub),
                    }
                }
            },
        }
    }
}

/// Visits with their depths as machine integers.
pub open spec fn visits(w: Seq<(usize, nat)>) -> Seq<(usize, usize)> {
    w.map_values(|p: (usize, nat)| (p.0, p.1 as usize))
}

/// Appends the walk of the subtrees at `nodes` to `out`.
fn walk_into(children: &[Vec<usize>], nodes: &[usize], depth: usize, out: &mut Vec<(usize, usize)>) -> (r:
    Result<(), WalkError>)
    requires
        depth <= children@.len(),
    ensures
        match spec_walk(child_lists(children@), nodes@, depth as nat) {
            Ok(w) => r is Ok && final(out)@ == old(out)@ + visits(w),
            Err(e) => r == Err::<(), WalkError>(e),
        },
    decreases children@.len() - depth,
{
    let ghost kids = child_lists(children@);
    let ghost start = out@;
    let n = nodes.len();
    let mut i: usize = 0;
    assert(nodes@.take(0) =~= Seq::<usize>::empty());
    while i < n
        invariant
            n == nodes@.len(),
            i <= n,
            depth <= children@.len(),
            kids == child_lists(children@),
            spec_walk(kids, nodes@.take(i as int), depth as nat) matches Ok(w) && out@ == start
                + visits(w),
        decreases n - i,
    {
        let ghost prefix = spec_walk(kids, nodes@.take(i as int), depth as nat)->Ok_0;
        assert(nodes@.take(i + 1).drop_last() =~= nodes@.take(i as int));
        assert(nodes@.take(i + 1).last() == nodes@[i as int]);
        let node = nodes[i];
        if node >= children.len() {
            proof {
                lemma_walk_error_prefix(kids, nodes@, depth as nat, i + 1);
            }
            return Err(WalkError::InvalidNodeIndex);
        }
        if depth >= children.len() {
            proof {
                lemma_walk_error_prefix(kids, nodes@, depth as nat, i + 1);
            }
            return Err(WalkError::TooDeep);
        }
        let ghost before = out@;
        out.push((node, depth));
        assert(kids[node as int] == children@[node as int]@);
        match walk_into(children, children[node].as_slice(), depth + 1, out) {
            Ok(()) => {
                proof {
                    let sub = spec_walk(kids, kids[node as int], (depth + 1) as nat)->Ok_0;
                    assert(visits(prefix.push((node, depth as nat)) + sub) =~= visits(prefix).push(
                        (node, depth),
                    ) + visits(sub));
                    assert(out@ =~= start + visits(prefix.push((node, depth as nat)) + sub));
                }
            },
            Err(e) => {
                proof {
                    lemma_walk_error_prefix(kids, nodes@, depth as nat, i + 1);
                }
                return Err(e);
            },
        }
        i = i + 1;
    }
    assert(nodes@.take(n as int) =~= nodes@);
    Ok(())
}

/// An error met in the walk of a prefix of the nodes is the error of the
/// walk of all of them.
proof fn lemma_walk_error_prefix(children: Seq<Seq<usize>>, nodes: Seq<usize>, depth: nat, i: int)
    requires
        0 <= i <= nodes.len(),
        spec_walk(children, nodes.take(i), depth) is Err,
    ensures
        spec_walk(children, nodes, depth) == spec_walk(children, nodes.take(i), depth),
    decreases nodes.len() - i,
{
    if i < nodes.len() {
        assert(nodes.take(i + 1).drop_last() =~= nodes.take(i));
        lemma_walk_error_prefix(children, nodes, depth, i + 1);
    } else {
        assert(nodes.take(i) =~= nodes);
    }
}

/// The depth-first walk of a scene whose root nodes are `roots`, where
/// node `k` has children `children[k]`: each visit is a node and its
/// depth (0 for a root). A node index out of range, or a path deeper than
/// there are nodes (a cycle), is refused with the first such problem met.
pub fn walk_nodes(roots: &[usize], children: &[Vec<usize>]) -> (r: Result<Vec<(usize, usize)>, WalkError>)
    ensures
        match spec_walk(child_lists(children@), roots@, 0) {
            Ok(w) => r matches Ok(v) && v@ == visits(w),
            Err(e) => r == Err::<Vec<(usize, usize)>, WalkError>(e),
        },
{
    let mut out: Vec<(usize, usize)> = Vec::new();
    match walk_into(children, roots, 0, &mut out) {
        Ok(()) => {
            assert(out@ =~= Seq::<(usize, usize)>::empty() + out@);
            Ok(out)
        },
        Err(e) => Err(e),
    }
}

} // verus!
