//! Side-effect-free scope normalisation over the facts of one fixed revision:
//! explicit layer choices are expanded through visible groups, and every
//! target and group brings its ancestor groups as structure. No visual bounds
//! are guessed and no text is cut here.

use vstd::prelude::*;

use crate::psd::{Bounds, LayerId, LayerKind};

use super::super::error::DocumentError;
use super::super::model::{DocumentId, RevisionId};
use super::budget::limit;
use super::error::SelectionError;
use super::model::{LayerReference, LayerRole, SelectionConfig, SelectionWarning};

verus! {

/// What normalisation reads of one layer of the revision, in stacking order.
#[derive(Debug, Clone, Copy, PartialEq, Eq, Structural)]
pub struct LayerNode {
    pub id: LayerId,
    pub parent_id: Option<LayerId>,
    pub kind: LayerKind,
    pub effective_visible: bool,
    pub bounds: Bounds,
    /// The layer has an export blocker of a global mask or a visual
    /// dependency on itself or an ancestor, which the pixels do not resolve.
    pub pixel_dependency: bool,
}

/// Rejection of an empty layer list, which is no implicit clear.
pub const EMPTY_LAYER_LIST: &'static str = "空图层列表不能代替明确清空";

/// Rejection of a layer reference of another document or revision.
pub const FOREIGN_LAYER: &'static str = "图层引用必须属于同一文档修订";

/// Name of the raw selection item quota in limit errors.
pub const RAW_ITEMS: &'static str = "原始选择项";

/// Name of the projected layer quota in limit errors.
pub const PROJECTED_LAYERS: &'static str = "选区投影图层";

/// Rejection of a parent id that no layer has.
pub const MISSING_PARENT: &'static str = "缺失父组结构";

/// Rejection of a parent chain that loops or passes a non-group.
pub const BAD_PARENT: &'static str = "父组结构无效";

/// The last position of a layer with `id`, if any (later layers win).
pub open spec fn position(layers: Seq<LayerNode>, id: LayerId) -> Option<int>
    decreases layers.len(),
{
    if layers.len() == 0 {
        None
    } else if layers.last().id == id {
        Some(layers.len() - 1)
    } else {
        position(layers.drop_last(), id)
    }
}

/// Where a layer id stands, as [`position`] states it.
pub fn find_position(layers: &[LayerNode], id: LayerId) -> (r: Option<usize>)
    ensures
        match position(layers@, id) {
            Some(p) => r == Some(p as usize) && 0 <= p < layers@.len(),
            None => r is None,
        },
{
    let mut i: usize = layers.len();
    assert(layers@.take(i as int) =~= layers@);
    proof {
        lemma_position_bound(layers@, id);
    }
    while i > 0
        invariant
            i <= layers@.len(),
            position(layers@, id) == position(layers@.take(i as int), id),
            forall|p: int| position(layers@.take(i as int), id) == Some(p) ==> 0 <= p < i,
        decreases i,
    {
        proof {
            assert(layers@.take(i as int).drop_last() =~= layers@.take(i - 1));
            assert(layers@.take(i as int).last() == layers@[i - 1]);
        }
        if layers[i - 1].id == id {
            return Some(i - 1);
        }
        i = i - 1;
        proof {
            assert forall|p: int| position(layers@.take(i as int), id) == Some(p) implies 0 <= p
                < i by {
                lemma_position_bound(layers@.take(i as int), id);
            }
        }
    }
    proof {
        assert(layers@.take(0) =~= Seq::<LayerNode>::empty());
    }
    None
}

/// A position is always a valid index.
proof fn lemma_position_bound(layers: Seq<LayerNode>, id: LayerId)
    ensures
        position(layers, id) matches Some(p) ==> 0 <= p < layers.len(),
    decreases layers.len(),
{
    if layers.len() > 0 {
        lemma_position_bound(layers.drop_last(), id);
    }
}

/// A group that is effectively visible: selecting through it reaches its children.
pub open spec fn opens(layers: Seq<LayerNode>, p: int) -> bool {
    layers[p].effective_visible && layers[p].kind == LayerKind::Group
}

/// Layer `c` names layer `p`'s id as its parent.
pub open spec fn child_of(layers: Seq<LayerNode>, c: int, p: int) -> bool {
    layers[c].parent_id == Some(layers[p].id)
}

/// A chain from an explicitly chosen layer down through visible groups.
pub open spec fn is_path(layers: Seq<LayerNode>, explicit: Seq<bool>, path: Seq<int>) -> bool {
    &&& path.len() >= 1
    &&& forall|k: int| 0 <= k < path.len() ==> 0 <= #[trigger] path[k] < layers.len()
    &&& explicit[path[0]]
    &&& forall|k: int|
        0 <= k < path.len() - 1 ==> opens(layers, #[trigger] path[k]) && child_of(
            layers,
            path[k + 1],
            path[k],
        )
}

/// Whether selecting `explicit` reaches layer `i`.
pub open spec fn reachable(layers: Seq<LayerNode>, explicit: Seq<bool>, i: int) -> bool {
    exists|path: Seq<int>| #[trigger] is_path(layers, explicit, path) && path.last() == i
}

/// Number of set marks.
pub open spec fn count_marks(s: Seq<bool>) -> nat
    decreases s.len(),
{
    if s.len() == 0 {
        0
    } else {
        count_marks(s.drop_last()) + if s.last() {
            1nat
        } else {
            0nat
        }
    }
}

/// Setting an unset mark adds one; there are never more marks than slots.
proof fn lemma_count_marks(s: Seq<bool>, i: int)
    requires
        0 <= i < s.len(),
        !s[i],
    ensures
        count_marks(s.update(i, true)) == count_marks(s) + 1,
        count_marks(s) <= s.len(),
    decreases s.len(),
{
    lemma_count_bound(s);
    if i < s.len() - 1 {
        lemma_count_marks(s.drop_last(), i);
        assert(s.update(i, true).drop_last() =~= s.drop_last().update(i, true));
    } else {
        assert(s.update(i, true).drop_last() =~= s.drop_last());
    }
}

/// There are never more marks than slots.
proof fn lemma_count_bound(s: Seq<bool>)
    ensures
        count_marks(s) <= s.len(),
    decreases s.len(),
{
    if s.len() > 0 {
        lemma_count_bound(s.drop_last());
    }
}

/// Marks every layer that the references choose, checking that each names a
/// layer of this revision; gives the chosen positions.
pub fn explicit_marks(
    layers: &[LayerNode],
    document_id: DocumentId,
    revision_id: RevisionId,
    refs: &[LayerReference],
    config: SelectionConfig,
) -> (r: Result<Vec<bool>, SelectionError>)
    ensures
        if refs@.len() == 0 {
            r matches Err(SelectionError::InvalidInput(m)) && m@ == EMPTY_LAYER_LIST@
        } else if refs@.len() > config.max_items {
            r matches Err(SelectionError::Document(DocumentError::ResourceLimit { resource, limit }))
                && resource@ == RAW_ITEMS@ && limit == config.max_items as u64
        } else {
            match first_bad_reference(layers@, document_id, revision_id, refs@) {
                Some((k, true)) => r matches Err(SelectionError::InvalidInput(m)) && m@
                    == FOREIGN_LAYER@,
                Some((k, false)) => r matches Err(
                    SelectionError::Document(DocumentError::LayerNotFound(id)),
                ) && id == refs@[k].layer_id,
                None => r matches Ok(marks) && marks@.len() == layers@.len() && forall|i: int|
                    0 <= i < layers@.len() ==> (#[trigger] marks@[i] <==> exists|k: int|
                        0 <= k < refs@.len() && position(layers@, refs@[k].layer_id) == Some(i)),
            }
        },
{
    if refs.len() == 0 {
        return Err(SelectionError::InvalidInput(EMPTY_LAYER_LIST));
    }
    if refs.len() > config.max_items {
        return Err(limit(RAW_ITEMS, config.max_items as u64));
    }
    let n = layers.len();
    let mut marks: Vec<bool> = Vec::new();
    let mut j: usize = 0;
    while j < n
        invariant
            j <= n,
            n == layers@.len(),
            marks@.len() == j,
            forall|i: int| 0 <= i < j ==> !(#[trigger] marks@[i]),
        decreases n - j,
    {
        marks.push(false);
        j = j + 1;
    }
    let mut k: usize = 0;
    proof {
        assert(refs@.skip(0) =~= refs@);
        let f = first_bad_reference(layers@, document_id, revision_id, refs@);
        assert(shift_fault(f, 0) == f);
    }
    while k < refs.len()
        invariant
            k <= refs@.len(),
            n == layers@.len(),
            marks@.len() == n,
            refs@.len() > 0,
            refs@.len() <= config.max_items,
            first_bad_reference(layers@, document_id, revision_id, refs@) == shift_fault(
                first_bad_reference(
                layers@,
                document_id,
                revision_id,
                refs@.skip(k as int),
            ), k as int),
            forall|i: int|
                0 <= i < n ==> (#[trigger] marks@[i] <==> exists|q: int|
                    0 <= q < k && position(layers@, refs@[q].layer_id) == Some(i)),
        decreases refs@.len() - k,
    {
        proof {
            assert(refs@.skip(k as int).drop_first() =~= refs@.skip(k + 1));
            assert(refs@.skip(k as int)[0] == refs@[k as int]);
        }
        let reference = refs[k];
        assert(reference == refs@[k as int]);
        if reference.document_id != document_id || reference.revision_id != revision_id {
            return Err(SelectionError::InvalidInput(FOREIGN_LAYER));
        }
        let index = match find_position(layers, reference.layer_id) {
            Some(index) => index,
            None => {
                return Err(SelectionError::Document(DocumentError::LayerNotFound(reference.layer_id)));
            },
        };
        marks.set(index, true);
        proof {
            assert forall|i: int| 0 <= i < n implies (#[trigger] marks@[i] <==> exists|q: int|
                0 <= q < k + 1 && position(layers@, refs@[q].layer_id) == Some(i)) by {
                if i == index {
                    assert(position(layers@, refs@[k as int].layer_id) == Some(i));
                }
                if exists|q: int| 0 <= q < k + 1 && position(layers@, refs@[q].layer_id) == Some(i) {
                    let q = choose|q: int|
                        0 <= q < k + 1 && position(layers@, refs@[q].layer_id) == Some(i);
                    if q < k {
                    } else {
                        assert(i == index);
                    }
                }
            }
        }
        k = k + 1;
    }
    proof {
        assert(refs@.skip(k as int) =~= Seq::<LayerReference>::empty());
    }
    Ok(marks)
}

/// A failing position moved `d` places on.
pub open spec fn shift_fault(f: Option<(int, bool)>, d: int) -> Option<(int, bool)> {
    match f {
        Some((k, foreign)) => Some((k + d, foreign)),
        None => None,
    }
}

/// The first reference that fails, with whether it is foreign (else missing).
pub open spec fn first_bad_reference(
    layers: Seq<LayerNode>,
    document_id: DocumentId,
    revision_id: RevisionId,
    refs: Seq<LayerReference>,
) -> Option<(int, bool)>
    decreases refs.len(),
{
    if refs.len() == 0 {
        None
    } else if refs[0].document_id != document_id || refs[0].revision_id != revision_id {
        Some((0, true))
    } else if position(layers, refs[0].layer_id) is None {
        Some((0, false))
    } else {
        shift_fault(first_bad_reference(layers, document_id, revision_id, refs.drop_first()), 1)
    }
}


/// A path to an opening group extends to each of its children.
proof fn lemma_path_extends(layers: Seq<LayerNode>, explicit: Seq<bool>, x: int, j: int)
    requires
        reachable(layers, explicit, x),
        0 <= x < layers.len(),
        0 <= j < layers.len(),
        opens(layers, x),
        child_of(layers, j, x),
    ensures
        reachable(layers, explicit, j),
{
    let p = choose|p: Seq<int>| #[trigger] is_path(layers, explicit, p) && p.last() == x;
    let q = p.push(j);
    assert forall|k: int| 0 <= k < q.len() implies 0 <= #[trigger] q[k] < layers.len() by {
        if k < p.len() {
            assert(q[k] == p[k]);
        }
    }
    assert forall|k: int| 0 <= k < q.len() - 1 implies opens(layers, #[trigger] q[k]) && child_of(
        layers,
        q[k + 1],
        q[k],
    ) by {
        if k < p.len() - 1 {
            assert(q[k] == p[k] && q[k + 1] == p[k + 1]);
        } else {
            assert(q[k] == p.last());
        }
    }
    assert(q[0] == p[0]);
    assert(is_path(layers, explicit, q));
}

/// A set that holds the explicit layers and is closed under opening groups
/// holds every reachable layer.
proof fn lemma_closed_holds_path(
    layers: Seq<LayerNode>,
    explicit: Seq<bool>,
    marks: Seq<bool>,
    path: Seq<int>,
)
    requires
        marks.len() == layers.len(),
        explicit.len() == layers.len(),
        forall|i: int| 0 <= i < layers.len() && explicit[i] ==> #[trigger] marks[i],
        forall|i: int, c: int|
            0 <= i < layers.len() && 0 <= c < layers.len() && #[trigger] marks[i] && opens(
                layers,
                i,
            ) && #[trigger] child_of(layers, c, i) ==> marks[c],
        is_path(layers, explicit, path),
    ensures
        marks[path.last()],
    decreases path.len(),
{
    if path.len() > 1 {
        let prefix = path.drop_last();
        assert forall|k: int| 0 <= k < prefix.len() implies 0 <= #[trigger] prefix[k]
            < layers.len() by {
            assert(prefix[k] == path[k]);
        }
        assert forall|k: int| 0 <= k < prefix.len() - 1 implies opens(
            layers,
            #[trigger] prefix[k],
        ) && child_of(layers, prefix[k + 1], prefix[k]) by {
            assert(prefix[k] == path[k] && prefix[k + 1] == path[k + 1]);
        }
        lemma_closed_holds_path(layers, explicit, marks, prefix);
        let k = path.len() - 2;
        assert(opens(layers, path[k]) && child_of(layers, path[k + 1], path[k]));
        assert(prefix.last() == path[k]);
    } else {
        assert(path[0] == path.last());
    }
}

/// Queues every child of layer `x`, in stacking order.
fn push_children(layers: &[LayerNode], x: usize, pending: &mut Vec<usize>)
    requires
        x < layers@.len(),
    ensures
        final(pending)@.len() >= old(pending)@.len(),
        forall|k: int| 0 <= k < old(pending)@.len() ==> #[trigger] final(pending)@[k] == old(pending)@[k],
        forall|k: int|
            old(pending)@.len() <= k < final(pending)@.len() ==> (#[trigger] final(pending)@[k])
                < layers@.len() && child_of(layers@, final(pending)@[k] as int, x as int),
        forall|c: int|
            0 <= c < layers@.len() && child_of(layers@, c, x as int)
                ==> #[trigger] final(pending)@.contains(c as usize),
{
    let n = layers.len();
    let id = layers[x].id;
    let mut c: usize = 0;
    while c < n
        invariant
            n == layers@.len(),
            x < n,
            id == layers@[x as int].id,
            c <= n,
            pending@.len() >= old(pending)@.len(),
            forall|k: int| 0 <= k < old(pending)@.len() ==> #[trigger] pending@[k] == old(pending)@[k],
            forall|k: int|
                old(pending)@.len() <= k < pending@.len() ==> (#[trigger] pending@[k]) < n
                    && child_of(layers@, pending@[k] as int, x as int),
            forall|d: int|
                0 <= d < c && child_of(layers@, d, x as int) ==> #[trigger] pending@.contains(
                    d as usize,
                ),
        decreases n - c,
    {
        let ghost before = pending@;
        if layers[c].parent_id == Some(id) {
            pending.push(c);
            proof {
                assert(pending@[before.len() as int] == c);
            }
        }
        proof {
            assert forall|d: int| 0 <= d < c + 1 && child_of(layers@, d, x as int) implies #[trigger] pending@.contains(
                d as usize,
            ) by {
                if d < c {
                    assert(before.contains(d as usize));
                    let k = choose|k: int| 0 <= k < before.len() && before[k] == d as usize;
                    assert(pending@[k] == before[k]);
                } else {
                    assert(pending@[before.len() as int] == c);
                }
            }
        }
        c = c + 1;
    }
}

/// The layers that selecting the `explicit` layers reaches: the chosen
/// layers, and, below every effectively visible chosen or reached group, its
/// children. A layer is expanded once, however often it is reached.
pub fn reached_layers(layers: &[LayerNode], explicit: &Vec<bool>) -> (visited: Vec<bool>)
    requires
        explicit@.len() == layers@.len(),
    ensures
        visited@.len() == layers@.len(),
        forall|i: int|
            0 <= i < layers@.len() ==> (#[trigger] visited@[i] <==> reachable(
                layers@,
                explicit@,
                i,
            )),
{
    let n = layers.len();
    let mut visited: Vec<bool> = Vec::new();
    let mut pending: Vec<usize> = Vec::new();
    let mut j: usize = 0;
    while j < n
        invariant
            j <= n,
            n == layers@.len(),
            explicit@.len() == n,
            visited@.len() == j,
            forall|i: int| 0 <= i < j ==> !(#[trigger] visited@[i]),
            forall|k: int|
                0 <= k < pending@.len() ==> (#[trigger] pending@[k]) < j && reachable(
                    layers@,
                    explicit@,
                    pending@[k] as int,
                ),
            forall|i: int|
                0 <= i < j && explicit@[i] ==> #[trigger] pending@.contains(i as usize),
        decreases n - j,
    {
        let ghost before = pending@;
        visited.push(false);
        if explicit[j] {
            pending.push(j);
            proof {
                let path = seq![j as int];
                assert(is_path(layers@, explicit@, path));
                assert(pending@[before.len() as int] == j);
            }
        }
        proof {
            assert forall|i: int| 0 <= i < j + 1 && explicit@[i] implies #[trigger] pending@.contains(
                i as usize,
            ) by {
                if i < j {
                    assert(before.contains(i as usize));
                    let k = choose|k: int| 0 <= k < before.len() && before[k] == i as usize;
                    assert(pending@[k] == before[k]);
                } else {
                    assert(pending@[before.len() as int] == j);
                }
            }
        }
        j = j + 1;
    }
    let mut count: usize = 0;
    proof {
        assert(visited@ =~= Seq::new(n as nat, |i: int| false));
        lemma_count_none(visited@);
    }
    while pending.len() > 0
        invariant
            n == layers@.len(),
            explicit@.len() == n,
            visited@.len() == n,
            count == count_marks(visited@),
            count <= n,
            forall|k: int|
                0 <= k < pending@.len() ==> (#[trigger] pending@[k]) < n && reachable(
                    layers@,
                    explicit@,
                    pending@[k] as int,
                ),
            forall|i: int| 0 <= i < n && #[trigger] visited@[i] ==> reachable(layers@, explicit@, i),
            forall|i: int|
                0 <= i < n && explicit@[i] ==> #[trigger] visited@[i] || pending@.contains(
                    i as usize,
                ),
            forall|i: int, c: int|
                0 <= i < n && 0 <= c < n && #[trigger] visited@[i] && opens(layers@, i)
                    && #[trigger] child_of(layers@, c, i) ==> visited@[c] || pending@.contains(
                    c as usize,
                ),
        decreases n - count, pending@.len(),
    {
        let ghost before = pending@;
        let ghost seen = visited@;
        let x = pending[pending.len() - 1];
        pending.pop();
        assert(pending@ =~= before.drop_last());
        if visited[x] {
            proof {
                assert forall|i: int|
                    0 <= i < n && explicit@[i] implies #[trigger] visited@[i] || pending@.contains(
                    i as usize,
                ) by {
                    if !visited@[i] {
                        let k = choose|k: int| 0 <= k < before.len() && before[k] == i as usize;
                        assert(k < before.len() - 1);
                        assert(pending@[k] == before[k]);
                    }
                }
                assert forall|i: int, c: int|
                    0 <= i < n && 0 <= c < n && #[trigger] visited@[i] && opens(layers@, i)
                        && #[trigger] child_of(layers@, c, i) implies visited@[c] || pending@.contains(
                    c as usize,
                ) by {
                    if !visited@[c] {
                        let k = choose|k: int| 0 <= k < before.len() && before[k] == c as usize;
                        assert(k < before.len() - 1);
                        assert(pending@[k] == before[k]);
                    }
                }
            }
            continue;
        }
        proof {
            lemma_count_marks(seen, x as int);
            lemma_count_bound(seen.update(x as int, true));
        }
        visited.set(x, true);
        count = count + 1;
        let opening = layers[x].effective_visible && layers[x].kind == LayerKind::Group;
        let ghost popped = pending@;
        if opening {
            push_children(layers, x, &mut pending);
        }
        proof {
            assert forall|k: int| 0 <= k < pending@.len() implies (#[trigger] pending@[k]) < n
                && reachable(layers@, explicit@, pending@[k] as int) by {
                if k < popped.len() {
                    assert(pending@[k] == popped[k]);
                    assert(popped[k] == before[k]);
                } else {
                    lemma_path_extends(layers@, explicit@, x as int, pending@[k] as int);
                }
            }
            assert forall|i: int| 0 <= i < n && #[trigger] visited@[i] implies reachable(
                layers@,
                explicit@,
                i,
            ) by {
                if i != x {
                    assert(seen[i]);
                }
            }
            assert forall|i: int|
                0 <= i < n && explicit@[i] implies #[trigger] visited@[i] || pending@.contains(
                i as usize,
            ) by {
                if !visited@[i] {
                    assert(!seen[i]);
                    let k = choose|k: int| 0 <= k < before.len() && before[k] == i as usize;
                    assert(k < before.len() - 1);
                    assert(pending@[k] == before[k]);
                }
            }
            assert forall|i: int, c: int|
                0 <= i < n && 0 <= c < n && #[trigger] visited@[i] && opens(layers@, i)
                    && #[trigger] child_of(layers@, c, i) implies visited@[c] || pending@.contains(
                c as usize,
            ) by {
                if !visited@[c] {
                    if i == x {
                    } else {
                        assert(seen[i]);
                        assert(!seen[c]);
                        let k = choose|k: int| 0 <= k < before.len() && before[k] == c as usize;
                        assert(k < before.len() - 1);
                        assert(pending@[k] == before[k]);
                    }
                }
            }
        }
    }
    proof {
        assert forall|i: int| 0 <= i < n && reachable(layers@, explicit@, i) implies #[trigger] visited@[i] by {
            let p = choose|p: Seq<int>| #[trigger] is_path(layers@, explicit@, p) && p.last() == i;
            lemma_closed_holds_path(layers@, explicit@, visited@, p);
        }
    }
    visited
}

/// No marks in an all-unset sequence.
proof fn lemma_count_none(s: Seq<bool>)
    requires
        forall|i: int| 0 <= i < s.len() ==> !s[i],
    ensures
        count_marks(s) == 0,
    decreases s.len(),
{
    if s.len() > 0 {
        lemma_count_none(s.drop_last());
    }
}


/// The ancestor groups added by walking the parent chain from `parent`:
/// `seen` marks the positions already on this chain and `fuel` bounds the
/// walk by the positions not yet on it.
pub open spec fn ancestor_walk(
    layers: Seq<LayerNode>,
    parent: Option<LayerId>,
    seen: Seq<bool>,
    groups: Seq<bool>,
    fuel: nat,
) -> Result<Seq<bool>, Seq<char>>
    decreases fuel,
{
    match parent {
        None => Ok(groups),
        Some(id) => match position(layers, id) {
            None => Err(MISSING_PARENT@),
            Some(p) => if seen[p] || layers[p].kind != LayerKind::Group || fuel == 0 {
                Err(BAD_PARENT@)
            } else {
                ancestor_walk(
                    layers,
                    layers[p].parent_id,
                    seen.update(p, true),
                    groups.update(p, true),
                    (fuel - 1) as nat,
                )
            },
        },
    }
}

/// No position is on a chain yet.
pub open spec fn no_marks(n: nat) -> Seq<bool> {
    Seq::new(n, |i: int| false)
}

/// Adds every ancestor group of a layer whose parent is `parent`: each parent
/// must exist and be a group, and the chain must not loop.
pub fn add_ancestors(layers: &[LayerNode], parent: Option<LayerId>, groups: &mut Vec<bool>) -> (r:
    Result<(), SelectionError>)
    requires
        old(groups)@.len() == layers@.len(),
    ensures
        final(groups)@.len() == layers@.len(),
        match ancestor_walk(
            layers@,
            parent,
            no_marks(layers@.len()),
            old(groups)@,
            layers@.len(),
        ) {
            Ok(g) => r is Ok && final(groups)@ == g,
            Err(m) => r matches Err(SelectionError::InvalidInput(msg)) && msg@ == m,
        },
{
    let n = layers.len();
    let mut seen: Vec<bool> = Vec::new();
    let mut j: usize = 0;
    while j < n
        invariant
            j <= n,
            seen@.len() == j,
            forall|i: int| 0 <= i < j ==> !(#[trigger] seen@[i]),
        decreases n - j,
    {
        seen.push(false);
        j = j + 1;
    }
    proof {
        assert(seen@ =~= no_marks(n as nat));
        lemma_count_none(seen@);
    }
    let mut count: usize = 0;
    let mut current = parent;
    loop
        invariant
            n == layers@.len(),
            seen@.len() == n,
            groups@.len() == n,
            count == count_marks(seen@),
            count <= n,
            ancestor_walk(layers@, parent, no_marks(n as nat), old(groups)@, n as nat)
                == ancestor_walk(layers@, current, seen@, groups@, (n - count) as nat),
        decreases n - count,
    {
        let id = match current {
            Some(id) => id,
            None => {
                return Ok(());
            },
        };
        let p = match find_position(layers, id) {
            Some(p) => p,
            None => {
                return Err(SelectionError::InvalidInput(MISSING_PARENT));
            },
        };
        if seen[p] || layers[p].kind != LayerKind::Group {
            return Err(SelectionError::InvalidInput(BAD_PARENT));
        }
        proof {
            lemma_count_marks(seen@, p as int);
            lemma_count_bound(seen@.update(p as int, true));
        }
        seen.set(p, true);
        groups.set(p, true);
        count = count + 1;
        current = layers[p].parent_id;
    }
}

/// The marked positions in ascending order.
pub open spec fn marked(s: Seq<bool>) -> Seq<int>
    decreases s.len(),
{
    if s.len() == 0 {
        Seq::empty()
    } else if s.last() {
        marked(s.drop_last()).push(s.len() - 1)
    } else {
        marked(s.drop_last())
    }
}

/// Marked positions lie in range.
proof fn lemma_marked_range(s: Seq<bool>)
    ensures
        forall|k: int| 0 <= k < marked(s).len() ==> 0 <= #[trigger] marked(s)[k] < s.len(),
    decreases s.len(),
{
    if s.len() > 0 {
        lemma_marked_range(s.drop_last());
        let m = marked(s.drop_last());
        assert forall|k: int| 0 <= k < marked(s).len() implies 0 <= #[trigger] marked(s)[k]
            < s.len() by {
            if k < m.len() {
                assert(marked(s)[k] == m[k]);
            }
        }
    }
}

/// The positions that are marked, ascending.
pub fn marked_positions(s: &Vec<bool>) -> (v: Vec<usize>)
    ensures
        v@.map_values(|i: usize| i as int) == marked(s@),
{
    let mut v: Vec<usize> = Vec::new();
    let mut i: usize = 0;
    while i < s.len()
        invariant
            i <= s@.len(),
            v@.map_values(|i: usize| i as int) == marked(s@.take(i as int)),
        decreases s@.len() - i,
    {
        proof {
            assert(s@.take(i + 1).drop_last() =~= s@.take(i as int));
            assert(s@.take(i + 1).last() == s@[i as int]);
        }
        if s[i] {
            v.push(i);
        }
        proof {
            assert(v@.map_values(|i: usize| i as int) =~= marked(s@.take(i + 1)));
        }
        i = i + 1;
    }
    proof {
        assert(s@.take(i as int) =~= s@);
    }
    v
}

/// The groups after adding the ancestors of every root, in order; the first
/// failing chain stops the walk.
pub open spec fn with_ancestors(layers: Seq<LayerNode>, roots: Seq<int>, groups: Seq<bool>) -> Result<
    Seq<bool>,
    Seq<char>,
>
    decreases roots.len(),
{
    if roots.len() == 0 {
        Ok(groups)
    } else {
        match ancestor_walk(
            layers,
            layers[roots[0]].parent_id,
            no_marks(layers.len()),
            groups,
            layers.len(),
        ) {
            Err(m) => Err(m),
            Ok(g) => with_ancestors(layers, roots.drop_first(), g),
        }
    }
}

/// Adds the ancestor groups of every target, then of every reached group:
/// parents only explain the hierarchy and bring no unselected siblings.
pub fn complete_groups(layers: &[LayerNode], targets: &Vec<bool>, groups: &mut Vec<bool>) -> (r:
    Result<(), SelectionError>)
    requires
        targets@.len() == layers@.len(),
        old(groups)@.len() == layers@.len(),
    ensures
        final(groups)@.len() == layers@.len(),
        match with_ancestors(layers@, marked(targets@) + marked(old(groups)@), old(groups)@) {
            Ok(g) => r is Ok && final(groups)@ == g,
            Err(m) => r matches Err(SelectionError::InvalidInput(msg)) && msg@ == m,
        },
{
    let mut roots = marked_positions(targets);
    let extra = marked_positions(groups);
    let ghost target_roots = roots@;
    let mut e: usize = 0;
    while e < extra.len()
        invariant
            e <= extra@.len(),
            roots@ == target_roots + extra@.take(e as int),
        decreases extra@.len() - e,
    {
        roots.push(extra[e]);
        proof {
            assert(extra@.take(e + 1) =~= extra@.take(e as int).push(extra@[e as int]));
            assert(roots@ =~= target_roots + extra@.take(e + 1));
        }
        e = e + 1;
    }
    proof {
        assert(extra@.take(e as int) =~= extra@);
        assert(roots@.map_values(|i: usize| i as int) =~= marked(targets@) + marked(old(groups)@));
        lemma_marked_range(targets@);
        lemma_marked_range(old(groups)@);
    }
    let ghost all = roots@.map_values(|i: usize| i as int);
    proof {
        assert(all.skip(0) =~= all);
        assert forall|q: int| 0 <= q < roots@.len() implies (#[trigger] roots@[q]) < layers@.len() by {
            assert(all[q] == roots@[q] as int);
            let mt = marked(targets@);
            if q < mt.len() {
                assert(all[q] == mt[q]);
            } else {
                assert(all[q] == marked(old(groups)@)[q - mt.len()]);
            }
        }
    }
    let mut k: usize = 0;
    while k < roots.len()
        invariant
            k <= roots@.len(),
            groups@.len() == layers@.len(),
            all == roots@.map_values(|i: usize| i as int),
            all == marked(targets@) + marked(old(groups)@),
            forall|q: int| 0 <= q < roots@.len() ==> (#[trigger] roots@[q]) < layers@.len(),
            with_ancestors(layers@, all, old(groups)@) == with_ancestors(
                layers@,
                all.skip(k as int),
                groups@,
            ),
        decreases roots@.len() - k,
    {
        proof {
            assert(all.skip(k as int).drop_first() =~= all.skip(k + 1));
            assert(all.skip(k as int)[0] == roots@[k as int] as int);
            assert(roots@[k as int] < layers@.len());
        }
        let root = roots[k];
        match add_ancestors(layers, layers[root].parent_id, groups) {
            Ok(()) => {},
            Err(e) => {
                return Err(e);
            },
        }
        k = k + 1;
    }
    Ok(())
}


/// One layer of a scope: its id, stacking position and role.
#[derive(Debug, Clone, Copy, PartialEq, Eq, Structural)]
pub struct ScopeRecord {
    pub layer_id: LayerId,
    pub stack_index: u32,
    pub role: LayerRole,
}

/// The integer part of a normalised scope; geometry in fractional document
/// pixels is added by the caller.
#[derive(Debug, Clone)]
pub struct ScopeProjection {
    /// The explicitly chosen layers, in stacking order (none for a region).
    pub item_layer_ids: Vec<LayerId>,
    pub target_layer_ids: Vec<LayerId>,
    pub selected_group_ids: Vec<LayerId>,
    pub group_refs: Vec<LayerId>,
    /// Left, top, right and bottom of the union of the targets with a positive area.
    pub target_union: Option<(i64, i64, i64, i64)>,
    pub warnings: Vec<SelectionWarning>,
    pub records: Vec<ScopeRecord>,
    pub text_layer_count: u32,
}

/// The ids of the marked layers, in stacking order.
pub open spec fn marked_ids(layers: Seq<LayerNode>, marks: Seq<bool>) -> Seq<LayerId> {
    marked(marks).map_values(|i: int| layers[i].id)
}

/// The ids of the marked layers, in stacking order.
fn ids_of(layers: &[LayerNode], marks: &Vec<bool>) -> (v: Vec<LayerId>)
    requires
        marks@.len() == layers@.len(),
    ensures
        v@ == marked_ids(layers@, marks@),
{
    let positions = marked_positions(marks);
    proof {
        lemma_marked_range(marks@);
    }
    let mut v: Vec<LayerId> = Vec::new();
    let mut k: usize = 0;
    while k < positions.len()
        invariant
            k <= positions@.len(),
            positions@.map_values(|i: usize| i as int) == marked(marks@),
            marks@.len() == layers@.len(),
            forall|q: int| 0 <= q < marked(marks@).len() ==> 0 <= #[trigger] marked(marks@)[q] < marks@.len(),
            v@ == marked_ids(layers@, marks@).take(k as int),
        decreases positions@.len() - k,
    {
        proof {
            assert(marked(marks@)[k as int] == positions@[k as int] as int);
        }
        v.push(layers[positions[k]].id);
        proof {
            assert(v@ =~= marked_ids(layers@, marks@).take(k + 1));
        }
        k = k + 1;
    }
    proof {
        assert(marked_ids(layers@, marks@).take(k as int) =~= marked_ids(layers@, marks@));
    }
    v
}

/// The union of the bounds of the marked layers with a positive area, as
/// left, top, right and bottom, if there is any.
pub open spec fn union_of(layers: Seq<LayerNode>, marks: Seq<bool>) -> Option<(int, int, int, int)>
    decreases marks.len(),
{
    if marks.len() == 0 || marks.len() > layers.len() {
        None
    } else {
        let rest = union_of(layers, marks.drop_last());
        let b = layers[marks.len() - 1].bounds;
        if marks.last() && b.width > 0 && b.height > 0 {
            let r = (b.x as int, b.y as int, b.x + b.width, b.y + b.height);
            match rest {
                None => Some(r),
                Some((x, y, right, bottom)) => Some(
                    (
                        if x < r.0 {
                            x
                        } else {
                            r.0
                        },
                        if y < r.1 {
                            y
                        } else {
                            r.1
                        },
                        if right > r.2 {
                            right
                        } else {
                            r.2
                        },
                        if bottom > r.3 {
                            bottom
                        } else {
                            r.3
                        },
                    ),
                ),
            }
        } else {
            rest
        }
    }
}

/// Union bounds stay within what i32 coordinates and u32 sizes allow.
pub open spec fn union_fits(u: Option<(int, int, int, int)>) -> bool {
    match u {
        None => true,
        Some((x, y, right, bottom)) => i32::MIN <= x && i32::MIN <= y && right <= i32::MAX
            + u32::MAX && bottom <= i32::MAX + u32::MAX,
    }
}

/// The union of the positive-area bounds of the marked layers.
fn target_union(layers: &[LayerNode], marks: &Vec<bool>) -> (u: Option<(i64, i64, i64, i64)>)
    requires
        marks@.len() == layers@.len(),
    ensures
        match union_of(layers@, marks@) {
            None => u is None,
            Some((x, y, right, bottom)) => u matches Some(a) && a.0 == x && a.1 == y && a.2 == right
                && a.3 == bottom,
        },
{
    let mut acc: Option<(i64, i64, i64, i64)> = None;
    let mut i: usize = 0;
    while i < marks.len()
        invariant
            i <= marks@.len(),
            marks@.len() == layers@.len(),
            union_fits(union_of(layers@, marks@.take(i as int))),
            match union_of(layers@, marks@.take(i as int)) {
                None => acc is None,
                Some((x, y, right, bottom)) => acc matches Some(a) && a.0 == x && a.1 == y && a.2
                    == right && a.3 == bottom,
            },
        decreases marks@.len() - i,
    {
        proof {
            assert(marks@.take(i + 1).drop_last() =~= marks@.take(i as int));
            assert(marks@.take(i + 1).last() == marks@[i as int]);
        }
        let b = layers[i].bounds;
        if marks[i] && b.width > 0 && b.height > 0 {
            let rx = b.x as i64;
            let ry = b.y as i64;
            let rr = b.x as i64 + b.width as i64;
            let rb = b.y as i64 + b.height as i64;
            acc = match acc {
                None => Some((rx, ry, rr, rb)),
                Some((x, y, right, bottom)) => Some(
                    (
                        if x < rx {
                            x
                        } else {
                            rx
                        },
                        if y < ry {
                            y
                        } else {
                            ry
                        },
                        if right > rr {
                            right
                        } else {
                            rr
                        },
                        if bottom > rb {
                            bottom
                        } else {
                            rb
                        },
                    ),
                ),
            };
        }
        i = i + 1;
    }
    proof {
        assert(marks@.take(i as int) =~= marks@);
    }
    acc
}

/// The marks of either sequence.
pub open spec fn either(a: Seq<bool>, b: Seq<bool>) -> Seq<bool> {
    Seq::new(a.len(), |i: int| a[i] || b[i])
}

/// The records of a scope: every target and structure group in stacking order.
pub open spec fn scope_records(layers: Seq<LayerNode>, targets: Seq<bool>, groups: Seq<bool>) -> Seq<
    ScopeRecord,
> {
    marked(either(targets, groups)).map_values(
        |i: int|
            ScopeRecord {
                layer_id: layers[i].id,
                stack_index: i as u32,
                role: if targets[i] {
                    LayerRole::Target
                } else {
                    LayerRole::Structure
                },
            },
    )
}

/// The number of marked text layers.
pub open spec fn text_count(layers: Seq<LayerNode>, marks: Seq<bool>) -> nat {
    count_marks(Seq::new(marks.len(), |i: int| marks[i] && layers[i].kind == LayerKind::Text))
}

/// The text count counts text layers among the marked ones and nothing else:
/// no marks, or marks on layers of other kinds only, count zero; marking one
/// more text layer adds one; marking one more layer of another kind adds
/// nothing. These fix the count for every marking.
pub proof fn text_count_counts_marked_text_layers(layers: Seq<LayerNode>, marks: Seq<bool>, i: int)
    requires
        marks.len() == layers.len(),
    ensures
        (forall|j: int| 0 <= j < marks.len() && #[trigger] marks[j] ==> layers[j].kind
            != LayerKind::Text) ==> text_count(layers, marks) == 0,
        text_count(layers, marks) <= count_marks(marks),
        0 <= i < marks.len() && !marks[i] ==> text_count(layers, marks.update(i, true)) == text_count(
            layers,
            marks,
        ) + if layers[i].kind == LayerKind::Text {
            1nat
        } else {
            0nat
        },
{
    let f = Seq::new(marks.len(), |j: int| marks[j] && layers[j].kind == LayerKind::Text);
    if forall|j: int| 0 <= j < marks.len() && #[trigger] marks[j] ==> layers[j].kind != LayerKind::Text {
        lemma_count_none(f);
    }
    lemma_count_le(f, marks);
    if 0 <= i < marks.len() && !marks[i] {
        let m2 = marks.update(i, true);
        let f2 = Seq::new(m2.len(), |j: int| m2[j] && layers[j].kind == LayerKind::Text);
        if layers[i].kind == LayerKind::Text {
            assert(f2 =~= f.update(i, true));
            lemma_count_marks(f, i);
        } else {
            assert(f2 =~= f);
        }
    }
}

/// Marks that imply other marks are no more numerous.
proof fn lemma_count_le(a: Seq<bool>, b: Seq<bool>)
    requires
        a.len() == b.len(),
        forall|j: int| 0 <= j < a.len() && #[trigger] a[j] ==> b[j],
    ensures
        count_marks(a) <= count_marks(b),
    decreases a.len(),
{
    if a.len() > 0 {
        lemma_count_le(a.drop_last(), b.drop_last());
    }
}

/// Whether a marked layer has an unresolved pixel dependency.
pub open spec fn has_dependency(layers: Seq<LayerNode>, marks: Seq<bool>) -> bool {
    exists|i: int| 0 <= i < marks.len() && #[trigger] marks[i] && layers[i].pixel_dependency
}

/// The fixed warnings of a scope: geometric bounds only, no reference bounds
/// when there are none, and unresolved pixel dependencies.
pub open spec fn scope_warnings(
    layers: Seq<LayerNode>,
    targets: Seq<bool>,
    has_reference: bool,
) -> Seq<SelectionWarning> {
    let base = seq![SelectionWarning::GeometricBoundsOnly];
    let with_reference = if has_reference {
        base
    } else {
        base.push(SelectionWarning::NoReferenceBounds)
    };
    if has_dependency(layers, targets) {
        with_reference.push(SelectionWarning::PixelDependenciesUnresolved)
    } else {
        with_reference
    }
}


/// Whether `p` is the projection of the given marks: ids in stacking order,
/// the target union, the warnings, the records and the text count.
pub open spec fn projects(
    p: ScopeProjection,
    layers: Seq<LayerNode>,
    explicit: Seq<bool>,
    targets: Seq<bool>,
    groups: Seq<bool>,
    selected: Seq<bool>,
    has_reference: bool,
) -> bool {
    &&& p.item_layer_ids@ == marked_ids(layers, explicit)
    &&& p.target_layer_ids@ == marked_ids(layers, targets)
    &&& p.selected_group_ids@ == marked_ids(layers, selected)
    &&& p.group_refs@ == marked_ids(layers, groups)
    &&& match union_of(layers, targets) {
        None => p.target_union is None,
        Some((x, y, right, bottom)) => p.target_union matches Some(a) && a.0 == x && a.1 == y
            && a.2 == right && a.3 == bottom,
    }
    &&& p.warnings@ == scope_warnings(
        layers,
        targets,
        has_reference || union_of(layers, targets) is Some,
    )
    &&& p.records@ == scope_records(layers, targets, groups)
    &&& p.text_layer_count == text_count(layers, targets)
}

/// Counts the marks.
fn count_of(marks: &Vec<bool>) -> (n: usize)
    ensures
        n == count_marks(marks@),
{
    let mut n: usize = 0;
    let mut i: usize = 0;
    while i < marks.len()
        invariant
            i <= marks@.len(),
            n == count_marks(marks@.take(i as int)),
            n <= i,
        decreases marks@.len() - i,
    {
        proof {
            assert(marks@.take(i + 1).drop_last() =~= marks@.take(i as int));
            assert(marks@.take(i + 1).last() == marks@[i as int]);
        }
        if marks[i] {
            n = n + 1;
        }
        i = i + 1;
    }
    proof {
        assert(marks@.take(i as int) =~= marks@);
    }
    n
}

/// The records of every target and structure group in stacking order.
fn records_of(layers: &[LayerNode], targets: &Vec<bool>, groups: &Vec<bool>) -> (v: Vec<ScopeRecord>)
    requires
        targets@.len() == layers@.len(),
        groups@.len() == layers@.len(),
        layers@.len() <= u32::MAX,
    ensures
        v@ == scope_records(layers@, targets@, groups@),
{
    let n = layers.len();
    let mut both: Vec<bool> = Vec::new();
    let mut i: usize = 0;
    while i < n
        invariant
            i <= n,
            n == layers@.len(),
            targets@.len() == n,
            groups@.len() == n,
            both@ == either(targets@, groups@).take(i as int),
        decreases n - i,
    {
        both.push(targets[i] || groups[i]);
        proof {
            assert(both@ =~= either(targets@, groups@).take(i + 1));
        }
        i = i + 1;
    }
    proof {
        assert(either(targets@, groups@).take(i as int) =~= either(targets@, groups@));
        lemma_marked_range(both@);
    }
    let positions = marked_positions(&both);
    let mut v: Vec<ScopeRecord> = Vec::new();
    let mut k: usize = 0;
    while k < positions.len()
        invariant
            k <= positions@.len(),
            n == layers@.len(),
            n <= u32::MAX,
            targets@.len() == n,
            both@ == either(targets@, groups@),
            positions@.map_values(|i: usize| i as int) == marked(both@),
            forall|q: int| 0 <= q < marked(both@).len() ==> 0 <= #[trigger] marked(both@)[q] < n,
            v@ == scope_records(layers@, targets@, groups@).take(k as int),
        decreases positions@.len() - k,
    {
        let p = positions[k];
        proof {
            assert(marked(both@)[k as int] == p as int);
        }
        let role = if targets[p] {
            LayerRole::Target
        } else {
            LayerRole::Structure
        };
        v.push(ScopeRecord { layer_id: layers[p].id, stack_index: p as u32, role });
        proof {
            assert(v@ =~= scope_records(layers@, targets@, groups@).take(k + 1));
        }
        k = k + 1;
    }
    proof {
        assert(scope_records(layers@, targets@, groups@).take(k as int) =~= scope_records(
            layers@,
            targets@,
            groups@,
        ));
    }
    v
}

/// The number of marked text layers.
fn text_layers(layers: &[LayerNode], marks: &Vec<bool>) -> (n: u32)
    requires
        marks@.len() == layers@.len(),
        layers@.len() <= u32::MAX,
    ensures
        n == text_count(layers@, marks@),
{
    let mut texts: Vec<bool> = Vec::new();
    let mut i: usize = 0;
    let ghost want = Seq::new(marks@.len(), |i: int| marks@[i] && layers@[i].kind == LayerKind::Text);
    while i < marks.len()
        invariant
            i <= marks@.len(),
            marks@.len() == layers@.len(),
            want == Seq::new(marks@.len(), |i: int| marks@[i] && layers@[i].kind == LayerKind::Text),
            texts@ == want.take(i as int),
        decreases marks@.len() - i,
    {
        texts.push(marks[i] && layers[i].kind == LayerKind::Text);
        proof {
            assert(texts@ =~= want.take(i + 1));
        }
        i = i + 1;
    }
    proof {
        assert(want.take(i as int) =~= want);
        lemma_count_bound(texts@);
    }
    count_of(&texts) as u32
}

/// Whether a marked layer has an unresolved pixel dependency.
fn any_dependency(layers: &[LayerNode], marks: &Vec<bool>) -> (b: bool)
    requires
        marks@.len() == layers@.len(),
    ensures
        b == has_dependency(layers@, marks@),
{
    let mut i: usize = 0;
    while i < marks.len()
        invariant
            i <= marks@.len(),
            marks@.len() == layers@.len(),
            forall|j: int| 0 <= j < i ==> !(#[trigger] marks@[j] && layers@[j].pixel_dependency),
        decreases marks@.len() - i,
    {
        if marks[i] && layers[i].pixel_dependency {
            return true;
        }
        i = i + 1;
    }
    false
}

/// Completes and projects a scope: adds ancestor groups of every target and
/// group, checks the projected layer quota, and lists ids, records, warnings,
/// the target union and the number of text targets.
pub fn project_scope(
    layers: &[LayerNode],
    explicit: &Vec<bool>,
    targets: &Vec<bool>,
    groups: Vec<bool>,
    selected: &Vec<bool>,
    has_reference: bool,
    config: SelectionConfig,
) -> (r: Result<ScopeProjection, SelectionError>)
    requires
        explicit@.len() == layers@.len(),
        targets@.len() == layers@.len(),
        groups@.len() == layers@.len(),
        selected@.len() == layers@.len(),
        layers@.len() <= u32::MAX,
    ensures
        match with_ancestors(layers@, marked(targets@) + marked(groups@), groups@) {
            Err(m) => r matches Err(SelectionError::InvalidInput(msg)) && msg@ == m,
            Ok(g) => if count_marks(targets@) + count_marks(g) > config.max_scope_layers {
                r matches Err(SelectionError::Document(DocumentError::ResourceLimit { resource, limit }))
                    && resource@ == PROJECTED_LAYERS@ && limit == config.max_scope_layers as u64
            } else {
                r matches Ok(p) && projects(
                    p,
                    layers@,
                    explicit@,
                    targets@,
                    g,
                    selected@,
                    has_reference,
                )
            },
        },
{
    let mut groups = groups;
    match complete_groups(layers, targets, &mut groups) {
        Ok(()) => {},
        Err(e) => {
            return Err(e);
        },
    }
    let target_total = count_of(targets);
    let group_total = count_of(&groups);
    proof {
        lemma_count_bound(targets@);
        lemma_count_bound(groups@);
    }
    if target_total as u64 + group_total as u64 > config.max_scope_layers as u64 {
        return Err(limit(PROJECTED_LAYERS, config.max_scope_layers as u64));
    }
    let union = target_union(layers, targets);
    let mut warnings: Vec<SelectionWarning> = Vec::new();
    warnings.push(SelectionWarning::GeometricBoundsOnly);
    if !(has_reference || union.is_some()) {
        warnings.push(SelectionWarning::NoReferenceBounds);
    }
    if any_dependency(layers, targets) {
        warnings.push(SelectionWarning::PixelDependenciesUnresolved);
    }
    let projection = ScopeProjection {
        item_layer_ids: ids_of(layers, explicit),
        target_layer_ids: ids_of(layers, targets),
        selected_group_ids: ids_of(layers, selected),
        group_refs: ids_of(layers, &groups),
        target_union: union,
        warnings,
        records: records_of(layers, targets, &groups),
        text_layer_count: text_layers(layers, targets),
    };
    proof {
        assert(projection.warnings@ =~= scope_warnings(
            layers@,
            targets@,
            has_reference || union_of(layers@, targets@) is Some,
        ));
    }
    Ok(projection)
}

/// The layers that a list of references chooses.
pub open spec fn explicit_spec(layers: Seq<LayerNode>, refs: Seq<LayerReference>) -> Seq<bool> {
    Seq::new(
        layers.len(),
        |i: int| exists|k: int| 0 <= k < refs.len() && position(layers, refs[k].layer_id) == Some(i),
    )
}

/// Reached, effectively visible non-groups: the targets.
pub open spec fn targets_spec(layers: Seq<LayerNode>, explicit: Seq<bool>) -> Seq<bool> {
    Seq::new(
        layers.len(),
        |i: int| reachable(layers, explicit, i) && layers[i].effective_visible && layers[i].kind
            != LayerKind::Group,
    )
}

/// Reached, effectively visible groups.
pub open spec fn groups_spec(layers: Seq<LayerNode>, explicit: Seq<bool>) -> Seq<bool> {
    Seq::new(
        layers.len(),
        |i: int| reachable(layers, explicit, i) && layers[i].effective_visible && layers[i].kind
            == LayerKind::Group,
    )
}

/// Explicitly chosen groups, visible or not.
pub open spec fn selected_spec(layers: Seq<LayerNode>, explicit: Seq<bool>) -> Seq<bool> {
    Seq::new(layers.len(), |i: int| explicit[i] && layers[i].kind == LayerKind::Group)
}

/// Normalises an explicit layer choice of one fixed revision: every
/// reference must name a layer of this document revision; chosen layers and
/// the children of chosen or reached visible groups become targets or
/// groups; explicit groups are kept as selected groups; ancestors of every
/// target and group are added as structure.
pub fn normalize_layers(
    layers: &[LayerNode],
    document_id: DocumentId,
    revision_id: RevisionId,
    refs: &[LayerReference],
    config: SelectionConfig,
) -> (r: Result<ScopeProjection, SelectionError>)
    requires
        layers@.len() <= u32::MAX,
    ensures
        if refs@.len() == 0 {
            r matches Err(SelectionError::InvalidInput(m)) && m@ == EMPTY_LAYER_LIST@
        } else if refs@.len() > config.max_items {
            r matches Err(SelectionError::Document(DocumentError::ResourceLimit { resource, limit }))
                && resource@ == RAW_ITEMS@ && limit == config.max_items as u64
        } else {
            match first_bad_reference(layers@, document_id, revision_id, refs@) {
                Some((k, true)) => r matches Err(SelectionError::InvalidInput(m)) && m@
                    == FOREIGN_LAYER@,
                Some((k, false)) => r matches Err(
                    SelectionError::Document(DocumentError::LayerNotFound(id)),
                ) && id == refs@[k].layer_id,
                None => {
                    let e = explicit_spec(layers@, refs@);
                    let t = targets_spec(layers@, e);
                    let g0 = groups_spec(layers@, e);
                    match with_ancestors(layers@, marked(t) + marked(g0), g0) {
                        Err(m) => r matches Err(SelectionError::InvalidInput(msg)) && msg@ == m,
                        Ok(g) => if count_marks(t) + count_marks(g) > config.max_scope_layers {
                            r matches Err(
                                SelectionError::Document(DocumentError::ResourceLimit { resource, limit }),
                            ) && resource@ == PROJECTED_LAYERS@ && limit == config.max_scope_layers as u64
                        } else {
                            r matches Ok(p) && projects(
                                p,
                                layers@,
                                e,
                                t,
                                g,
                                selected_spec(layers@, e),
                                false,
                            )
                        },
                    }
                },
            }
        },
{
    let explicit = match explicit_marks(layers, document_id, revision_id, refs, config) {
        Ok(marks) => marks,
        Err(e) => {
            return Err(e);
        },
    };
    proof {
        assert(explicit@ =~= explicit_spec(layers@, refs@));
    }
    let visited = reached_layers(layers, &explicit);
    let n = layers.len();
    let mut targets: Vec<bool> = Vec::new();
    let mut groups: Vec<bool> = Vec::new();
    let mut selected: Vec<bool> = Vec::new();
    let mut i: usize = 0;
    while i < n
        invariant
            i <= n,
            n == layers@.len(),
            explicit@.len() == n,
            visited@.len() == n,
            forall|j: int|
                0 <= j < n ==> (#[trigger] visited@[j] <==> reachable(layers@, explicit@, j)),
            targets@ == targets_spec(layers@, explicit@).take(i as int),
            groups@ == groups_spec(layers@, explicit@).take(i as int),
            selected@ == selected_spec(layers@, explicit@).take(i as int),
        decreases n - i,
    {
        let visible = visited[i] && layers[i].effective_visible;
        let group = layers[i].kind == LayerKind::Group;
        targets.push(visible && !group);
        groups.push(visible && group);
        selected.push(explicit[i] && group);
        proof {
            assert(targets@ =~= targets_spec(layers@, explicit@).take(i + 1));
            assert(groups@ =~= groups_spec(layers@, explicit@).take(i + 1));
            assert(selected@ =~= selected_spec(layers@, explicit@).take(i + 1));
        }
        i = i + 1;
    }
    proof {
        assert(targets_spec(layers@, explicit@).take(i as int) =~= targets_spec(layers@, explicit@));
        assert(groups_spec(layers@, explicit@).take(i as int) =~= groups_spec(layers@, explicit@));
        assert(selected_spec(layers@, explicit@).take(i as int) =~= selected_spec(layers@, explicit@));
    }
    project_scope(layers, &explicit, &targets, groups, &selected, false, config)
}

} // verus!
