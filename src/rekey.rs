use std::collections::HashMap;
use vstd::prelude::*;
use vstd::std_specs::hash::group_hash_axioms;

verus! {

/// An entity that joins two vertices of its level (a lane, a wall or a
/// measurement), with the attributes of its own kind.
pub struct Edge<A> {
    pub start: usize,
    pub end: usize,
    pub attrs: A,
}

/// One child of a level in the live scene, in traversal order.
pub enum LevelChild<V, L, Me, W, Mo> {
    /// A vertex with its live, level-scoped identifier.
    Vertex { id: usize, data: V },
    Lane(Edge<L>),
    Measurement(Edge<Me>),
    Wall(Edge<W>),
    Model(Mo),
}

/// The live identifiers of the vertices among `cs`, in traversal order.
pub open spec fn vertex_ids<V, L, Me, W, Mo>(cs: Seq<LevelChild<V, L, Me, W, Mo>>) -> Seq<usize>
    decreases cs.len(),
{
    if cs.len() == 0 {
        Seq::empty()
    } else {
        let prefix = vertex_ids(cs.drop_last());
        match cs.last() {
            LevelChild::Vertex { id, data: _ } => prefix.push(id),
            _ => prefix,
        }
    }
}

/// `new` is where the dense sequence `ids` last holds the live identifier
/// `old`: should two vertices of a level carry one identifier, references
/// to it go to the later one in traversal order.
pub open spec fn maps_to(ids: Seq<usize>, old: usize, new: usize) -> bool {
    &&& new < ids.len()
    &&& ids[new as int] == old
    &&& forall|k: int| new < k < ids.len() ==> ids[k] != old
}

/// The edge `new` is `old` with both endpoints relabelled through `ids`.
pub open spec fn edge_rekeyed<A>(ids: Seq<usize>, old: Edge<A>, new: Edge<A>) -> bool {
    &&& maps_to(ids, old.start, new.start)
    &&& maps_to(ids, old.end, new.end)
    &&& new.attrs == old.attrs
}

/// Both endpoints of `e` are live identifiers listed in `ids`.
pub open spec fn edge_resolves<A>(ids: Seq<usize>, e: Edge<A>) -> bool {
    ids.contains(e.start) && ids.contains(e.end)
}

/// Collects the live identifiers of a level's vertices in traversal order:
/// the vertex at position `k` of the result receives the new identifier `k`.
pub fn collect_vertex_ids<V, L, Me, W, Mo>(children: &Vec<LevelChild<V, L, Me, W, Mo>>) -> (ids:
    Vec<usize>)
    ensures
        ids@ == vertex_ids(children@),
{
    let mut ids: Vec<usize> = Vec::new();
    let mut i: usize = 0;
    while i < children.len()
        invariant
            i <= children@.len(),
            ids@ == vertex_ids(children@.subrange(0, i as int)),
        decreases children@.len() - i,
    {
        assert(children@.subrange(0, i + 1).drop_last() =~= children@.subrange(0, i as int));
        match &children[i] {
            LevelChild::Vertex { id, data: _ } => {
                ids.push(*id);
            },
            _ => {},
        }
        i = i + 1;
    }
    assert(children@.subrange(0, children@.len() as int) =~= children@);
    ids
}

/// `m` maps each live identifier of `ids`, and nothing else, to its new,
/// dense identifier.
pub open spec fn is_rekey_map(ids: Seq<usize>, m: Map<usize, usize>) -> bool {
    &&& forall|old: usize| #[trigger] m.contains_key(old) <==> ids.contains(old)
    &&& forall|old: usize| m.contains_key(old) ==> maps_to(ids, old, #[trigger] m[old])
}

/// Builds the map from old to new identifiers of a level whose vertices carry
/// the live identifiers `ids`, in traversal order.
pub fn rekey_map(ids: &Vec<usize>) -> (m: HashMap<usize, usize>)
    ensures
        is_rekey_map(ids@, m@),
{
    broadcast use group_hash_axioms;

    let mut m: HashMap<usize, usize> = HashMap::new();
    let mut k: usize = 0;
    while k < ids.len()
        invariant
            k <= ids@.len(),
            forall|old: usize|
                #[trigger] m@.contains_key(old) <==> exists|j: int| 0 <= j < k && ids@[j] == old,
            forall|old: usize|
                m@.contains_key(old) ==> {
                    &&& #[trigger] m@[old] < k
                    &&& ids@[m@[old] as int] == old
                    &&& forall|j: int| m@[old] < j < k ==> ids@[j] != old
                },
        decreases ids@.len() - k,
    {
        m.insert(ids[k], k);
        k = k + 1;
    }
    m
}

/// Looks up the new, dense identifier of the live identifier `old`.
pub fn new_id_of(m: &HashMap<usize, usize>, old: usize) -> (r: Option<usize>)
    ensures
        r == if m@.contains_key(old) {
            Some(m@[old])
        } else {
            None
        },
{
    broadcast use group_hash_axioms;

    match m.get(&old) {
        Some(new) => Some(*new),
        None => None,
    }
}

/// Relabels both endpoints of `e` through `m`; on an endpoint that `m` does
/// not hold the error holds its live identifier, the start one first.
pub fn rekey_edge<A>(m: &HashMap<usize, usize>, e: Edge<A>) -> (r: Result<Edge<A>, usize>)
    ensures
        r is Ok <==> m@.contains_key(e.start) && m@.contains_key(e.end),
        match r {
            Ok(new) => new.start == m@[e.start] && new.end == m@[e.end] && new.attrs == e.attrs,
            Err(missing) => missing == if m@.contains_key(e.start) {
                e.end
            } else {
                e.start
            },
        },
{
    let start = match new_id_of(m, e.start) {
        Some(s) => s,
        None => {
            return Err(e.start);
        },
    };
    let end = match new_id_of(m, e.end) {
        Some(t) => t,
        None => {
            return Err(e.end);
        },
    };
    Ok(Edge { start, end, attrs: e.attrs })
}

} // verus!
