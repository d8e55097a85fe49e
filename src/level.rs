use vstd::prelude::*;
use crate::rekey::{collect_vertex_ids, is_rekey_map, rekey_map, edge_rekeyed, edge_resolves, rekey_edge, vertex_ids, Edge, LevelChild};

verus! {

/// One level of the persisted document: dense vertex list, rewritten
/// dependent entities, models, and the level's metadata (drawing, elevation,
/// flattening offsets) carried verbatim in `extra`.
pub struct LevelDoc<V, L, Me, W, Mo, X> {
    pub vertices: Vec<V>,
    pub lanes: Vec<Edge<L>>,
    pub measurements: Vec<Edge<Me>>,
    pub walls: Vec<Edge<W>>,
    pub models: Vec<Mo>,
    pub extra: X,
    /// The dense assignment that replaces the level's live vertex
    /// identifiers: position `k` holds the live identifier that became `k`.
    pub renumbering: Vec<usize>,
}

/// The vertex data among `cs`, in traversal order.
pub open spec fn vertex_data<V, L, Me, W, Mo>(cs: Seq<LevelChild<V, L, Me, W, Mo>>) -> Seq<V>
    decreases cs.len(),
{
    if cs.len() == 0 {
        Seq::empty()
    } else {
        let prefix = vertex_data(cs.drop_last());
        match cs.last() {
            LevelChild::Vertex { id: _, data } => prefix.push(data),
            _ => prefix,
        }
    }
}

/// The lanes among `cs`, in traversal order.
pub open spec fn lanes_of<V, L, Me, W, Mo>(cs: Seq<LevelChild<V, L, Me, W, Mo>>) -> Seq<Edge<L>>
    decreases cs.len(),
{
    if cs.len() == 0 {
        Seq::empty()
    } else {
        let prefix = lanes_of(cs.drop_last());
        match cs.last() {
            LevelChild::Lane(e) => prefix.push(e),
            _ => prefix,
        }
    }
}

/// The measurements among `cs`, in traversal order.
pub open spec fn measurements_of<V, L, Me, W, Mo>(cs: Seq<LevelChild<V, L, Me, W, Mo>>) -> Seq<
    Edge<Me>,
>
    decreases cs.len(),
{
    if cs.len() == 0 {
        Seq::empty()
    } else {
        let prefix = measurements_of(cs.drop_last());
        match cs.last() {
            LevelChild::Measurement(e) => prefix.push(e),
            _ => prefix,
        }
    }
}

/// The walls among `cs`, in traversal order.
pub open spec fn walls_of<V, L, Me, W, Mo>(cs: Seq<LevelChild<V, L, Me, W, Mo>>) -> Seq<Edge<W>>
    decreases cs.len(),
{
    if cs.len() == 0 {
        Seq::empty()
    } else {
        let prefix = walls_of(cs.drop_last());
        match cs.last() {
            LevelChild::Wall(e) => prefix.push(e),
            _ => prefix,
        }
    }
}

/// The models among `cs`, in traversal order.
pub open spec fn models_of<V, L, Me, W, Mo>(cs: Seq<LevelChild<V, L, Me, W, Mo>>) -> Seq<Mo>
    decreases cs.len(),
{
    if cs.len() == 0 {
        Seq::empty()
    } else {
        let prefix = models_of(cs.drop_last());
        match cs.last() {
            LevelChild::Model(m) => prefix.push(m),
            _ => prefix,
        }
    }
}

/// `c` refers to the live vertex identifier `id` through one of its endpoints.
pub open spec fn child_refers_to<V, L, Me, W, Mo>(c: LevelChild<V, L, Me, W, Mo>, id: usize) -> bool {
    match c {
        LevelChild::Lane(e) => e.start == id || e.end == id,
        LevelChild::Measurement(e) => e.start == id || e.end == id,
        LevelChild::Wall(e) => e.start == id || e.end == id,
        _ => false,
    }
}

/// Every endpoint of `c`, if it has any, is listed in `ids`.
pub open spec fn child_resolves<V, L, Me, W, Mo>(ids: Seq<usize>, c: LevelChild<V, L, Me, W, Mo>) -> bool {
    match c {
        LevelChild::Lane(e) => edge_resolves(ids, e),
        LevelChild::Measurement(e) => edge_resolves(ids, e),
        LevelChild::Wall(e) => edge_resolves(ids, e),
        _ => true,
    }
}

/// Every reference in the level `cs` points at a vertex of that same level.
pub open spec fn level_resolves<V, L, Me, W, Mo>(cs: Seq<LevelChild<V, L, Me, W, Mo>>) -> bool {
    forall|i: int| 0 <= i < cs.len() ==> child_resolves(vertex_ids(cs), #[trigger] cs[i])
}

/// `id` is a dangling reference of the level `cs`: some entity refers to it
/// and no vertex of the level carries it.
pub open spec fn dangling_in<V, L, Me, W, Mo>(cs: Seq<LevelChild<V, L, Me, W, Mo>>, id: usize) -> bool {
    &&& !vertex_ids(cs).contains(id)
    &&& exists|i: int| 0 <= i < cs.len() && child_refers_to(#[trigger] cs[i], id)
}

/// Every edge of `new` is the edge at the same position of `old`, relabelled
/// through `ids`.
pub open spec fn edges_rekeyed<A>(ids: Seq<usize>, old: Seq<Edge<A>>, new: Seq<Edge<A>>) -> bool {
    &&& new.len() == old.len()
    &&& forall|j: int| 0 <= j < new.len() ==> edge_rekeyed(ids, old[j], #[trigger] new[j])
}

/// The persisted form of the level with live children `cs` and metadata `extra`.
pub open spec fn is_level_doc<V, L, Me, W, Mo, X>(
    cs: Seq<LevelChild<V, L, Me, W, Mo>>,
    extra: X,
    d: LevelDoc<V, L, Me, W, Mo, X>,
) -> bool {
    let ids = vertex_ids(cs);
    &&& d.vertices@ == vertex_data(cs)
    &&& edges_rekeyed(ids, lanes_of(cs), d.lanes@)
    &&& edges_rekeyed(ids, measurements_of(cs), d.measurements@)
    &&& edges_rekeyed(ids, walls_of(cs), d.walls@)
    &&& d.models@ == models_of(cs)
    &&& d.extra == extra
    &&& d.renumbering@ == ids
}

/// Every reference of `es` is an index into a vertex list of length `n`.
pub open spec fn edges_within<A>(es: Seq<Edge<A>>, n: nat) -> bool {
    forall|j: int| 0 <= j < es.len() ==> #[trigger] es[j].start < n && es[j].end < n
}

/// Every reference pair of the level indexes into its own vertex list.
pub open spec fn is_dense<V, L, Me, W, Mo, X>(d: LevelDoc<V, L, Me, W, Mo, X>) -> bool {
    let n = d.vertices@.len();
    &&& edges_within(d.lanes@, n)
    &&& edges_within(d.measurements@, n)
    &&& edges_within(d.walls@, n)
}

proof fn lemma_vertex_counts<V, L, Me, W, Mo>(cs: Seq<LevelChild<V, L, Me, W, Mo>>)
    ensures
        vertex_ids(cs).len() == vertex_data(cs).len(),
    decreases cs.len(),
{
    if cs.len() > 0 {
        lemma_vertex_counts(cs.drop_last());
    }
}

/// Relabelled edges index into the `ids.len()` dense positions.
proof fn lemma_rekeyed_within<A>(ids: Seq<usize>, old: Seq<Edge<A>>, new: Seq<Edge<A>>)
    requires
        edges_rekeyed(ids, old, new),
    ensures
        edges_within(new, ids.len()),
{
    assert forall|j: int| 0 <= j < new.len() implies #[trigger] new[j].start < ids.len()
        && new[j].end < ids.len() by {
        assert(edge_rekeyed(ids, old[j], new[j]));
    }
}

/// A persisted level is dense: its references index its vertex list, with no gap
/// and nothing out of range.
pub proof fn lemma_level_doc_dense<V, L, Me, W, Mo, X>(
    cs: Seq<LevelChild<V, L, Me, W, Mo>>,
    extra: X,
    d: LevelDoc<V, L, Me, W, Mo, X>,
)
    requires
        is_level_doc(cs, extra, d),
    ensures
        is_dense(d),
{
    lemma_vertex_counts(cs);
    lemma_rekeyed_within(vertex_ids(cs), lanes_of(cs), d.lanes@);
    lemma_rekeyed_within(vertex_ids(cs), measurements_of(cs), d.measurements@);
    lemma_rekeyed_within(vertex_ids(cs), walls_of(cs), d.walls@);
}

/// Some vertex child of `cs` carries the live identifier `id` and the data `data`.
pub open spec fn carries<V, L, Me, W, Mo>(cs: Seq<LevelChild<V, L, Me, W, Mo>>, id: usize, data: V) -> bool {
    exists|k: int| 0 <= k < cs.len() && #[trigger] cs[k] == LevelChild::<V, L, Me, W, Mo>::Vertex { id, data }
}

/// Both endpoints of the relabelled edge `new` lead, in `vertices`, to the
/// vertices that the endpoints of `old` named in the live level `cs`.
pub open spec fn edge_preserved<V, L, Me, W, Mo, A>(
    cs: Seq<LevelChild<V, L, Me, W, Mo>>,
    vertices: Seq<V>,
    old: Edge<A>,
    new: Edge<A>,
) -> bool {
    &&& carries(cs, old.start, vertices[new.start as int])
    &&& carries(cs, old.end, vertices[new.end as int])
}

/// The dense position `p` holds the vertex child with the `p`-th live identifier and data.
proof fn lemma_vertex_at<V, L, Me, W, Mo>(cs: Seq<LevelChild<V, L, Me, W, Mo>>, p: int)
    requires
        0 <= p < vertex_ids(cs).len(),
    ensures
        p < vertex_data(cs).len(),
        carries(cs, vertex_ids(cs)[p], vertex_data(cs)[p]),
    decreases cs.len(),
{
    lemma_vertex_counts(cs);
    let prefix = cs.drop_last();
    lemma_vertex_counts(prefix);
    if p < vertex_ids(prefix).len() {
        lemma_vertex_at(prefix, p);
        let k = choose|k: int| 0 <= k < prefix.len() && #[trigger] prefix[k]
            == LevelChild::<V, L, Me, W, Mo>::Vertex { id: vertex_ids(prefix)[p], data: vertex_data(prefix)[p] };
        assert(cs[k] == prefix[k]);
    } else {
        assert(cs[cs.len() - 1] == cs.last());
    }
}

proof fn lemma_edges_preserved<V, L, Me, W, Mo, A>(
    cs: Seq<LevelChild<V, L, Me, W, Mo>>,
    vertices: Seq<V>,
    old: Seq<Edge<A>>,
    new: Seq<Edge<A>>,
)
    requires
        vertices == vertex_data(cs),
        edges_rekeyed(vertex_ids(cs), old, new),
    ensures
        forall|j: int| 0 <= j < new.len() ==> edge_preserved(cs, vertices, old[j], #[trigger] new[j]),
{
    assert forall|j: int| 0 <= j < new.len() implies edge_preserved(cs, vertices, old[j], #[trigger] new[j]) by {
        assert(edge_rekeyed(vertex_ids(cs), old[j], new[j]));
        lemma_vertex_at(cs, new[j].start as int);
        lemma_vertex_at(cs, new[j].end as int);
    }
}

/// Re-keying relabels and never reshuffles: every saved lane, measurement and
/// wall joins, in the saved vertex list, the very vertices that it joined in
/// the live level.
pub proof fn lemma_references_preserved<V, L, Me, W, Mo, X>(
    cs: Seq<LevelChild<V, L, Me, W, Mo>>,
    extra: X,
    d: LevelDoc<V, L, Me, W, Mo, X>,
)
    requires
        is_level_doc(cs, extra, d),
    ensures
        forall|j: int|
            0 <= j < d.lanes@.len() ==> edge_preserved(cs, d.vertices@, lanes_of(cs)[j], #[trigger] d.lanes@[j]),
        forall|j: int|
            0 <= j < d.measurements@.len() ==> edge_preserved(
                cs,
                d.vertices@,
                measurements_of(cs)[j],
                #[trigger] d.measurements@[j],
            ),
        forall|j: int|
            0 <= j < d.walls@.len() ==> edge_preserved(cs, d.vertices@, walls_of(cs)[j], #[trigger] d.walls@[j]),
{
    lemma_edges_preserved(cs, d.vertices@, lanes_of(cs), d.lanes@);
    lemma_edges_preserved(cs, d.vertices@, measurements_of(cs), d.measurements@);
    lemma_edges_preserved(cs, d.vertices@, walls_of(cs), d.walls@);
}

/// A child that refers to an identifier that no vertex of the level carries
/// makes that identifier dangling, and the level unresolved.
proof fn lemma_dangling_at<V, L, Me, W, Mo>(cs: Seq<LevelChild<V, L, Me, W, Mo>>, i: int, missing: usize)
    requires
        0 <= i < cs.len(),
        child_refers_to(cs[i], missing),
        !vertex_ids(cs).contains(missing),
    ensures
        dangling_in(cs, missing),
        !level_resolves(cs),
{
    assert(!child_resolves(vertex_ids(cs), cs[i]));
}

/// Builds the persisted form of one level from its live children, in two
/// passes: the first learns the dense identifier of every vertex, the second
/// rewrites every reference with it. A reference to a vertex that the level
/// does not hold fails with that live identifier.
pub fn assemble_level<V, L, Me, W, Mo, X>(children: Vec<LevelChild<V, L, Me, W, Mo>>, extra: X) -> (r:
    Result<LevelDoc<V, L, Me, W, Mo, X>, usize>)
    ensures
        r is Ok <==> level_resolves(children@),
        match r {
            Ok(d) => is_level_doc(children@, extra, d) && is_dense(d),
            Err(missing) => dangling_in(children@, missing),
        },
{
    let ghost cs = children@;
    let ids = collect_vertex_ids(&children);
    let map = rekey_map(&ids);
    let mut vertices: Vec<V> = Vec::new();
    let mut lanes: Vec<Edge<L>> = Vec::new();
    let mut measurements: Vec<Edge<Me>> = Vec::new();
    let mut walls: Vec<Edge<W>> = Vec::new();
    let mut models: Vec<Mo> = Vec::new();
    let mut rest = children;
    let ghost mut i: int = 0;
    while rest.len() > 0
        invariant
            0 <= i <= cs.len(),
            cs == children@,
            rest@ == cs.subrange(i, cs.len() as int),
            ids@ == vertex_ids(cs),
            is_rekey_map(ids@, map@),
            vertices@ == vertex_data(cs.subrange(0, i)),
            edges_rekeyed(ids@, lanes_of(cs.subrange(0, i)), lanes@),
            edges_rekeyed(ids@, measurements_of(cs.subrange(0, i)), measurements@),
            edges_rekeyed(ids@, walls_of(cs.subrange(0, i)), walls@),
            models@ == models_of(cs.subrange(0, i)),
            forall|k: int| 0 <= k < i ==> child_resolves(ids@, #[trigger] cs[k]),
        decreases rest@.len(),
    {
        let c = rest.remove(0);
        proof {
            assert(c == cs[i]);
            assert(cs.subrange(0, i + 1).drop_last() =~= cs.subrange(0, i));
            assert(cs.subrange(0, i + 1).last() == cs[i]);
        }
        match c {
            LevelChild::Vertex { id: _, data } => {
                vertices.push(data);
            },
            LevelChild::Lane(e) => {
                match rekey_edge(&map, e) {
                    Ok(n) => lanes.push(n),
                    Err(missing) => {
                        proof {
                            lemma_dangling_at(cs, i, missing);
                        }
                        return Err(missing);
                    },
                }
            },
            LevelChild::Measurement(e) => {
                match rekey_edge(&map, e) {
                    Ok(n) => measurements.push(n),
                    Err(missing) => {
                        proof {
                            lemma_dangling_at(cs, i, missing);
                        }
                        return Err(missing);
                    },
                }
            },
            LevelChild::Wall(e) => {
                match rekey_edge(&map, e) {
                    Ok(n) => walls.push(n),
                    Err(missing) => {
                        proof {
                            lemma_dangling_at(cs, i, missing);
                        }
                        return Err(missing);
                    },
                }
            },
            LevelChild::Model(m) => {
                models.push(m);
            },
        }
        proof {
            i = i + 1;
            assert(rest@ =~= cs.subrange(i, cs.len() as int));
        }
    }
    proof {
        assert(cs.subrange(0, i) =~= cs);
    }
    let d = LevelDoc { vertices, lanes, measurements, walls, models, extra, renumbering: ids };
    proof {
        lemma_level_doc_dense(cs, extra, d);
    }
    Ok(d)
}

} // verus!
