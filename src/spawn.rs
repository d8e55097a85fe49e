use vstd::prelude::*;
use crate::document::{
    is_document_of, level_saved_as, name_of, names_distinct, saved_among, root_complete, save_succeeds, Document, MapRoot,
    SceneLevel,
};
use crate::level::{
    edges_within, is_dense, level_resolves, child_resolves, lanes_of, measurements_of,
    models_of, vertex_data, walls_of, LevelDoc,
};
use crate::rekey::{vertex_ids, Edge, LevelChild};

verus! {

/// Every reference of `c`, if it has any, is below `n`.
pub open spec fn child_within<V, L, Me, W, Mo>(c: LevelChild<V, L, Me, W, Mo>, n: nat) -> bool {
    match c {
        LevelChild::Lane(e) => e.start < n && e.end < n,
        LevelChild::Measurement(e) => e.start < n && e.end < n,
        LevelChild::Wall(e) => e.start < n && e.end < n,
        _ => true,
    }
}

/// `l` is the live level that loading the persisted level `d` named `name` spawns:
/// the vertex at position `p` gets the live identifier `p`, every other
/// entity is kept in order.
pub open spec fn is_spawn_of_level<V, L, Me, W, Mo, X>(
    name: Seq<char>,
    d: LevelDoc<V, L, Me, W, Mo, X>,
    l: SceneLevel<V, L, Me, W, Mo, X>,
) -> bool {
    let cs = l.children@;
    let n = d.vertices@.len();
    &&& l.name is Some && (l.name->0)@ == name
    &&& l.extra == Some(d.extra)
    &&& vertex_ids(cs).len() == n
    &&& forall|p: int| 0 <= p < n ==> #[trigger] vertex_ids(cs)[p] == p
    &&& vertex_data(cs) == d.vertices@
    &&& lanes_of(cs) == d.lanes@
    &&& measurements_of(cs) == d.measurements@
    &&& walls_of(cs) == d.walls@
    &&& models_of(cs) == d.models@
    &&& is_dense(d) ==> forall|i: int| 0 <= i < cs.len() ==> child_within(#[trigger] cs[i], n)
}

/// `r` is the live map root that loading the document `d` spawns.
pub open spec fn is_spawn_of<V, L, Me, W, Mo, X, C>(
    d: Document<V, L, Me, W, Mo, X, C>,
    r: MapRoot<V, L, Me, W, Mo, X, C>,
) -> bool {
    &&& r.name is Some && (r.name->0)@ == d.name@
    &&& r.crowd_sim == Some(d.crowd_sim)
    &&& r.levels@.len() == d.levels@.len()
    &&& forall|i: int|
        0 <= i < d.levels@.len() ==> is_spawn_of_level(
            d.levels@[i].0@,
            d.levels@[i].1,
            #[trigger] r.levels@[i],
        )
}

proof fn lemma_push<V, L, Me, W, Mo>(cs: Seq<LevelChild<V, L, Me, W, Mo>>, c: LevelChild<V, L, Me, W, Mo>)
    ensures
        cs.push(c).drop_last() == cs,
        cs.push(c).last() == c,
        vertex_ids(cs.push(c)) == match c {
            LevelChild::Vertex { id, data: _ } => vertex_ids(cs).push(id),
            _ => vertex_ids(cs),
        },
        vertex_data(cs.push(c)) == match c {
            LevelChild::Vertex { id: _, data } => vertex_data(cs).push(data),
            _ => vertex_data(cs),
        },
        lanes_of(cs.push(c)) == match c {
            LevelChild::Lane(e) => lanes_of(cs).push(e),
            _ => lanes_of(cs),
        },
        measurements_of(cs.push(c)) == match c {
            LevelChild::Measurement(e) => measurements_of(cs).push(e),
            _ => measurements_of(cs),
        },
        walls_of(cs.push(c)) == match c {
            LevelChild::Wall(e) => walls_of(cs).push(e),
            _ => walls_of(cs),
        },
        models_of(cs.push(c)) == match c {
            LevelChild::Model(m) => models_of(cs).push(m),
            _ => models_of(cs),
        },
{
    assert(cs.push(c).drop_last() =~= cs);
}

/// Pushing a child whose references are below `n` keeps every child's below `n`.
proof fn lemma_push_within<V, L, Me, W, Mo>(
    cs: Seq<LevelChild<V, L, Me, W, Mo>>,
    c: LevelChild<V, L, Me, W, Mo>,
    n: nat,
)
    ensures
        (forall|i: int| 0 <= i < cs.len() ==> child_within(#[trigger] cs[i], n)) && child_within(c, n)
            ==> forall|i: int| 0 <= i < cs.push(c).len() ==> child_within(#[trigger] cs.push(c)[i], n),
{
    if (forall|i: int| 0 <= i < cs.len() ==> child_within(#[trigger] cs[i], n)) && child_within(c, n) {
        assert forall|i: int| 0 <= i < cs.push(c).len() implies child_within(#[trigger] cs.push(c)[i], n) by {
            if i < cs.len() {
                assert(cs.push(c)[i] == cs[i]);
            }
        }
    }
}

/// Spawns the live level of the persisted level `d` named `name`: its
/// vertices first, the vertex at position `p` with the live identifier `p`,
/// then its lanes, measurements, walls and models.
pub fn spawn_level<V, L, Me, W, Mo, X>(name: String, d: LevelDoc<V, L, Me, W, Mo, X>) -> (l: SceneLevel<
    V,
    L,
    Me,
    W,
    Mo,
    X,
>)
    ensures
        is_spawn_of_level(name@, d, l),
{
    let ghost dense = is_dense(d);
    let ghost n = d.vertices@.len();
    let LevelDoc { vertices, lanes, measurements, walls, models, extra, renumbering: _ } = d;
    let ghost vs = vertices@;
    let total: usize = vertices.len();
    let mut cs: Vec<LevelChild<V, L, Me, W, Mo>> = Vec::new();
    let mut rest = vertices;
    let mut k: usize = 0;
    while rest.len() > 0
        invariant
            k <= vs.len(),
            vs.len() == total,
            n == vs.len(),
            rest@ == vs.subrange(k as int, vs.len() as int),
            vertex_ids(cs@).len() == k,
            forall|p: int| 0 <= p < k ==> #[trigger] vertex_ids(cs@)[p] == p,
            vertex_data(cs@) == vs.subrange(0, k as int),
            lanes_of(cs@) == Seq::<Edge<L>>::empty(),
            measurements_of(cs@) == Seq::<Edge<Me>>::empty(),
            walls_of(cs@) == Seq::<Edge<W>>::empty(),
            models_of(cs@) == Seq::<Mo>::empty(),
            forall|i: int| 0 <= i < cs@.len() ==> child_within(#[trigger] cs@[i], n),
        decreases rest@.len(),
    {
        let data = rest.remove(0);
        proof {
            lemma_push(cs@, LevelChild::Vertex { id: k, data });
            lemma_push_within(cs@, LevelChild::Vertex { id: k, data }, n);
            assert(vs.subrange(0, k + 1) =~= vs.subrange(0, k as int).push(data));
        }
        cs.push(LevelChild::Vertex { id: k, data });
        k = k + 1;
        proof {
            assert(rest@ =~= vs.subrange(k as int, vs.len() as int));
        }
    }
    proof {
        assert(vs.subrange(0, vs.len() as int) =~= vs);
    }
    let ghost lanes0 = lanes@;
    let mut rest = lanes;
    let ghost mut j: int = 0;
    while rest.len() > 0
        invariant
            0 <= j <= lanes0.len(),
            rest@ == lanes0.subrange(j, lanes0.len() as int),
            vertex_ids(cs@).len() == n,
            forall|p: int| 0 <= p < n ==> #[trigger] vertex_ids(cs@)[p] == p,
            vertex_data(cs@) == vs,
            lanes_of(cs@) == lanes0.subrange(0, j),
            measurements_of(cs@) == Seq::<Edge<Me>>::empty(),
            walls_of(cs@) == Seq::<Edge<W>>::empty(),
            models_of(cs@) == Seq::<Mo>::empty(),
            dense ==> edges_within(lanes0, n),
            dense ==> forall|i: int| 0 <= i < cs@.len() ==> child_within(#[trigger] cs@[i], n),
        decreases rest@.len(),
    {
        let e = rest.remove(0);
        proof {
            lemma_push(cs@, LevelChild::Lane(e));
            assert(lanes0.subrange(0, j + 1) =~= lanes0.subrange(0, j).push(e));
            if dense {
                assert(e == lanes0[j]);
                lemma_push_within(cs@, LevelChild::Lane(e), n);
            }
        }
        cs.push(LevelChild::Lane(e));
        proof {
            j = j + 1;
            assert(rest@ =~= lanes0.subrange(j, lanes0.len() as int));
        }
    }
    proof {
        assert(lanes0.subrange(0, lanes0.len() as int) =~= lanes0);
    }
    let ghost measurements0 = measurements@;
    let mut rest = measurements;
    let ghost mut j: int = 0;
    while rest.len() > 0
        invariant
            0 <= j <= measurements0.len(),
            rest@ == measurements0.subrange(j, measurements0.len() as int),
            vertex_ids(cs@).len() == n,
            forall|p: int| 0 <= p < n ==> #[trigger] vertex_ids(cs@)[p] == p,
            vertex_data(cs@) == vs,
            lanes_of(cs@) == lanes0,
            measurements_of(cs@) == measurements0.subrange(0, j),
            walls_of(cs@) == Seq::<Edge<W>>::empty(),
            models_of(cs@) == Seq::<Mo>::empty(),
            dense ==> edges_within(measurements0, n),
            dense ==> forall|i: int| 0 <= i < cs@.len() ==> child_within(#[trigger] cs@[i], n),
        decreases rest@.len(),
    {
        let e = rest.remove(0);
        proof {
            lemma_push(cs@, LevelChild::Measurement(e));
            assert(measurements0.subrange(0, j + 1) =~= measurements0.subrange(0, j).push(e));
            if dense {
                assert(e == measurements0[j]);
                lemma_push_within(cs@, LevelChild::Measurement(e), n);
            }
        }
        cs.push(LevelChild::Measurement(e));
        proof {
            j = j + 1;
            assert(rest@ =~= measurements0.subrange(j, measurements0.len() as int));
        }
    }
    proof {
        assert(measurements0.subrange(0, measurements0.len() as int) =~= measurements0);
    }
    let ghost walls0 = walls@;
    let mut rest = walls;
    let ghost mut j: int = 0;
    while rest.len() > 0
        invariant
            0 <= j <= walls0.len(),
            rest@ == walls0.subrange(j, walls0.len() as int),
            vertex_ids(cs@).len() == n,
            forall|p: int| 0 <= p < n ==> #[trigger] vertex_ids(cs@)[p] == p,
            vertex_data(cs@) == vs,
            lanes_of(cs@) == lanes0,
            measurements_of(cs@) == measurements0,
            walls_of(cs@) == walls0.subrange(0, j),
            models_of(cs@) == Seq::<Mo>::empty(),
            dense ==> edges_within(walls0, n),
            dense ==> forall|i: int| 0 <= i < cs@.len() ==> child_within(#[trigger] cs@[i], n),
        decreases rest@.len(),
    {
        let e = rest.remove(0);
        proof {
            lemma_push(cs@, LevelChild::Wall(e));
            assert(walls0.subrange(0, j + 1) =~= walls0.subrange(0, j).push(e));
            if dense {
                assert(e == walls0[j]);
                lemma_push_within(cs@, LevelChild::Wall(e), n);
            }
        }
        cs.push(LevelChild::Wall(e));
        proof {
            j = j + 1;
            assert(rest@ =~= walls0.subrange(j, walls0.len() as int));
        }
    }
    proof {
        assert(walls0.subrange(0, walls0.len() as int) =~= walls0);
    }
    let ghost mos = models@;
    let mut rest = models;
    let ghost mut j: int = 0;
    while rest.len() > 0
        invariant
            0 <= j <= mos.len(),
            rest@ == mos.subrange(j, mos.len() as int),
            vertex_ids(cs@).len() == n,
            forall|p: int| 0 <= p < n ==> #[trigger] vertex_ids(cs@)[p] == p,
            vertex_data(cs@) == vs,
            lanes_of(cs@) == lanes0,
            measurements_of(cs@) == measurements0,
            walls_of(cs@) == walls0,
            models_of(cs@) == mos.subrange(0, j),
            dense ==> forall|i: int| 0 <= i < cs@.len() ==> child_within(#[trigger] cs@[i], n),
        decreases rest@.len(),
    {
        let m = rest.remove(0);
        proof {
            lemma_push(cs@, LevelChild::Model(m));
            lemma_push_within(cs@, LevelChild::Model(m), n);
            assert(mos.subrange(0, j + 1) =~= mos.subrange(0, j).push(m));
        }
        cs.push(LevelChild::Model(m));
        proof {
            j = j + 1;
            assert(rest@ =~= mos.subrange(j, mos.len() as int));
        }
    }
    proof {
        assert(mos.subrange(0, mos.len() as int) =~= mos);
    }
    SceneLevel { name: Some(name), extra: Some(extra), children: cs }
}

/// Spawns the live map root of the document `d`, one level after another.
pub fn spawn_map<V, L, Me, W, Mo, X, C>(d: Document<V, L, Me, W, Mo, X, C>) -> (r: MapRoot<
    V,
    L,
    Me,
    W,
    Mo,
    X,
    C,
>)
    ensures
        is_spawn_of(d, r),
{
    let ghost d0 = d;
    let Document { name, version: _, crowd_sim, levels } = d;
    let ghost ls = levels@;
    let mut rest = levels;
    let mut out: Vec<SceneLevel<V, L, Me, W, Mo, X>> = Vec::new();
    let ghost mut i: int = 0;
    while rest.len() > 0
        invariant
            ls == d0.levels@,
            0 <= i <= ls.len(),
            rest@ == ls.subrange(i, ls.len() as int),
            out@.len() == i,
            forall|k: int|
                0 <= k < i ==> is_spawn_of_level(ls[k].0@, ls[k].1, #[trigger] out@[k]),
        decreases rest@.len(),
    {
        let (level_name, level) = rest.remove(0);
        proof {
            assert((level_name, level) == ls[i]);
        }
        out.push(spawn_level(level_name, level));
        proof {
            i = i + 1;
            assert(rest@ =~= ls.subrange(i, ls.len() as int));
        }
    }
    MapRoot { name: Some(name), crowd_sim: Some(crowd_sim), levels: out }
}

/// The document can be loaded: its level names are distinct and every
/// reference of every level indexes that level's vertex list.
pub open spec fn document_well_formed<V, L, Me, W, Mo, X, C>(d: Document<V, L, Me, W, Mo, X, C>) -> bool {
    &&& forall|i: int, j: int|
        0 <= i < j < d.levels@.len() ==> (#[trigger] d.levels@[i]).0@ != (#[trigger] d.levels@[j]).0@
    &&& forall|i: int| 0 <= i < d.levels@.len() ==> is_dense((#[trigger] d.levels@[i]).1)
}

/// `b` carries the name of `a` and as many vertices, lanes, measurements,
/// walls and models.
pub open spec fn same_level_counts<V, L, Me, W, Mo, X>(
    a: (String, LevelDoc<V, L, Me, W, Mo, X>),
    b: (String, LevelDoc<V, L, Me, W, Mo, X>),
) -> bool {
    &&& b.0@ == a.0@
    &&& b.1.vertices@.len() == a.1.vertices@.len()
    &&& b.1.lanes@.len() == a.1.lanes@.len()
    &&& b.1.measurements@.len() == a.1.measurements@.len()
    &&& b.1.walls@.len() == a.1.walls@.len()
    &&& b.1.models@.len() == a.1.models@.len()
}

/// Some level of `levels` has the name and the counts of `a`.
pub open spec fn counted_among<V, L, Me, W, Mo, X>(
    a: (String, LevelDoc<V, L, Me, W, Mo, X>),
    levels: Seq<(String, LevelDoc<V, L, Me, W, Mo, X>)>,
) -> bool {
    exists|k: int| 0 <= k < levels.len() && #[trigger] same_level_counts(a, levels[k])
}

/// `saved` has as many levels as `d`, and for each level of `d` one with its
/// name and, per kind, as many entities.
pub open spec fn same_counts<V, L, Me, W, Mo, X, C>(
    d: Document<V, L, Me, W, Mo, X, C>,
    saved: Document<V, L, Me, W, Mo, X, C>,
) -> bool {
    &&& saved.levels@.len() == d.levels@.len()
    &&& forall|i: int| 0 <= i < d.levels@.len() ==> counted_among(#[trigger] d.levels@[i], saved.levels@)
}

proof fn lemma_spawned_level_resolves<V, L, Me, W, Mo, X>(
    name: Seq<char>,
    d: LevelDoc<V, L, Me, W, Mo, X>,
    l: SceneLevel<V, L, Me, W, Mo, X>,
)
    requires
        is_spawn_of_level(name, d, l),
        is_dense(d),
    ensures
        level_resolves(l.children@),
{
    let cs = l.children@;
    let ids = vertex_ids(cs);
    let n = d.vertices@.len();
    assert forall|i: int| 0 <= i < cs.len() implies child_resolves(ids, #[trigger] cs[i]) by {
        assert(child_within(cs[i], n));
        match cs[i] {
            LevelChild::Lane(e) => {
                assert(ids[e.start as int] == e.start);
                assert(ids[e.end as int] == e.end);
            },
            LevelChild::Measurement(e) => {
                assert(ids[e.start as int] == e.start);
                assert(ids[e.end as int] == e.end);
            },
            LevelChild::Wall(e) => {
                assert(ids[e.start as int] == e.start);
                assert(ids[e.end as int] == e.end);
            },
            _ => {},
        }
    }
}

/// Loading a well-formed document, spawning it and saving it again without
/// edits succeeds, and keeps the level names and, per level, the number of
/// vertices, lanes, measurements, walls and models.
pub proof fn lemma_round_trip_counts<V, L, Me, W, Mo, X, C>(
    d: Document<V, L, Me, W, Mo, X, C>,
    r: MapRoot<V, L, Me, W, Mo, X, C>,
    saved: Document<V, L, Me, W, Mo, X, C>,
)
    requires
        document_well_formed(d),
        is_spawn_of(d, r),
    ensures
        save_succeeds(seq![r]),
        is_document_of(r, saved) ==> same_counts(d, saved),
{
    assert forall|i: int| 0 <= i < r.levels@.len() implies (#[trigger] r.levels@[i]).name is Some
        && r.levels@[i].extra is Some by {
        assert(is_spawn_of_level(d.levels@[i].0@, d.levels@[i].1, r.levels@[i]));
    }
    assert forall|i: int, j: int| 0 <= i < j < r.levels@.len() implies name_of(
        #[trigger] r.levels@[i],
    ) != name_of(#[trigger] r.levels@[j]) by {
        assert(is_spawn_of_level(d.levels@[i].0@, d.levels@[i].1, r.levels@[i]));
        assert(is_spawn_of_level(d.levels@[j].0@, d.levels@[j].1, r.levels@[j]));
        assert(d.levels@[i].0@ != d.levels@[j].0@);
    }
    assert forall|i: int| 0 <= i < r.levels@.len() implies level_resolves(
        (#[trigger] r.levels@[i]).children@,
    ) by {
        assert(is_spawn_of_level(d.levels@[i].0@, d.levels@[i].1, r.levels@[i]));
        assert(is_dense(d.levels@[i].1));
        lemma_spawned_level_resolves(d.levels@[i].0@, d.levels@[i].1, r.levels@[i]);
    }
    assert(root_complete(r));
    assert(names_distinct(r));
    assert(seq![r][0] == r);
    if is_document_of(r, saved) {
        assert forall|i: int| 0 <= i < d.levels@.len() implies counted_among(
            #[trigger] d.levels@[i],
            saved.levels@,
        ) by {
            assert(is_spawn_of_level(d.levels@[i].0@, d.levels@[i].1, r.levels@[i]));
            assert(saved_among(r.levels@[i], saved.levels@));
            let k = choose|k: int|
                0 <= k < saved.levels@.len() && #[trigger] level_saved_as(r.levels@[i], saved.levels@[k]);
            assert(same_level_counts(d.levels@[i], saved.levels@[k]));
        }
    }
}

} // verus!
