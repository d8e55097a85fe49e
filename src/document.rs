use vstd::prelude::*;
use crate::level::{assemble_level, dangling_in, is_dense, is_level_doc, level_resolves, LevelDoc};
use crate::order::{insert_position, lemma_insert_sorted, lemma_name_lt_total, name_lt, sorted_by_name};
use crate::rekey::LevelChild;

verus! {

/// The format version written by this library.
pub const FORMAT_VERSION: u64 = 2;

/// A level of the live scene: its name and metadata components, which may be
/// absent, and its children in traversal order.
pub struct SceneLevel<V, L, Me, W, Mo, X> {
    pub name: Option<String>,
    pub extra: Option<X>,
    pub children: Vec<LevelChild<V, L, Me, W, Mo>>,
}

/// An entity marked as the root of a building map, with its levels in
/// traversal order.
pub struct MapRoot<V, L, Me, W, Mo, X, C> {
    pub name: Option<String>,
    pub crowd_sim: Option<C>,
    pub levels: Vec<SceneLevel<V, L, Me, W, Mo, X>>,
}

/// The persisted building map. `levels` is keyed by level name, in ascending
/// order of names.
pub struct Document<V, L, Me, W, Mo, X, C> {
    pub name: String,
    pub version: u64,
    pub crowd_sim: C,
    pub levels: Vec<(String, LevelDoc<V, L, Me, W, Mo, X>)>,
}

/// A component that a save needs and that the scene did not hold.
#[derive(PartialEq, Eq, Structural, Clone, Copy, Debug)]
pub enum Component {
    MapName,
    CrowdSim,
    LevelName,
    LevelExtra,
}

/// Why a save was aborted. Nothing is persisted in any of these cases.
#[derive(Debug)]
pub enum SaveError {
    /// The scene holds no map root.
    NoRoot,
    /// The scene holds more than one map root.
    MultipleRoots { count: usize },
    /// The root (`index` is `None`) or the level at that position lacks a component.
    MissingComponent { index: Option<usize>, component: Component },
    /// Two levels carry this name.
    DuplicateLevel { name: String },
    /// An entity of the level refers to a vertex identifier that the level does not hold.
    DanglingReference { level: String, vertex: usize },
}

/// The name of a level that has one.
pub open spec fn name_of<V, L, Me, W, Mo, X>(l: SceneLevel<V, L, Me, W, Mo, X>) -> Seq<char> {
    (l.name->0)@
}

/// The root and each of its levels hold every component that a save reads.
pub open spec fn root_complete<V, L, Me, W, Mo, X, C>(r: MapRoot<V, L, Me, W, Mo, X, C>) -> bool {
    &&& r.name is Some
    &&& r.crowd_sim is Some
    &&& forall|i: int|
        0 <= i < r.levels@.len() ==> (#[trigger] r.levels@[i]).name is Some
            && r.levels@[i].extra is Some
}

/// No two levels of the root share a name.
pub open spec fn names_distinct<V, L, Me, W, Mo, X, C>(r: MapRoot<V, L, Me, W, Mo, X, C>) -> bool {
    forall|i: int, j: int|
        0 <= i < j < r.levels@.len() ==> name_of(#[trigger] r.levels@[i]) != name_of(
            #[trigger] r.levels@[j],
        )
}

/// Every level of the root refers only to its own vertices.
pub open spec fn levels_resolve<V, L, Me, W, Mo, X, C>(r: MapRoot<V, L, Me, W, Mo, X, C>) -> bool {
    forall|i: int| 0 <= i < r.levels@.len() ==> level_resolves((#[trigger] r.levels@[i]).children@)
}

/// `e` is the persisted form of the live level `l`, under its name.
pub open spec fn level_saved_as<V, L, Me, W, Mo, X>(
    l: SceneLevel<V, L, Me, W, Mo, X>,
    e: (String, LevelDoc<V, L, Me, W, Mo, X>),
) -> bool {
    &&& e.0@ == name_of(l)
    &&& is_level_doc(l.children@, l.extra->0, e.1)
    &&& is_dense(e.1)
}

/// Some entry of `levels` is the persisted form of the live level `l`.
pub open spec fn saved_among<V, L, Me, W, Mo, X>(
    l: SceneLevel<V, L, Me, W, Mo, X>,
    levels: Seq<(String, LevelDoc<V, L, Me, W, Mo, X>)>,
) -> bool {
    exists|k: int| 0 <= k < levels.len() && #[trigger] level_saved_as(l, levels[k])
}

/// `e` is the persisted form of some live level of `ls`.
pub open spec fn saved_from<V, L, Me, W, Mo, X>(
    ls: Seq<SceneLevel<V, L, Me, W, Mo, X>>,
    e: (String, LevelDoc<V, L, Me, W, Mo, X>),
) -> bool {
    exists|i: int| 0 <= i < ls.len() && #[trigger] level_saved_as(ls[i], e)
}

/// `d` is the persisted form of the complete root `r`: one saved level for
/// each level of `r`, in ascending order of names whatever the scene order.
pub open spec fn is_document_of<V, L, Me, W, Mo, X, C>(
    r: MapRoot<V, L, Me, W, Mo, X, C>,
    d: Document<V, L, Me, W, Mo, X, C>,
) -> bool {
    &&& d.name@ == (r.name->0)@
    &&& d.version == FORMAT_VERSION
    &&& d.crowd_sim == r.crowd_sim->0
    &&& d.levels@.len() == r.levels@.len()
    &&& sorted_by_name(d.levels@)
    &&& forall|i: int| 0 <= i < r.levels@.len() ==> saved_among(#[trigger] r.levels@[i], d.levels@)
    &&& forall|k: int| 0 <= k < d.levels@.len() ==> saved_from(r.levels@, #[trigger] d.levels@[k])
}

/// Where each level went: position `q` of `out` holds the saved form of level
/// `idx[q]` of `ls`, and level `k` of `ls` is saved at position `pos[k]`.
pub open spec fn placed<V, L, Me, W, Mo, X>(
    ls: Seq<SceneLevel<V, L, Me, W, Mo, X>>,
    n: int,
    out: Seq<(String, LevelDoc<V, L, Me, W, Mo, X>)>,
    idx: Seq<int>,
    pos: Seq<int>,
) -> bool {
    &&& out.len() == n && idx.len() == n && pos.len() == n
    &&& forall|q: int|
        #![trigger out[q]]
        #![trigger idx[q]]
        0 <= q < n ==> 0 <= idx[q] < n && level_saved_as(ls[idx[q]], out[q])
    &&& forall|k: int|
        #![trigger pos[k]]
        0 <= k < n ==> 0 <= pos[k] < n && level_saved_as(ls[k], out[pos[k]])
}

/// The positions `pos` after an insertion at `p` of level `pos.len()`.
pub open spec fn shifted(pos: Seq<int>, p: int) -> Seq<int> {
    Seq::new(pos.len(), |k: int| if pos[k] >= p { pos[k] + 1 } else { pos[k] }).push(p)
}

proof fn lemma_place_level<V, L, Me, W, Mo, X>(
    ls: Seq<SceneLevel<V, L, Me, W, Mo, X>>,
    n: int,
    out: Seq<(String, LevelDoc<V, L, Me, W, Mo, X>)>,
    idx: Seq<int>,
    pos: Seq<int>,
    p: int,
    e: (String, LevelDoc<V, L, Me, W, Mo, X>),
)
    requires
        0 <= n < ls.len(),
        0 <= p <= n,
        placed(ls, n, out, idx, pos),
        level_saved_as(ls[n], e),
    ensures
        placed(ls, n + 1, out.insert(p, e), idx.insert(p, n), shifted(pos, p)),
{
    let o2 = out.insert(p, e);
    let i2 = idx.insert(p, n);
    let p2 = shifted(pos, p);
    assert(o2.len() == n + 1);
    assert(i2.len() == n + 1);
    assert(p2.len() == n + 1);
    assert forall|q: int| #![trigger o2[q]] #![trigger i2[q]] 0 <= q < n + 1 implies 0 <= i2[q] < n + 1
        && level_saved_as(ls[i2[q]], o2[q]) by {
        if q < p {
            assert(o2[q] == out[q] && i2[q] == idx[q]);
        } else if q > p {
            assert(o2[q] == out[q - 1] && i2[q] == idx[q - 1]);
        } else {
            assert(i2[q] == n);
        }
    }
    assert forall|k: int| #![trigger p2[k]] 0 <= k < n + 1 implies 0 <= p2[k] < n + 1
        && level_saved_as(ls[k], o2[p2[k]]) by {
        if k < n {
            assert(level_saved_as(ls[k], out[pos[k]]));
            if pos[k] >= p {
                assert(o2[pos[k] + 1] == out[pos[k]]);
            } else {
                assert(o2[pos[k]] == out[pos[k]]);
            }
        }
    }
}

/// The root (`level` is `None`) or its level at position `level` lacks `c`.
pub open spec fn lacks<V, L, Me, W, Mo, X, C>(
    r: MapRoot<V, L, Me, W, Mo, X, C>,
    level: Option<usize>,
    c: Component,
) -> bool {
    match level {
        None => (c == Component::MapName && r.name is None) || (c == Component::CrowdSim
            && r.crowd_sim is None),
        Some(i) => i < r.levels@.len() && ((c == Component::LevelName && r.levels@[i as int].name is None)
            || (c == Component::LevelExtra && r.levels@[i as int].extra is None)),
    }
}

/// Finds a component that the root or one of its levels lacks.
pub fn find_missing_component<V, L, Me, W, Mo, X, C>(root: &MapRoot<V, L, Me, W, Mo, X, C>) -> (r:
    Option<(Option<usize>, Component)>)
    ensures
        r is None <==> root_complete(*root),
        match r {
            Some((level, c)) => lacks(*root, level, c),
            None => true,
        },
{
    if root.name.is_none() {
        return Some((None, Component::MapName));
    }
    if root.crowd_sim.is_none() {
        return Some((None, Component::CrowdSim));
    }
    let mut i: usize = 0;
    while i < root.levels.len()
        invariant
            i <= root.levels@.len(),
            forall|k: int|
                0 <= k < i ==> (#[trigger] root.levels@[k]).name is Some
                    && root.levels@[k].extra is Some,
        decreases root.levels@.len() - i,
    {
        if root.levels[i].name.is_none() {
            return Some((Some(i), Component::LevelName));
        }
        if root.levels[i].extra.is_none() {
            return Some((Some(i), Component::LevelExtra));
        }
        i = i + 1;
    }
    None
}

/// Finds a name that two levels of a complete root share.
pub fn find_duplicate_name<V, L, Me, W, Mo, X, C>(root: &MapRoot<V, L, Me, W, Mo, X, C>) -> (r:
    Option<String>)
    requires
        root_complete(*root),
    ensures
        r is None <==> names_distinct(*root),
        match r {
            Some(n) => exists|i: int, j: int|
                0 <= i < j < root.levels@.len() && name_of(#[trigger] root.levels@[i]) == n@
                    && name_of(#[trigger] root.levels@[j]) == n@,
            None => true,
        },
{
    let n = root.levels.len();
    let mut j: usize = 0;
    while j < n
        invariant
            n == root.levels@.len(),
            j <= n,
            root_complete(*root),
            forall|a: int, b: int|
                0 <= a < b < j ==> name_of(#[trigger] root.levels@[a]) != name_of(
                    #[trigger] root.levels@[b],
                ),
        decreases n - j,
    {
        let name_j = root.levels[j].name.as_ref().unwrap();
        let mut i: usize = 0;
        while i < j
            invariant
                n == root.levels@.len(),
                i <= j < n,
                root_complete(*root),
                name_j@ == name_of(root.levels@[j as int]),
                forall|a: int| 0 <= a < i ==> name_of(#[trigger] root.levels@[a]) != name_of(root.levels@[j as int]),
            decreases j - i,
        {
            let name_i = root.levels[i].name.as_ref().unwrap();
            if *name_i == *name_j {
                proof {
                    assert(name_of(root.levels@[i as int]) == name_of(root.levels@[j as int]));
                }
                return Some(name_j.clone());
            }
            i = i + 1;
        }
        j = j + 1;
    }
    None
}

/// A save of the scene whose map roots are `roots` succeeds.
pub open spec fn save_succeeds<V, L, Me, W, Mo, X, C>(roots: Seq<MapRoot<V, L, Me, W, Mo, X, C>>) -> bool {
    &&& roots.len() == 1
    &&& root_complete(roots[0])
    &&& names_distinct(roots[0])
    &&& levels_resolve(roots[0])
}

/// `r` is the outcome of saving the scene whose map roots are `roots`.
pub open spec fn is_save_outcome<V, L, Me, W, Mo, X, C>(
    roots: Seq<MapRoot<V, L, Me, W, Mo, X, C>>,
    r: Result<Document<V, L, Me, W, Mo, X, C>, SaveError>,
) -> bool {
    &&& (r is Ok <==> save_succeeds(roots))
    &&& match r {
            Ok(d) => is_document_of(roots[0], d),
            Err(SaveError::NoRoot) => roots.len() == 0,
            Err(SaveError::MultipleRoots { count }) => roots.len() > 1 && count == roots.len(),
            Err(SaveError::MissingComponent { index, component }) => roots.len() == 1 && lacks(
                roots[0],
                index,
                component,
            ),
            Err(SaveError::DuplicateLevel { name }) => {
                &&& roots.len() == 1
                &&& root_complete(roots[0])
                &&& exists|i: int, j: int|
                    0 <= i < j < roots[0].levels@.len() && name_of(#[trigger] roots[0].levels@[i])
                        == name@ && name_of(#[trigger] roots[0].levels@[j]) == name@
            },
            Err(SaveError::DanglingReference { level, vertex }) => {
                &&& roots.len() == 1
                &&& root_complete(roots[0])
                &&& names_distinct(roots[0])
                &&& exists|i: int|
                    0 <= i < roots[0].levels@.len() && name_of(#[trigger] roots[0].levels@[i])
                        == level@ && dangling_in(roots[0].levels@[i].children@, vertex)
            },
        }
}

/// Assembles the persisted document from the map roots of the scene. Exactly
/// one root is needed; each failure aborts the whole save, checked in this
/// order: the number of roots, missing components, duplicate level names,
/// dangling vertex references.
pub fn assemble_document<V, L, Me, W, Mo, X, C>(roots: Vec<MapRoot<V, L, Me, W, Mo, X, C>>) -> (r:
    Result<Document<V, L, Me, W, Mo, X, C>, SaveError>)
    ensures
        is_save_outcome(roots@, r),
{
    let count = roots.len();
    if count == 0 {
        return Err(SaveError::NoRoot);
    }
    if count > 1 {
        return Err(SaveError::MultipleRoots { count });
    }
    let ghost rs = roots@;
    let mut pending = roots;
    let root = match pending.pop() {
        Some(root) => root,
        None => {
            return Err(SaveError::NoRoot);
        },
    };
    match find_missing_component(&root) {
        Some((index, component)) => {
            return Err(SaveError::MissingComponent { index, component });
        },
        None => {},
    }
    match find_duplicate_name(&root) {
        Some(name) => {
            return Err(SaveError::DuplicateLevel { name });
        },
        None => {},
    }
    let ghost r0 = root;
    let MapRoot { name, crowd_sim, levels } = root;
    let name = name.unwrap();
    let crowd_sim = crowd_sim.unwrap();
    let ghost ls = levels@;
    let mut rest = levels;
    let mut out: Vec<(String, LevelDoc<V, L, Me, W, Mo, X>)> = Vec::new();
    let ghost mut i: int = 0;
    let ghost mut idx: Seq<int> = Seq::empty();
    let ghost mut pos: Seq<int> = Seq::empty();
    while rest.len() > 0
        invariant
            rs == roots@,
            rs.len() == 1,
            r0 == rs[0],
            ls == r0.levels@,
            root_complete(r0),
            names_distinct(r0),
            0 <= i <= ls.len(),
            rest@ == ls.subrange(i, ls.len() as int),
            forall|k: int| 0 <= k < i ==> level_resolves((#[trigger] ls[k]).children@),
            placed(ls, i, out@, idx, pos),
            sorted_by_name(out@),
        decreases rest@.len(),
    {
        let lvl = rest.remove(0);
        proof {
            assert(lvl == ls[i]);
        }
        let SceneLevel { name: level_name, extra, children } = lvl;
        let level_name = level_name.unwrap();
        let extra = extra.unwrap();
        match assemble_level(children, extra) {
            Ok(d) => {
                let p = insert_position(&out, &level_name);
                let e = (level_name, d);
                proof {
                    if p > 0 {
                        let j = idx[p - 1];
                        assert(level_saved_as(ls[j], out@[p - 1]));
                        if j < i {
                            assert(name_of(r0.levels@[j]) != name_of(r0.levels@[i]));
                        }
                        lemma_name_lt_total(out@[p - 1].0@, e.0@);
                    }
                    lemma_insert_sorted(out@, p as int, e);
                    lemma_place_level(ls, i, out@, idx, pos, p as int, e);
                    idx = idx.insert(p as int, i);
                    pos = shifted(pos, p as int);
                }
                out.insert(p, e);
            },
            Err(vertex) => {
                return Err(SaveError::DanglingReference { level: level_name, vertex });
            },
        }
        proof {
            i = i + 1;
            assert(rest@ =~= ls.subrange(i, ls.len() as int));
        }
    }
    let d = Document { name, version: FORMAT_VERSION, crowd_sim, levels: out };
    proof {
        assert(i == ls.len());
        assert(d.levels@ == out@);
        assert forall|k: int| 0 <= k < r0.levels@.len() implies saved_among(#[trigger] r0.levels@[k], d.levels@) by {
            assert(level_saved_as(ls[k], d.levels@[pos[k]]));
        }
        assert forall|q: int| 0 <= q < d.levels@.len() implies saved_from(r0.levels@, #[trigger] d.levels@[q]) by {
            assert(level_saved_as(ls[idx[q]], d.levels@[q]));
        }
        assert(d.name@ == (r0.name->0)@);
        assert(d.crowd_sim == r0.crowd_sim->0);
        assert(d.levels@.len() == r0.levels@.len());
        assert(sorted_by_name(d.levels@));
        assert(is_document_of(r0, d));
    }
    Ok(d)
}


/// Two levels with one name never save: the save aborts, and once every
/// component is present it aborts on the duplicate name.
pub proof fn lemma_duplicate_names_never_save<V, L, Me, W, Mo, X, C>(
    roots: Seq<MapRoot<V, L, Me, W, Mo, X, C>>,
    r: Result<Document<V, L, Me, W, Mo, X, C>, SaveError>,
    i: int,
    j: int,
)
    requires
        roots.len() == 1,
        0 <= i < j < roots[0].levels@.len(),
        roots[0].levels@[i].name is Some,
        roots[0].levels@[j].name is Some,
        name_of(roots[0].levels@[i]) == name_of(roots[0].levels@[j]),
        is_save_outcome(roots, r),
    ensures
        r is Err,
        root_complete(roots[0]) ==> r matches Err(SaveError::DuplicateLevel { .. }),
{
    assert(!names_distinct(roots[0]));
}

} // verus!
