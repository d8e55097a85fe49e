use rmf_sandbox::document::{
    assemble_document, Component, Document, MapRoot, SaveError, SceneLevel, FORMAT_VERSION,
};
use rmf_sandbox::level::{assemble_level, LevelDoc};
use rmf_sandbox::rekey::{collect_vertex_ids, new_id_of, rekey_edge, rekey_map, Edge, LevelChild};
use rmf_sandbox::request::{save, SaveMap, SaveRequests};
use rmf_sandbox::spawn::{spawn_level, spawn_map};

type Child = LevelChild<&'static str, &'static str, &'static str, &'static str, &'static str>;
type Level = SceneLevel<&'static str, &'static str, &'static str, &'static str, &'static str, i32>;
type Root = MapRoot<&'static str, &'static str, &'static str, &'static str, &'static str, i32, u8>;
type Doc = Document<&'static str, &'static str, &'static str, &'static str, &'static str, i32, u8>;

fn vertex(id: usize, data: &'static str) -> Child {
    LevelChild::Vertex { id, data }
}

fn edge(start: usize, end: usize, attrs: &'static str) -> Edge<&'static str> {
    Edge { start, end, attrs }
}

fn level(name: &str, children: Vec<Child>) -> Level {
    SceneLevel { name: Some(name.to_string()), extra: Some(0), children }
}

fn root(levels: Vec<Level>) -> Root {
    MapRoot { name: Some("office".to_string()), crowd_sim: Some(7), levels }
}

fn pairs<A>(es: &[Edge<A>]) -> Vec<(usize, usize)> {
    es.iter().map(|e| (e.start, e.end)).collect()
}

fn office_level(name: &str) -> Level {
    level(
        name,
        vec![
            vertex(4, "a"),
            LevelChild::Lane(edge(9, 4, "l0")),
            vertex(9, "b"),
            LevelChild::Model("chair"),
            vertex(12, "c"),
            LevelChild::Wall(edge(12, 9, "w0")),
            LevelChild::Measurement(edge(4, 12, "m0")),
            LevelChild::Lane(edge(4, 12, "l1")),
        ],
    )
}

fn office_document() -> Doc {
    let saved: Doc = assemble_document(vec![root(vec![office_level("L2"), office_level("L1")])]).unwrap();
    saved
}

#[test]
fn test_save() {
    let map = office_document();
    let shape: Vec<(String, [usize; 5])> = map
        .levels
        .iter()
        .map(|(n, l)| {
            (
                n.clone(),
                [l.vertices.len(), l.lanes.len(), l.measurements.len(), l.walls.len(), l.models.len()],
            )
        })
        .collect();
    let spawned = spawn_map(map);
    let new_map = assemble_document(vec![spawned]).unwrap();
    assert!(new_map.levels.len() == shape.len());
    for ((name, level), (loaded_name, counts)) in new_map.levels.iter().zip(shape.iter()) {
        assert!(name == loaded_name);
        assert!(level.vertices.len() == counts[0]);
        assert!(level.lanes.len() == counts[1]);
        assert!(level.measurements.len() == counts[2]);
        assert!(level.walls.len() == counts[3]);
        assert!(level.models.len() == counts[4]);
    }
    assert_eq!(shape[0], ("L1".to_string(), [3, 2, 1, 1, 1]));
    assert_eq!(shape[1].0, "L2");
    assert_eq!(new_map.name, "office");
    assert_eq!(new_map.version, 2);
    assert_eq!(new_map.crowd_sim, 7);
}

#[test]
fn spawn_gives_positions_as_identifiers() {
    let l = spawn_level("L1".to_string(), office_document().levels.remove(0).1);
    assert_eq!(l.name.as_deref(), Some("L1"));
    assert_eq!(l.extra, Some(0));
    assert_eq!(collect_vertex_ids(&l.children), vec![0, 1, 2]);
    let d: LevelDoc<_, _, _, _, _, i32> = assemble_level(l.children, 0).unwrap();
    assert_eq!(d.vertices, vec!["a", "b", "c"]);
    assert_eq!(pairs(&d.lanes), vec![(1, 0), (0, 2)]);
    assert_eq!(pairs(&d.walls), vec![(2, 1)]);
}

#[test]
fn levels_are_saved_in_name_order() {
    let scene = root(vec![
        level("b", vec![vertex(1, "b1")]),
        level("a", vec![vertex(2, "a1"), vertex(3, "a2")]),
        level("B", vec![]),
        level("ab", vec![]),
    ]);
    let doc: Doc = assemble_document(vec![scene]).unwrap();
    let names: Vec<&str> = doc.levels.iter().map(|(n, _)| n.as_str()).collect();
    assert_eq!(names, vec!["B", "a", "ab", "b"]);
    assert_eq!(doc.levels[1].1.vertices, vec!["a1", "a2"]);
    assert_eq!(doc.levels[3].1.vertices, vec!["b1"]);
}

#[test]
fn end_to_end_example() {
    let children = vec![vertex(3, "v3"), vertex(7, "v7"), LevelChild::Lane(edge(7, 3, "lane"))];
    let d: LevelDoc<_, _, _, _, _, i32> = assemble_level(children, 5).unwrap();
    assert_eq!(d.vertices, vec!["v3", "v7"]);
    assert_eq!(pairs(&d.lanes), vec![(1, 0)]);
    assert_eq!(d.lanes[0].attrs, "lane");
    assert_eq!(d.extra, 5);
}

#[test]
fn sparse_ids_become_dense() {
    let children = vec![
        vertex(0, "p"),
        LevelChild::Wall(edge(5, 0, "w")),
        vertex(2, "q"),
        vertex(5, "r"),
        LevelChild::Measurement(edge(2, 5, "m")),
        LevelChild::Lane(edge(5, 2, "l")),
    ];
    assert_eq!(collect_vertex_ids(&children), vec![0, 2, 5]);
    let d: LevelDoc<_, _, _, _, _, i32> = assemble_level(children, 0).unwrap();
    assert_eq!(d.vertices, vec!["p", "q", "r"]);
    assert_eq!(pairs(&d.walls), vec![(2, 0)]);
    assert_eq!(pairs(&d.measurements), vec![(1, 2)]);
    assert_eq!(pairs(&d.lanes), vec![(2, 1)]);
}

#[test]
fn references_keep_their_vertices() {
    let children = vec![vertex(40, "x"), vertex(10, "y"), vertex(30, "z"), LevelChild::Lane(edge(30, 40, "l"))];
    let d: LevelDoc<_, _, _, _, _, i32> = assemble_level(children, 0).unwrap();
    let l = &d.lanes[0];
    assert_eq!(d.vertices[l.start], "z");
    assert_eq!(d.vertices[l.end], "x");
}

#[test]
fn unreferenced_vertex_keeps_an_identifier() {
    let children = vec![vertex(8, "lonely"), vertex(1, "used"), LevelChild::Lane(edge(1, 1, "loop"))];
    let d: LevelDoc<_, _, _, _, _, i32> = assemble_level(children, 0).unwrap();
    assert_eq!(d.vertices, vec!["lonely", "used"]);
    assert_eq!(pairs(&d.lanes), vec![(1, 1)]);
}

#[test]
fn empty_level_saves_empty_lists() {
    let d: LevelDoc<_, _, _, _, _, i32> = assemble_level(Vec::<Child>::new(), 3).unwrap();
    assert!(d.vertices.is_empty() && d.lanes.is_empty() && d.walls.is_empty());
    assert!(d.measurements.is_empty() && d.models.is_empty());
}

#[test]
fn dangling_reference_fails_the_level() {
    let children = vec![vertex(1, "a"), LevelChild::Lane(edge(1, 6, "l"))];
    assert_eq!(assemble_level::<_, _, &str, &str, &str, i32>(children, 0).err(), Some(6));
}

#[test]
fn new_id_lookup() {
    let ids = vec![9, 4, 9];
    let m = rekey_map(&ids);
    assert_eq!(new_id_of(&m, 9), Some(2));
    assert_eq!(new_id_of(&m, 4), Some(1));
    assert_eq!(new_id_of(&m, 5), None);
    let e = rekey_edge(&m, edge(4, 9, "x")).unwrap();
    assert_eq!((e.start, e.end, e.attrs), (1, 2, "x"));
    assert_eq!(rekey_edge(&m, edge(4, 3, "x")).err(), Some(3));
    assert_eq!(rekey_edge(&m, edge(8, 3, "x")).err(), Some(8));
}

#[test]
fn repeated_vertex_id_resolves_to_the_later_vertex() {
    let children = vec![vertex(5, "first"), vertex(5, "second"), LevelChild::Lane(edge(5, 5, "l"))];
    let d: LevelDoc<_, _, _, _, _, i32> = assemble_level(children, 0).unwrap();
    assert_eq!(d.vertices, vec!["first", "second"]);
    assert_eq!(pairs(&d.lanes), vec![(1, 1)]);
    assert_eq!(d.renumbering, vec![5, 5]);
}

#[test]
fn renumbering_lists_the_replaced_ids() {
    let children = vec![vertex(0, "p"), vertex(2, "q"), vertex(5, "r"), LevelChild::Lane(edge(5, 0, "l"))];
    let d: LevelDoc<_, _, _, _, _, i32> = assemble_level(children, 0).unwrap();
    assert_eq!(d.renumbering, vec![0, 2, 5]);
}

#[test]
fn no_root_is_refused() {
    let r = assemble_document(Vec::<Root>::new());
    assert!(matches!(r, Err(SaveError::NoRoot)));
}

#[test]
fn two_roots_are_refused() {
    let r = assemble_document(vec![root(vec![]), root(vec![])]);
    assert!(matches!(r, Err(SaveError::MultipleRoots { count: 2 })));
}

#[test]
fn duplicate_level_names_are_refused() {
    let r = assemble_document(vec![root(vec![office_level("L1"), office_level("L3"), office_level("L1")])]);
    match r {
        Err(SaveError::DuplicateLevel { name }) => assert_eq!(name, "L1"),
        _ => panic!("expected a duplicate level error"),
    }
}

#[test]
fn missing_components_are_refused() {
    let mut r = root(vec![office_level("L1")]);
    r.crowd_sim = None;
    assert!(matches!(
        assemble_document(vec![r]),
        Err(SaveError::MissingComponent { index: None, component: Component::CrowdSim })
    ));
    let mut r = root(vec![office_level("L1")]);
    r.name = None;
    assert!(matches!(
        assemble_document(vec![r]),
        Err(SaveError::MissingComponent { index: None, component: Component::MapName })
    ));
    let mut l = office_level("L2");
    l.extra = None;
    assert!(matches!(
        assemble_document(vec![root(vec![office_level("L1"), l])]),
        Err(SaveError::MissingComponent { index: Some(1), component: Component::LevelExtra })
    ));
    let mut l = office_level("L2");
    l.name = None;
    assert!(matches!(
        assemble_document(vec![root(vec![l])]),
        Err(SaveError::MissingComponent { index: Some(0), component: Component::LevelName })
    ));
}

#[test]
fn dangling_reference_aborts_the_save() {
    let bad = level("B1", vec![vertex(0, "a"), LevelChild::Wall(edge(0, 3, "w"))]);
    match assemble_document(vec![root(vec![office_level("L1"), bad])]) {
        Err(SaveError::DanglingReference { level, vertex }) => {
            assert_eq!(level, "B1");
            assert_eq!(vertex, 3);
        }
        _ => panic!("expected a dangling reference error"),
    }
}

#[test]
fn vertex_of_another_level_is_dangling() {
    let a = level("A", vec![vertex(1, "a")]);
    let b = level("B", vec![vertex(2, "b"), LevelChild::Lane(edge(2, 1, "l"))]);
    assert!(matches!(
        assemble_document(vec![root(vec![a, b])]),
        Err(SaveError::DanglingReference { vertex: 1, .. })
    ));
}

#[test]
fn last_request_wins() {
    let mut requests = SaveRequests::new();
    requests.send(SaveMap("first.yaml".to_string()));
    requests.send(SaveMap("second.yaml".to_string()));
    let out = save(&mut requests, vec![root(vec![office_level("L1")])]).unwrap();
    assert_eq!(out.path, "second.yaml");
    assert!(out.document.is_ok());
    assert!(requests.pending.is_none());
    assert!(save(&mut requests, vec![root(vec![])]).is_none());
}

#[test]
fn save_pass_reports_failure_with_path() {
    let mut requests = SaveRequests::new();
    requests.send(SaveMap("out.yaml".to_string()));
    let out = save(&mut requests, Vec::<Root>::new()).unwrap();
    assert_eq!(out.path, "out.yaml");
    assert!(matches!(out.document, Err(SaveError::NoRoot)));
}

#[test]
fn take_empties_the_slot() {
    let mut requests = SaveRequests::new();
    assert!(requests.take().is_none());
    requests.send(SaveMap("x".to_string()));
    assert_eq!(requests.take().map(|r| r.0), Some("x".to_string()));
    assert!(requests.take().is_none());
    assert_eq!(FORMAT_VERSION, 2);
}
