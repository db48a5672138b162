use std::collections::HashMap;

use step_loupe::builder::Builder;
use step_loupe::model::{HeaderData, ReadReport, SceneModel, UnitsData, VertexData};
use step_loupe::tree::{Frame, GeomRequest};

#[test]
fn fresh_builder_state() {
    let b = Builder::new();
    assert_eq!(b.next, 0);
    assert!(b.geom.is_empty());
    assert!(b.hl_ids.is_empty());
    assert_eq!(b.frames, vec![Frame::Origin]);
}

#[test]
fn ids_count_up_and_wrap() {
    let mut b = Builder::new();
    assert_eq!(b.next(), 0);
    assert_eq!(b.next(), 1);
    b.next = u32::MAX;
    assert_eq!(b.next(), u32::MAX);
    assert_eq!(b.next(), 0);
}

#[test]
fn instance_ids_dedup_and_new_instances_differ() {
    let mut b = Builder::new();
    let mut first: HashMap<u64, u32> = HashMap::new();
    assert_eq!(b.imap_id(&mut first, 42), 0);
    assert_eq!(b.imap_id(&mut first, 7), 1);
    assert_eq!(b.imap_id(&mut first, 42), 0);
    assert_eq!(b.next, 2);
    let mut second: HashMap<u64, u32> = HashMap::new();
    assert_eq!(b.imap_id(&mut second, 42), 2);
    assert_eq!(first.get(&42), Some(&0));
    assert_eq!(second.get(&42), Some(&2));
}

#[test]
fn geometry_recorded_once() {
    let mut b = Builder::new();
    b.geom_once(3, GeomRequest::Line { edge: 0, frame: 0 });
    b.geom_once(3, GeomRequest::Point { vertex: 1, frame: 0 });
    b.geom_once(4, GeomRequest::Mesh { mesh: 2 });
    assert_eq!(b.geom.get(&3), Some(&GeomRequest::Line { edge: 0, frame: 0 }));
    assert_eq!(b.geom.get(&4), Some(&GeomRequest::Mesh { mesh: 2 }));
    assert_eq!(b.geom.len(), 2);
}

#[test]
fn highlights_accumulate_in_order() {
    let mut b = Builder::new();
    b.hl_push(9, 5);
    b.hl_extend(9, &vec![7, 8]);
    b.hl_push(9, 5);
    b.hl_extend(10, &vec![]);
    assert_eq!(b.hl_ids.get(&9), Some(&vec![5, 7, 8, 5]));
    assert_eq!(b.hl_ids.get(&10), Some(&vec![]));
    assert_eq!(b.next, 0);
}

#[test]
fn pointless_vertex_leaves_highlights_and_geometry() {
    let m = SceneModel {
        header: HeaderData {
            file_name: "".into(),
            time_stamp: "".into(),
            authors: vec![],
            organizations: vec![],
            preprocessor_version: "".into(),
            originating_system: "".into(),
            authorisation: "".into(),
            description: "".into(),
            schema_unrecognized: false,
            schema_label: "".into(),
            schema_raw: None,
        },
        report: ReadReport { n_in: 0, validated: 0, n_synth: 0, dropped: vec![], norm: vec![] },
        defs: vec![],
        roots: vec![],
        solids: vec![],
        all_solids: vec![],
        edges: vec![],
        vertices: vec![VertexData { key: 5, point: None }],
        features: vec![],
        datums: vec![],
        dimensions: vec![],
        tolerances: vec![],
        units: UnitsData { length: None, angle: None, precision: None },
        meshes: vec![],
        warnings: vec![],
    };
    let mut b = Builder::new();
    let mut imap: HashMap<u64, u32> = HashMap::new();
    let n = b.vertex_node(&m, 0, 0, &mut imap);
    assert_eq!(n.id, 0);
    assert_eq!(imap.get(&5), Some(&0));
    assert!(b.hl_ids.is_empty());
    assert!(b.geom.is_empty());
    assert!(n.meta.is_empty());
}
