use step_loupe::bundle::{build_bundle, Bundle};
use step_loupe::model::{
    model_well_formed, BoundData, DatumData, DatumRef, DefData, DimensionData, DroppedData,
    EdgeData, FaceData, FeatureData, FeatureInfo, Fixed3, GeometryRef, GeometryRefKind,
    HeaderData, MeshData, OccurrenceData, PlacementData, PointData, ProductData, ReadReport,
    SceneModel, SolidData, ToleranceData, UnitData, UnitsData, VertexData, VoidData,
};
use step_loupe::tree::{Frame, GeomRequest, Meta, MetaValue, Node, NodeKind, GROUP_ID};

// ---------- building models ----------

fn header() -> HeaderData {
    HeaderData {
        file_name: "part.step".into(),
        time_stamp: "2024-01-01T00:00:00".into(),
        authors: vec!["A".into()],
        organizations: vec![],
        preprocessor_version: "".into(),
        originating_system: "CAD".into(),
        authorisation: "".into(),
        description: "d".into(),
        schema_unrecognized: false,
        schema_label: "AP214 ed3".into(),
        schema_raw: Some(vec!["AUTOMOTIVE_DESIGN".into()]),
    }
}

fn empty_model() -> SceneModel {
    SceneModel {
        header: header(),
        report: ReadReport { n_in: 3, validated: 2, n_synth: 0, dropped: vec![], norm: vec![] },
        defs: vec![],
        roots: vec![],
        solids: vec![],
        all_solids: vec![],
        edges: vec![],
        vertices: vec![],
        features: vec![],
        datums: vec![],
        dimensions: vec![],
        tolerances: vec![],
        units: UnitsData { length: None, angle: None, precision: None },
        meshes: vec![],
        warnings: vec![],
    }
}

fn def(id: &str, name: Option<&str>, solids: Vec<usize>, occurrences: Vec<OccurrenceData>) -> DefData {
    DefData {
        id: id.into(),
        description: None,
        version: None,
        product: name.map(|n| ProductData { id: format!("{id}-P"), name: n.into(), versions: vec![] }),
        solids,
        occurrences,
        approvals: vec![],
        documents: vec![],
        contributors: vec![],
        security: vec![],
    }
}

fn vertex(key: u64, pkey: u64, x: &str) -> VertexData {
    VertexData { key, point: Some(PointData { key: pkey, x: x.into(), y: "0".into(), z: "0".into() }) }
}

fn edge(key: u64, kind: &str, start: usize, end: usize) -> EdgeData {
    EdgeData {
        key,
        curve_kind: kind.into(),
        color: None,
        width: None,
        line_font: None,
        same_sense: true,
        start: Some(start),
        end: Some(end),
    }
}

fn face(key: u64, bounds: Vec<BoundData>) -> FaceData {
    FaceData {
        key,
        surface_kind: "Plane(PlaneId(3))".into(),
        color: None,
        transparency: None,
        layer: None,
        visible: true,
        same_sense: true,
        bounds,
    }
}

fn solid(key: u64, faces: Vec<FaceData>, voids: Vec<VoidData>) -> SolidData {
    SolidData {
        key,
        name: "".into(),
        color: None,
        transparency: None,
        layer: None,
        visible: true,
        faces,
        voids,
    }
}

fn placement(x: &str) -> PlacementData {
    let f3 = |a: &str, b: &str, c: &str| Fixed3 { x: a.into(), y: b.into(), z: c.into() };
    PlacementData {
        origin: f3(x, "0.0000", "0.0000"),
        axis: f3("0.0000", "0.0000", "1.0000"),
        ref_direction: f3("1.0000", "0.0000", "0.0000"),
    }
}

/// One part ("Plate") with one solid: a face bounded by a line and a circle
/// between two vertices.
fn plate_model() -> SceneModel {
    let mut m = empty_model();
    m.vertices = vec![vertex(500, 600, "0"), vertex(501, 601, "1")];
    m.edges = vec![edge(400, "Line(LineId(5))", 0, 1), edge(401, "Circle { radius: 1.0 }", 1, 0)];
    m.solids = vec![solid(100, vec![face(200, vec![BoundData { key: 300, edges: vec![0, 1] }])], vec![])];
    m.all_solids = vec![0];
    m.defs = vec![def("PD-1", Some("Plate"), vec![0], vec![])];
    m.roots = vec![0];
    m
}

// ---------- reading bundles ----------

/// A compact rendering of a node: `id:Kind:label[children]`.
fn shape(n: &Node) -> String {
    let mut s = format!("{}:{:?}:{}", n.id, n.kind, n.label);
    if !n.children.is_empty() {
        let kids: Vec<String> = n.children.iter().map(shape).collect();
        s.push('[');
        s.push_str(&kids.join(" "));
        s.push(']');
    }
    s
}

fn rows(meta: &[Meta]) -> Vec<(String, String)> {
    meta.iter()
        .map(|m| match &m.value {
            MetaValue::Text(s) => (m.key.clone(), s.clone()),
            MetaValue::WorldOrigin(f) => (m.key.clone(), format!("<frame {f}>")),
        })
        .collect()
}

fn row(k: &str, v: &str) -> (String, String) {
    (k.to_string(), v.to_string())
}

fn hl_of(b: &Bundle, id: u32) -> Option<Vec<u32>> {
    b.hl.iter().find(|(i, _)| *i == id).map(|(_, v)| v.clone())
}

fn group_labels(b: &Bundle) -> Vec<String> {
    b.tree.iter().map(|g| g.label.clone()).collect()
}

// ---------- scenarios ----------

#[test]
fn empty_file_has_all_five_groups() {
    let m = empty_model();
    assert!(model_well_formed(&m));
    let b = build_bundle(&m);
    assert_eq!(group_labels(&b), vec!["Model", "Unplaced solids", "PMI", "Features", "Meshes"]);
    for g in &b.tree {
        assert_eq!(g.id, GROUP_ID);
        assert_eq!(g.kind, NodeKind::Group);
        assert!(g.meta.is_empty());
        assert!(g.children.is_empty());
    }
    assert!(b.geom.is_empty());
    assert!(b.hl.is_empty());
    assert_eq!(b.frames, vec![Frame::Origin]);
    assert_eq!(b.header.schema, "AP214 ed3");
    assert_eq!((b.report.n_in, b.report.validated), (3, 2));
}

#[test]
fn single_part_tree_ids_and_geometry() {
    let m = plate_model();
    assert!(model_well_formed(&m));
    let b = build_bundle(&m);
    assert_eq!(b.tree[0].children.len(), 1);
    assert_eq!(
        shape(&b.tree[0].children[0]),
        "0:Part:Plate[1:Solid:Solid[2:Face:Face (Plane)[3:Bound:Bound[4:Edge:Edge (Line)[5:Vertex:Vertex 6:Vertex:Vertex] 7:Edge:Edge (Circle)[6:Vertex:Vertex 5:Vertex:Vertex]]]]]"
    );
    let part = &b.tree[0].children[0];
    assert_eq!(rows(&part.meta), vec![row("id", "PD-1-P"), row("name", "Plate")]);
    let solid = &part.children[0];
    assert_eq!(rows(&solid.meta), vec![row("faces", "1")]);
    let face = &solid.children[0];
    assert_eq!(rows(&face.meta), vec![row("surface", "Plane"), row("same sense", "true")]);
    let v = &face.children[0].children[0].children[1];
    assert_eq!(rows(&v.meta), vec![row("coords", "1, 0, 0")]);

    assert_eq!(b.geom.len(), 4);
    assert_eq!(b.geom.get(&4), Some(&GeomRequest::Line { edge: 0, frame: 0 }));
    assert_eq!(b.geom.get(&7), Some(&GeomRequest::Line { edge: 1, frame: 0 }));
    assert_eq!(b.geom.get(&5), Some(&GeomRequest::Point { vertex: 0, frame: 0 }));
    assert_eq!(b.geom.get(&6), Some(&GeomRequest::Point { vertex: 1, frame: 0 }));
    assert_eq!(b.frames, vec![Frame::Origin]);
    assert!(b.tree[1].children.is_empty());
    assert!(b.hl.is_empty());
}

#[test]
fn features_and_pmi_cross_reference() {
    let mut m = plate_model();
    let hole = FeatureInfo { key: 700, name: "Hole1".into(), kind: "Hole".into() };
    m.features = vec![
        FeatureData {
            info: FeatureInfo { key: 700, name: "Hole1".into(), kind: "Hole".into() },
            description: Some("through".into()),
            geometry: vec![GeometryRef {
                kind: GeometryRefKind::Face,
                key: 200,
                key_text: "Face(AdvancedFaceId(3))".into(),
            }],
        },
        FeatureData {
            info: FeatureInfo { key: 701, name: "".into(), kind: "Chamfer".into() },
            description: Some("".into()),
            geometry: vec![GeometryRef { kind: GeometryRefKind::Other, key: 999, key_text: "Other(9)".into() }],
        },
        FeatureData {
            info: FeatureInfo { key: 702, name: "Tip".into(), kind: "Point".into() },
            description: None,
            geometry: vec![GeometryRef { kind: GeometryRefKind::Point, key: 601, key_text: "P(601)".into() }],
        },
    ];
    m.datums = vec![
        DatumData { key: 800, letter: "A".into(), name: "".into(), feature: Some(700) },
        DatumData { key: 801, letter: "B".into(), name: "datum b".into(), feature: Some(701) },
        DatumData { key: 802, letter: "C".into(), name: "".into(), feature: Some(12345) },
    ];
    m.dimensions = vec![
        DimensionData {
            kind: "Diameter".into(),
            value: Some("5".into()),
            features: vec![
                FeatureInfo { key: 700, name: "Hole1".into(), kind: "Hole".into() },
                FeatureInfo { key: 710, name: "Boss".into(), kind: "Boss".into() },
            ],
        },
        DimensionData { kind: "Angular".into(), value: None, features: vec![] },
    ];
    m.tolerances = vec![ToleranceData {
        kind: "Flatness".into(),
        magnitude: Some("0.05".into()),
        datums: vec![
            DatumRef { key: 800, letter: "A".into() },
            DatumRef { key: 899, letter: "Z".into() },
        ],
        feature: Some(hole),
    }];
    assert!(model_well_formed(&m));
    let b = build_bundle(&m);

    // features are numbered after the walk (ids 0..=7), then datums,
    // dimensions, tolerances
    let feats = &b.tree[3].children;
    assert_eq!(
        feats.iter().map(shape).collect::<Vec<_>>(),
        vec!["8:Feature:Hole1 (Hole)", "9:Feature:Chamfer", "10:Feature:Tip (Point)"]
    );
    assert_eq!(
        rows(&feats[0].meta),
        vec![row("description", "through"), row("ref", "Face Face(AdvancedFaceId(3))")]
    );
    assert_eq!(rows(&feats[1].meta), vec![row("ref", "Other Other(9)")]);

    let pmi = &b.tree[2].children;
    assert_eq!(
        pmi.iter().map(shape).collect::<Vec<_>>(),
        vec![
            "14:Dimension:Dimension (Diameter): 5",
            "15:Dimension:Dimension (Angular)",
            "16:Tolerance:Tolerance (Flatness): 0.05 | A,Z",
            "11:Datum:Datum A",
            "12:Datum:Datum B",
            "13:Datum:Datum C",
        ]
    );
    assert_eq!(
        rows(&pmi[0].meta),
        vec![
            row("value", "5"),
            row("applies to", "Feature #8: Hole1 (Hole)"),
            row("applies to", "Boss (Boss)"),
        ]
    );
    assert!(pmi[1].meta.is_empty());
    assert_eq!(
        rows(&pmi[2].meta),
        vec![
            row("magnitude", "0.05"),
            row("datum", "Datum #11: A"),
            row("datum", "Z"),
            row("applies to", "Feature #8: Hole1 (Hole)"),
        ]
    );
    assert_eq!(rows(&pmi[3].meta), vec![row("letter", "A"), row("based on", "Feature #8")]);
    assert_eq!(
        rows(&pmi[4].meta),
        vec![row("letter", "B"), row("name", "datum b"), row("based on", "Feature #9")]
    );
    assert_eq!(rows(&pmi[5].meta), vec![row("letter", "C")]);

    // a face highlights its edges; a point highlights its vertex each time the
    // vertex is walked
    assert_eq!(hl_of(&b, 8), Some(vec![4, 7]));
    assert_eq!(hl_of(&b, 9), None);
    assert_eq!(hl_of(&b, 10), Some(vec![6, 6]));
    assert_eq!(hl_of(&b, 11), Some(vec![4, 7]));
    assert_eq!(hl_of(&b, 12), None);
    assert_eq!(hl_of(&b, 14), Some(vec![4, 7]));
    assert_eq!(hl_of(&b, 15), None);
    assert_eq!(hl_of(&b, 16), Some(vec![4, 7]));
    assert_eq!(b.hl.iter().map(|e| e.0).collect::<Vec<_>>(), vec![8, 10, 11, 14, 16]);
}

#[test]
fn shared_part_instances_get_distinct_ids() {
    let mut m = empty_model();
    m.vertices = vec![vertex(500, 600, "0"), vertex(501, 601, "2")];
    m.edges = vec![edge(400, "Line", 0, 1)];
    m.solids = vec![solid(100, vec![face(200, vec![BoundData { key: 300, edges: vec![0] }])], vec![])];
    m.all_solids = vec![0];
    m.defs = vec![
        def(
            "ASM",
            None,
            vec![],
            vec![
                OccurrenceData { definition: Some(1), placement: Some(placement("10.0000")) },
                OccurrenceData { definition: Some(1), placement: Some(placement("-2.5000")) },
                OccurrenceData { definition: None, placement: None },
            ],
        ),
        def("PRT", Some("Pin"), vec![0], vec![]),
    ];
    m.roots = vec![0];
    m.features = vec![FeatureData {
        info: FeatureInfo { key: 700, name: "E".into(), kind: "Edge".into() },
        description: None,
        geometry: vec![GeometryRef { kind: GeometryRefKind::Edge, key: 400, key_text: "E".into() }],
    }];
    assert!(model_well_formed(&m));
    let b = build_bundle(&m);
    assert_eq!(
        shape(&b.tree[0].children[0]),
        "0:Part:ASM[1:Component:Pin[2:Solid:Solid[3:Face:Face (Plane)[4:Bound:Bound[5:Edge:Edge (Line)[6:Vertex:Vertex 7:Vertex:Vertex]]]]] 8:Component:Pin[9:Solid:Solid[10:Face:Face (Plane)[11:Bound:Bound[12:Edge:Edge (Line)[13:Vertex:Vertex 14:Vertex:Vertex]]]]]]"
    );
    assert_eq!(
        b.frames,
        vec![
            Frame::Origin,
            Frame::Placed { parent: 0, def: 0, occurrence: 0 },
            Frame::Placed { parent: 0, def: 0, occurrence: 1 },
        ]
    );
    assert_eq!(b.geom.get(&5), Some(&GeomRequest::Line { edge: 0, frame: 1 }));
    assert_eq!(b.geom.get(&12), Some(&GeomRequest::Line { edge: 0, frame: 2 }));
    assert_eq!(b.geom.get(&14), Some(&GeomRequest::Point { vertex: 1, frame: 2 }));
    let second = &b.tree[0].children[0].children[1];
    assert_eq!(
        rows(&second.meta),
        vec![
            row("id", "PRT-P"),
            row("name", "Pin"),
            row("origin", "-2.5, 0, 0"),
            row("axis", "0, 0, 1"),
            row("ref dir", "1, 0, 0"),
            row("world origin", "<frame 2>"),
        ]
    );
    // highlights accumulate across both placed instances
    assert_eq!(hl_of(&b, 15), Some(vec![5, 12]));
    assert!(b.tree[1].children.is_empty());
}

#[test]
fn cyclic_assembly_stops_at_repeat() {
    let mut m = empty_model();
    m.defs = vec![
        def("A", None, vec![], vec![OccurrenceData { definition: Some(1), placement: None }]),
        def("B", None, vec![], vec![OccurrenceData { definition: Some(0), placement: None }]),
    ];
    m.roots = vec![0];
    assert!(model_well_formed(&m));
    let b = build_bundle(&m);
    assert_eq!(shape(&b.tree[0].children[0]), "0:Part:A[1:Component:B[2:Component:A]]");
    assert_eq!(b.frames.len(), 3);
}

#[test]
fn self_referencing_definition() {
    let mut m = empty_model();
    m.defs = vec![def("LOOP", None, vec![], vec![OccurrenceData { definition: Some(0), placement: None }])];
    m.roots = vec![0, 0];
    let b = build_bundle(&m);
    assert_eq!(
        b.tree[0].children.iter().map(shape).collect::<Vec<_>>(),
        vec!["0:Part:LOOP[1:Component:LOOP]", "2:Part:LOOP[3:Component:LOOP]"]
    );
}

#[test]
fn unplaced_solids_shown_at_origin() {
    let mut m = empty_model();
    m.solids = vec![solid(100, vec![], vec![]), solid(101, vec![], vec![]), solid(100, vec![], vec![])];
    m.all_solids = vec![0, 1, 2];
    m.defs = vec![def("PD", None, vec![0], vec![])];
    m.roots = vec![0];
    let b = build_bundle(&m);
    assert_eq!(shape(&b.tree[0].children[0]), "0:Part:PD[1:Solid:Solid]");
    // solid 2 shares the key of a placed solid, so it counts as placed
    assert_eq!(b.tree[1].children.iter().map(shape).collect::<Vec<_>>(), vec!["2:Solid:Solid"]);
    assert_eq!(rows(&b.tree[1].children[0].meta), vec![row("faces", "0")]);
}

#[test]
fn geometry_only_file_lists_every_solid() {
    let mut m = plate_model();
    m.defs = vec![];
    m.roots = vec![];
    let b = build_bundle(&m);
    assert!(b.tree[0].children.is_empty());
    assert_eq!(b.tree[1].children.len(), 1);
    assert_eq!(b.tree[1].children[0].id, 0);
    assert_eq!(b.geom.get(&3), Some(&GeomRequest::Line { edge: 0, frame: 0 }));
}

#[test]
fn cavities_become_void_groups() {
    let mut m = empty_model();
    m.vertices = vec![vertex(500, 600, "0"), vertex(501, 601, "1")];
    m.edges = vec![edge(400, "Line", 0, 1), edge(401, "Line", 1, 0)];
    m.solids = vec![solid(
        100,
        vec![face(200, vec![BoundData { key: 300, edges: vec![0] }])],
        vec![VoidData { key: 220, faces: vec![face(210, vec![BoundData { key: 310, edges: vec![1] }])] }],
    )];
    m.all_solids = vec![0];
    m.features = vec![FeatureData {
        info: FeatureInfo { key: 700, name: "".into(), kind: "Body".into() },
        description: None,
        geometry: vec![GeometryRef { kind: GeometryRefKind::Solid, key: 100, key_text: "S".into() }],
    }];
    let b = build_bundle(&m);
    assert_eq!(
        shape(&b.tree[1].children[0]),
        "0:Solid:Solid[1:Face:Face (Plane)[2:Bound:Bound[3:Edge:Edge (Line)[4:Vertex:Vertex 5:Vertex:Vertex]]] 6:Void:Void[7:Face:Face (Plane)[8:Bound:Bound[9:Edge:Edge (Line)[5:Vertex:Vertex 4:Vertex:Vertex]]]]]"
    );
    assert!(b.tree[1].children[0].children[1].meta.is_empty());
    assert_eq!(rows(&b.tree[1].children[0].meta), vec![row("faces", "1")]);
    // the solid highlights the edges of its cavities too
    assert_eq!(hl_of(&b, 10), Some(vec![3, 9]));
}

#[test]
fn meshes_numbered_after_pmi() {
    let mut m = plate_model();
    m.meshes = vec![MeshData { triangles: 12 }, MeshData { triangles: 0 }];
    m.dimensions = vec![DimensionData { kind: "Linear".into(), value: None, features: vec![] }];
    let b = build_bundle(&m);
    assert_eq!(
        b.tree[4].children.iter().map(shape).collect::<Vec<_>>(),
        vec!["9:Mesh:Mesh (12 tris)", "10:Mesh:Mesh (0 tris)"]
    );
    assert_eq!(b.geom.get(&9), Some(&GeomRequest::Mesh { mesh: 0 }));
    assert_eq!(b.geom.get(&10), Some(&GeomRequest::Mesh { mesh: 1 }));
    assert_eq!(b.geom.len(), 6);
}

#[test]
fn info_panel_data_carried_over() {
    let mut m = empty_model();
    m.report.dropped = vec![DroppedData { id: 7, kind: "Unimplemented".into(), key: "FOO".into() }];
    m.report.norm = vec!["n1".into()];
    m.units.length = Some(UnitData { name: "millimetre".into(), to_si: "0.001".into() });
    m.units.precision = Some("1e-7".into());
    m.warnings = vec!["w1".into(), "w2".into()];
    let b = build_bundle(&m);
    assert_eq!(b.report.dropped, vec![(7u64, "Unimplemented: FOO".to_string())]);
    assert_eq!(b.report.norm, vec!["n1"]);
    assert_eq!(
        rows(&b.units),
        vec![row("length", "millimetre (×0.001 m)"), row("precision", "1e-7")]
    );
    assert_eq!(b.warnings, vec!["w1", "w2"]);
    assert_eq!(b.header.author, vec!["A"]);
    assert_eq!(b.header.raw_schema, vec!["AUTOMOTIVE_DESIGN"]);
}

#[test]
fn out_of_range_indices_are_detected() {
    let mut m = plate_model();
    m.edges[1].end = Some(2);
    assert!(!model_well_formed(&m));
    let mut m = plate_model();
    m.roots = vec![1];
    assert!(!model_well_formed(&m));
    let mut m = plate_model();
    m.all_solids = vec![0, 3];
    assert!(!model_well_formed(&m));
    let mut m = plate_model();
    m.solids[0].voids = vec![VoidData { key: 9, faces: vec![face(1, vec![BoundData { key: 2, edges: vec![5] }])] }];
    assert!(!model_well_formed(&m));
    let mut m = plate_model();
    m.defs[0].occurrences = vec![OccurrenceData { definition: Some(4), placement: None }];
    assert!(!model_well_formed(&m));
}

#[test]
fn vertex_without_point_highlights_nothing() {
    let mut m = empty_model();
    m.vertices = vec![VertexData { key: 500, point: None }, vertex(501, 601, "1")];
    m.edges = vec![edge(400, "Line", 0, 1)];
    m.solids = vec![solid(100, vec![face(200, vec![BoundData { key: 300, edges: vec![0] }])], vec![])];
    m.all_solids = vec![0];
    m.features = vec![
        FeatureData {
            info: FeatureInfo { key: 700, name: "".into(), kind: "Bare".into() },
            description: None,
            geometry: vec![GeometryRef { kind: GeometryRefKind::Other, key: 500, key_text: "V".into() }],
        },
        FeatureData {
            info: FeatureInfo { key: 701, name: "".into(), kind: "Tip".into() },
            description: None,
            geometry: vec![GeometryRef { kind: GeometryRefKind::Other, key: 501, key_text: "W".into() }],
        },
    ];
    let b = build_bundle(&m);
    assert_eq!(
        shape(&b.tree[1].children[0]),
        "0:Solid:Solid[1:Face:Face (Plane)[2:Bound:Bound[3:Edge:Edge (Line)[4:Vertex:Vertex 5:Vertex:Vertex]]]]"
    );
    assert!(b.tree[1].children[0].children[0].children[0].children[0].children[0].meta.is_empty());
    // the vertex without a point has no geometry and highlights nothing
    assert_eq!(b.geom.get(&4), None);
    assert_eq!(b.geom.get(&5), Some(&GeomRequest::Point { vertex: 1, frame: 0 }));
    assert_eq!(hl_of(&b, 6), None);
    assert_eq!(hl_of(&b, 7), Some(vec![5]));
    // every highlight id is a rendered geometry id
    for (_, ids) in &b.hl {
        for id in ids {
            assert!(b.geom.contains_key(id));
        }
    }
}
