use step_loupe::labels::{
    approval_date_string, bool_string, edge_label_meta, face_label_meta, feature_label_string,
    geometry_ref_label_string, person_name_string, rgb_hex_string,
    solid_meta_rows, vertex_meta_rows,
};
use step_loupe::model::{
    ApprovalData, ApproverData, BoundData, ContributorData, DateParts, DefData, DocumentData,
    EdgeData, FaceData, FeatureInfo, Fixed3, GeometryRef, GeometryRefKind, OccurrenceData,
    PersonData, PlacementData, PointData, ProductData, Rgb8, SecurityData, SolidData, VertexData,
};
use step_loupe::product::{def_label_meta, fixed3_string, push_placement_rows, push_plm_rows};
use step_loupe::tree::{Meta, MetaValue};

fn rows(meta: &[Meta]) -> Vec<(String, String)> {
    meta.iter()
        .map(|m| {
            let v = match &m.value {
                MetaValue::Text(s) => s.clone(),
                MetaValue::WorldOrigin(f) => format!("<frame {f}>"),
            };
            (m.key.clone(), v)
        })
        .collect()
}

fn row(k: &str, v: &str) -> (String, String) {
    (k.to_string(), v.to_string())
}

fn person(id: &str, first: Option<&str>, last: Option<&str>) -> PersonData {
    PersonData {
        id: id.to_string(),
        first_name: first.map(str::to_string),
        last_name: last.map(str::to_string),
    }
}

fn bare_def(id: &str) -> DefData {
    DefData {
        id: id.to_string(),
        description: None,
        version: None,
        product: None,
        solids: vec![],
        occurrences: vec![],
        approvals: vec![],
        documents: vec![],
        contributors: vec![],
        security: vec![],
    }
}

#[test]
fn rgb_hex_quantised_channels() {
    assert_eq!(rgb_hex_string(&Rgb8 { red: 255, green: 0, blue: 128 }), "#ff0080");
    assert_eq!(rgb_hex_string(&Rgb8 { red: 0, green: 0, blue: 0 }), "#000000");
    assert_eq!(rgb_hex_string(&Rgb8 { red: 1, green: 171, blue: 16 }), "#01ab10");
}

#[test]
fn bool_text() {
    assert_eq!(bool_string(true), "true");
    assert_eq!(bool_string(false), "false");
}

#[test]
fn approval_dates() {
    let d = |y, m, day| DateParts { year: y, month: m, day };
    assert_eq!(approval_date_string(&d(Some(2024), Some(3), Some(7))), "2024-03-07");
    assert_eq!(approval_date_string(&d(Some(987), Some(12), None)), "0987-12");
    assert_eq!(approval_date_string(&d(Some(2024), None, Some(5))), "2024");
    assert_eq!(approval_date_string(&d(None, Some(1), Some(1))), "");
    assert_eq!(approval_date_string(&d(Some(-44), Some(3), Some(15))), "-044-03-15");
}

#[test]
fn person_names() {
    assert_eq!(person_name_string(&person("p1", Some("Ada"), Some("Lovelace"))), "Ada Lovelace");
    assert_eq!(person_name_string(&person("p1", Some("Ada"), None)), "Ada");
    assert_eq!(person_name_string(&person("p1", None, Some("Lovelace"))), "Lovelace");
    assert_eq!(person_name_string(&person("p1", None, None)), "p1");
    assert_eq!(person_name_string(&person("p2", Some("  "), Some(""))), "p2");
}

#[test]
fn feature_labels() {
    let f = FeatureInfo { key: 1, name: "Hole1".into(), kind: "Hole".into() };
    assert_eq!(feature_label_string(&f), "Hole1 (Hole)");
    let g = FeatureInfo { key: 2, name: "".into(), kind: "Pattern".into() };
    assert_eq!(feature_label_string(&g), "Pattern");
}

#[test]
fn geometry_reference_labels() {
    let kinds = [
        (GeometryRefKind::Face, "Face"),
        (GeometryRefKind::Edge, "Edge"),
        (GeometryRefKind::Point, "Point"),
        (GeometryRefKind::Solid, "Solid"),
        (GeometryRefKind::Curve, "Curve"),
        (GeometryRefKind::Other, "Other"),
    ];
    for (k, name) in kinds {
        let g = GeometryRef { kind: k, key: 77, key_text: "Face(AdvancedFaceId(3))".into() };
        assert_eq!(geometry_ref_label_string(&g), format!("{name} Face(AdvancedFaceId(3))"));
    }
}

#[test]
fn vertex_rows() {
    let v = VertexData {
        key: 1,
        point: Some(PointData { key: 2, x: "1.5".into(), y: "0".into(), z: "-2".into() }),
    };
    assert_eq!(rows(&vertex_meta_rows(&v)), vec![row("coords", "1.5, 0, -2")]);
    let bare = VertexData { key: 1, point: None };
    assert!(vertex_meta_rows(&bare).is_empty());
}

#[test]
fn edge_label_and_rows() {
    let e = EdgeData {
        key: 1,
        curve_kind: "Circle { radius: 2.0 }".into(),
        color: Some(Rgb8 { red: 255, green: 255, blue: 0 }),
        width: Some("0.35".into()),
        line_font: Some("dashed".into()),
        same_sense: false,
        start: None,
        end: None,
    };
    let (label, meta) = edge_label_meta(&e);
    assert_eq!(label, "Edge (Circle)");
    assert_eq!(
        rows(&meta),
        vec![
            row("curve", "Circle"),
            row("color", "#ffff00"),
            row("width", "0.35"),
            row("line font", "dashed"),
            row("same sense", "false"),
        ]
    );
    let plain = EdgeData { color: None, width: None, line_font: None, same_sense: true, ..e };
    let (_, meta) = edge_label_meta(&plain);
    assert_eq!(rows(&meta), vec![row("curve", "Circle"), row("same sense", "true")]);
}

#[test]
fn face_label_and_rows() {
    let f = FaceData {
        key: 1,
        surface_kind: "Cylinder(CylindricalSurfaceId(9))".into(),
        color: None,
        transparency: Some("0.5".into()),
        layer: Some("L1".into()),
        visible: false,
        same_sense: true,
        bounds: vec![BoundData { key: 2, edges: vec![] }],
    };
    let (label, meta) = face_label_meta(&f);
    assert_eq!(label, "Face (Cylinder)");
    assert_eq!(
        rows(&meta),
        vec![
            row("surface", "Cylinder"),
            row("transparency", "0.5"),
            row("layer", "L1"),
            row("visible", "false"),
            row("same sense", "true"),
        ]
    );
}

#[test]
fn solid_rows() {
    let face = FaceData {
        key: 1,
        surface_kind: "Plane".into(),
        color: None,
        transparency: None,
        layer: None,
        visible: true,
        same_sense: true,
        bounds: vec![],
    };
    let s = SolidData {
        key: 9,
        name: "Body".into(),
        color: Some(Rgb8 { red: 0, green: 128, blue: 255 }),
        transparency: None,
        layer: None,
        visible: true,
        faces: vec![face],
        voids: vec![],
    };
    assert_eq!(
        rows(&solid_meta_rows(&s)),
        vec![row("name", "Body"), row("color", "#0080ff"), row("faces", "1")]
    );
    let anon = SolidData { name: "".into(), color: None, visible: false, faces: vec![], ..s };
    assert_eq!(rows(&solid_meta_rows(&anon)), vec![row("visible", "false"), row("faces", "0")]);
}

#[test]
fn definition_label_prefers_product_name() {
    let mut d = bare_def("PD-1");
    d.product = Some(ProductData { id: "P-1".into(), name: "Bracket".into(), versions: vec![] });
    d.version = Some("B".into());
    let (label, meta) = def_label_meta(&d);
    assert_eq!(label, "Bracket");
    assert_eq!(rows(&meta), vec![row("id", "P-1"), row("name", "Bracket"), row("version", "B")]);

    let mut nameless = bare_def("PD-2");
    nameless.product = Some(ProductData { id: "".into(), name: "".into(), versions: vec![] });
    nameless.version = Some("".into());
    let (label, meta) = def_label_meta(&nameless);
    assert_eq!(label, "PD-2");
    assert!(meta.is_empty());

    let (label, _) = def_label_meta(&bare_def(""));
    assert_eq!(label, "Part");
}

#[test]
fn placement_rows_carry_frame() {
    let f3 = |x: &str, y: &str, z: &str| Fixed3 { x: x.into(), y: y.into(), z: z.into() };
    assert_eq!(fixed3_string(&f3("10.0000", "-0.0000", "0.2500")), "10, -0, 0.25");
    let p = Some(PlacementData {
        origin: f3("10.0000", "0.0000", "0.0000"),
        axis: f3("0.0000", "0.0000", "1.0000"),
        ref_direction: f3("1.0000", "0.0000", "0.0000"),
    });
    let mut v = Vec::new();
    push_placement_rows(&mut v, &p, 3);
    assert_eq!(
        rows(&v),
        vec![
            row("origin", "10, 0, 0"),
            row("axis", "0, 0, 1"),
            row("ref dir", "1, 0, 0"),
            row("world origin", "<frame 3>"),
        ]
    );
    let mut none = Vec::new();
    push_placement_rows(&mut none, &None, 3);
    assert!(none.is_empty());
}

#[test]
fn plm_rows_in_order() {
    let mut d = bare_def("PD");
    d.approvals = vec![
        ApprovalData {
            status: "approved".into(),
            level: "design".into(),
            date: Some(DateParts { year: Some(2023), month: Some(11), day: Some(2) }),
            approvers: vec![
                ApproverData {
                    person: Some(person("u7", Some("Grace"), Some("Hopper"))),
                    organization: None,
                    role: "inspector".into(),
                },
                ApproverData { person: None, organization: Some("ACME".into()), role: "".into() },
                ApproverData { person: None, organization: None, role: "x".into() },
            ],
        },
        ApprovalData {
            status: "pending".into(),
            level: "".into(),
            date: Some(DateParts { year: None, month: None, day: None }),
            approvers: vec![],
        },
    ];
    d.documents = vec![
        DocumentData { id: "DOC-1".into(), name: "Drawing".into(), kind: "pdf".into() },
        DocumentData { id: "DOC-2".into(), name: "".into(), kind: "".into() },
    ];
    d.contributors = vec![
        ContributorData { person: person("u1", Some("Alan"), Some("Turing")), role: "designer".into() },
        ContributorData { person: person("u2", None, None), role: "".into() },
    ];
    d.security = vec![
        SecurityData { name: "internal".into(), level: "2".into(), purpose: "export".into() },
        SecurityData { name: "public".into(), level: "0".into(), purpose: "".into() },
    ];
    d.product = Some(ProductData {
        id: "P".into(),
        name: "N".into(),
        versions: vec!["A".into(), "".into(), "B".into()],
    });
    d.occurrences = vec![OccurrenceData { definition: None, placement: None }];
    let mut v = Vec::new();
    push_plm_rows(&mut v, &d);
    assert_eq!(
        rows(&v),
        vec![
            row("approval", "approved / design"),
            row("approved", "2023-11-02"),
            row("approver (inspector)", "Grace Hopper"),
            row("approver", "ACME"),
            row("approval", "pending"),
            row("document", "DOC-1 — Drawing [pdf]"),
            row("document", "DOC-2"),
            row("designer", "Alan Turing"),
            row("contributor", "u2"),
            row("security", "internal (2)"),
            row("purpose", "export"),
            row("security", "public (0)"),
            row("versions", "A, B"),
        ]
    );
}

#[test]
fn plm_rows_empty_without_data() {
    let mut d = bare_def("PD");
    d.product = Some(ProductData { id: "P".into(), name: "N".into(), versions: vec!["A".into(), "".into()] });
    let mut v = Vec::new();
    push_plm_rows(&mut v, &d);
    assert!(v.is_empty());
}
