use step_loupe::info::{build_header, build_report, build_units, parse_failure};
use step_loupe::model::{DroppedData, HeaderData, ReadReport, UnitData, UnitsData};
use step_loupe::step_file::read_step;
use step_loupe::tree::{Meta, MetaValue};

fn rows(meta: &[Meta]) -> Vec<(String, String)> {
    meta.iter()
        .map(|m| match &m.value {
            MetaValue::Text(s) => (m.key.clone(), s.clone()),
            MetaValue::WorldOrigin(f) => (m.key.clone(), format!("<frame {f}>")),
        })
        .collect()
}

fn header(unrecognized: bool, raw: Option<Vec<&str>>) -> HeaderData {
    HeaderData {
        file_name: "wheel.step".into(),
        time_stamp: "2026-07-05T12:00:00".into(),
        authors: vec!["Alice".into(), "Bob".into()],
        organizations: vec!["ACME".into()],
        preprocessor_version: "kernel 1.2".into(),
        originating_system: "ACME CAD".into(),
        authorisation: "release".into(),
        description: "a wheel model".into(),
        schema_unrecognized: unrecognized,
        schema_label: if unrecognized { "unrecognized schema".into() } else { "AP242 ed2 (IS)".into() },
        schema_raw: raw.map(|r| r.into_iter().map(String::from).collect()),
    }
}

const VALID: &str = "ISO-10303-21;\nHEADER;\n\
FILE_DESCRIPTION(('a wheel model'),'2;1');\n\
FILE_NAME('wheel.step','2026-07-05T12:00:00',('Alice'),('ACME'),'kernel 1.2','ACME CAD','release');\n\
FILE_SCHEMA(('AUTOMOTIVE_DESIGN { 1 0 10303 214 3 1 1 }'));\n\
ENDSEC;\nDATA;\n#1=APPLICATION_CONTEXT('');\nENDSEC;\nEND-ISO-10303-21;\n";

#[test]
fn header_copies_fields_and_recognized_label() {
    let h = build_header(&header(false, Some(vec!["AP242_MANAGED_MODEL_BASED_3D_ENGINEERING_MIM_LF"])));
    assert_eq!(h.file_name, "wheel.step");
    assert_eq!(h.time_stamp, "2026-07-05T12:00:00");
    assert_eq!(h.author, vec!["Alice", "Bob"]);
    assert_eq!(h.organization, vec!["ACME"]);
    assert_eq!(h.preprocessor, "kernel 1.2");
    assert_eq!(h.originating_system, "ACME CAD");
    assert_eq!(h.authorisation, "release");
    assert_eq!(h.description, "a wheel model");
    assert_eq!(h.schema, "AP242 ed2 (IS)");
    assert_eq!(h.raw_schema, vec!["AP242_MANAGED_MODEL_BASED_3D_ENGINEERING_MIM_LF"]);
}

#[test]
fn header_unrecognized_schema_shows_raw_tokens() {
    let h = build_header(&header(true, Some(vec!["ISO-10303-042", "CONFIG_CONTROL_DESIGN"])));
    assert_eq!(h.schema, "ISO-10303-042, CONFIG_CONTROL_DESIGN");
    assert_eq!(h.raw_schema, vec!["ISO-10303-042", "CONFIG_CONTROL_DESIGN"]);
    let bare = build_header(&header(true, None));
    assert_eq!(bare.schema, "unrecognized schema");
    assert!(bare.raw_schema.is_empty());
}

#[test]
fn report_renders_drops() {
    let r = ReadReport {
        n_in: 10,
        validated: 8,
        n_synth: 1,
        dropped: vec![
            DroppedData { id: 4, kind: "Unclassified".into(), key: "CARTESIAN_POINT".into() },
            DroppedData { id: 9, kind: "Cascade".into(), key: "via-#4".into() },
        ],
        norm: vec!["fixed empty label".into()],
    };
    let out = build_report(&r);
    assert_eq!((out.n_in, out.validated, out.n_synth), (10, 8, 1));
    assert_eq!(
        out.dropped,
        vec![(4u64, "Unclassified: CARTESIAN_POINT".to_string()), (9u64, "Cascade: via-#4".to_string())]
    );
    assert_eq!(out.norm, vec!["fixed empty label"]);
}

#[test]
fn units_rows_in_order() {
    let u = UnitsData {
        length: Some(UnitData { name: "millimetre".into(), to_si: "0.001".into() }),
        angle: Some(UnitData { name: "radian".into(), to_si: "1".into() }),
        precision: Some("1e-7".into()),
    };
    assert_eq!(
        rows(&build_units(&u)),
        vec![
            ("length".to_string(), "millimetre (×0.001 m)".to_string()),
            ("angle".to_string(), "radian (×1 rad)".to_string()),
            ("precision".to_string(), "1e-7".to_string()),
        ]
    );
    let none = UnitsData { length: None, angle: None, precision: None };
    assert!(build_units(&none).is_empty());
}

#[test]
fn parse_failure_message() {
    assert_eq!(parse_failure("unexpected end of file"), "parse failed: unexpected end of file");
}

#[test]
fn read_step_accepts_a_parsing_file() {
    match read_step(VALID.as_bytes()) {
        Ok((_model, report)) => {
            assert_eq!(report.n_in, 1);
            assert_eq!(report.validated + report.dropped.len(), report.n_in + report.n_synth);
        }
        Err(e) => panic!("unexpected failure: {e}"),
    }
}

#[test]
fn read_step_reports_parse_failure() {
    match read_step(b"this is not a STEP file") {
        Ok(_) => panic!("garbage must not parse"),
        Err(e) => {
            assert!(e.starts_with("parse failed: "), "{e}");
            assert!(e.len() > "parse failed: ".len());
        }
    }
    let truncated = &VALID[..VALID.len() / 2];
    let reader_error = match step_io::read(truncated.as_bytes()) {
        Ok(_) => panic!("a truncated file must not parse"),
        Err(e) => e.to_string(),
    };
    match read_step(truncated.as_bytes()) {
        Ok(_) => panic!("a truncated file must not parse"),
        Err(e) => assert_eq!(e, format!("parse failed: {reader_error}")),
    }
}
