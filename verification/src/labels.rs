//! Labels and detail-pane rows for the entities of the scene.
use vstd::prelude::*;
use vstd::string::StringExecFns;
use crate::model::{
    DateParts, EdgeData, FaceData, FeatureInfo, GeometryRef, GeometryRefKind, PersonData, Rgb8,
    SolidData, VertexData,
};
use crate::tree::{kv, metas_view, text_row, Meta, MetaView};
use crate::text::{
    decimal, decimal_string, hex2, kind_name, kind_name_string, push_char, push_hex2,
    push_signed_padded, signed_padded, trim, trimmed,
};

verus! {

/// The text of an optional string (empty when absent).
pub open spec fn opt_text(o: Option<String>) -> Seq<char> {
    match o {
        Some(s) => s@,
        None => Seq::empty(),
    }
}

pub open spec fn bool_text(b: bool) -> Seq<char> {
    if b { "true"@ } else { "false"@ }
}

pub fn bool_string(b: bool) -> (r: String)
    ensures
        r@ == bool_text(b),
{
    if b { String::from_str("true") } else { String::from_str("false") }
}

// ---------- colours ----------

/// A colour as `#rrggbb` (lower-case hex); the front-end draws a swatch for it.
pub open spec fn rgb_hex(c: Rgb8) -> Seq<char> {
    seq!['#'] + hex2(c.red) + hex2(c.green) + hex2(c.blue)
}

pub fn rgb_hex_string(c: &Rgb8) -> (r: String)
    ensures
        r@ == rgb_hex(*c),
{
    let mut s = String::new();
    push_char(&mut s, '#');
    push_hex2(&mut s, c.red);
    push_hex2(&mut s, c.green);
    push_hex2(&mut s, c.blue);
    assert(s@ =~= rgb_hex(*c));
    s
}

// ---------- dates and people ----------

/// An approval date as `YYYY-MM-DD`, dropping the fields the file omits; empty
/// when even the year is absent.
pub open spec fn approval_date_text(d: DateParts) -> Seq<char> {
    match (d.year, d.month, d.day) {
        (Some(y), Some(m), Some(day)) => signed_padded(y as int, 4) + "-"@ + signed_padded(
            m as int,
            2,
        ) + "-"@ + signed_padded(day as int, 2),
        (Some(y), Some(m), None) => signed_padded(y as int, 4) + "-"@ + signed_padded(m as int, 2),
        (Some(y), _, _) => signed_padded(y as int, 0),
        _ => Seq::empty(),
    }
}

pub fn approval_date_string(d: &DateParts) -> (r: String)
    ensures
        r@ == approval_date_text(*d),
{
    let mut s = String::new();
    match (d.year, d.month, d.day) {
        (Some(y), Some(m), Some(day)) => {
            push_signed_padded(&mut s, y, 4);
            s.append("-");
            push_signed_padded(&mut s, m, 2);
            s.append("-");
            push_signed_padded(&mut s, day, 2);
        },
        (Some(y), Some(m), None) => {
            push_signed_padded(&mut s, y, 4);
            s.append("-");
            push_signed_padded(&mut s, m, 2);
        },
        (Some(y), _, _) => {
            push_signed_padded(&mut s, y, 0);
        },
        _ => {},
    }
    assert(s@ =~= approval_date_text(*d));
    s
}

/// A person's display name: "first last", trimmed; the person's id when that
/// is empty.
pub open spec fn person_name(p: PersonData) -> Seq<char> {
    let n = trimmed(opt_text(p.first_name) + " "@ + opt_text(p.last_name));
    if n.len() == 0 {
        p.id@
    } else {
        n
    }
}

pub fn opt_str(o: &Option<String>) -> (r: &str)
    ensures
        r@ == opt_text(*o),
{
    match o {
        Some(s) => s.as_str(),
        None => {
            proof {
                reveal_strlit("");
            }
            assert(""@ =~= Seq::<char>::empty());
            ""
        },
    }
}

pub fn person_name_string(p: &PersonData) -> (r: String)
    ensures
        r@ == person_name(*p),
{
    let mut full = String::from_str(opt_str(&p.first_name));
    full.append(" ");
    full.append(opt_str(&p.last_name));
    let n = trim(full.as_str());
    if n.as_str().unicode_len() == 0 {
        p.id.clone()
    } else {
        n
    }
}

// ---------- features ----------

/// "name (Kind)", or just the kind when the feature has no name.
pub open spec fn feature_label(f: FeatureInfo) -> Seq<char> {
    if f.name@.len() == 0 {
        f.kind@
    } else {
        f.name@ + " ("@ + f.kind@ + ")"@
    }
}

pub fn feature_label_string(f: &FeatureInfo) -> (r: String)
    ensures
        r@ == feature_label(*f),
{
    if f.name.as_str().unicode_len() == 0 {
        f.kind.clone()
    } else {
        let mut s = f.name.clone();
        s.append(" (");
        s.append(f.kind.as_str());
        s.append(")");
        s
    }
}

pub open spec fn geometry_ref_prefix(k: GeometryRefKind) -> Seq<char> {
    match k {
        GeometryRefKind::Face => "Face"@,
        GeometryRefKind::Edge => "Edge"@,
        GeometryRefKind::Point => "Point"@,
        GeometryRefKind::Solid => "Solid"@,
        GeometryRefKind::Curve => "Curve"@,
        GeometryRefKind::Other => "Other"@,
    }
}

/// A feature's geometry reference: what it designates, then the entity key.
pub open spec fn geometry_ref_label(g: GeometryRef) -> Seq<char> {
    geometry_ref_prefix(g.kind) + " "@ + g.key_text@
}

pub fn geometry_ref_label_string(g: &GeometryRef) -> (r: String)
    ensures
        r@ == geometry_ref_label(*g),
{
    let mut s = match g.kind {
        GeometryRefKind::Face => String::from_str("Face"),
        GeometryRefKind::Edge => String::from_str("Edge"),
        GeometryRefKind::Point => String::from_str("Point"),
        GeometryRefKind::Solid => String::from_str("Solid"),
        GeometryRefKind::Curve => String::from_str("Curve"),
        GeometryRefKind::Other => String::from_str("Other"),
    };
    s.append(" ");
    s.append(g.key_text.as_str());
    s
}



// ---------- detail-pane rows ----------

/// A row for an optional value: none when the value is absent.
pub open spec fn opt_row(key: Seq<char>, o: Option<String>) -> Seq<MetaView> {
    match o {
        Some(v) => seq![text_row(key, v@)],
        None => Seq::empty(),
    }
}

/// The "color" row of an optional colour.
pub open spec fn color_rows(c: Option<Rgb8>) -> Seq<MetaView> {
    match c {
        Some(c) => seq![text_row("color"@, rgb_hex(c))],
        None => Seq::empty(),
    }
}

/// The "visible: false" row of a hidden entity (none for a visible one).
pub open spec fn hidden_rows(visible: bool) -> Seq<MetaView> {
    if visible {
        Seq::empty()
    } else {
        seq![text_row("visible"@, "false"@)]
    }
}

pub fn push_row(v: &mut Vec<Meta>, m: Meta)
    ensures
        metas_view(final(v)@) == metas_view(old(v)@).push(m@),
{
    let ghost m_view = m@;
    v.push(m);
    assert(metas_view(final(v)@) =~= metas_view(old(v)@).push(m_view));
}

pub fn push_text_row(v: &mut Vec<Meta>, key: &str, value: &str)
    ensures
        metas_view(final(v)@) == metas_view(old(v)@).push(text_row(key@, value@)),
{
    push_row(v, kv(key, value));
}

pub fn push_opt_row(v: &mut Vec<Meta>, key: &str, o: &Option<String>)
    ensures
        metas_view(final(v)@) == metas_view(old(v)@) + opt_row(key@, *o),
{
    match o {
        Some(x) => {
            push_text_row(v, key, x.as_str());
            assert(metas_view(final(v)@) =~= metas_view(old(v)@) + opt_row(key@, *o));
        },
        None => {
            assert(metas_view(final(v)@) =~= metas_view(old(v)@) + opt_row(key@, *o));
        },
    }
}

pub fn push_color_row(v: &mut Vec<Meta>, c: &Option<Rgb8>)
    ensures
        metas_view(final(v)@) == metas_view(old(v)@) + color_rows(*c),
{
    match c {
        Some(x) => {
            let h = rgb_hex_string(x);
            push_text_row(v, "color", h.as_str());
            assert(metas_view(final(v)@) =~= metas_view(old(v)@) + color_rows(*c));
        },
        None => {
            assert(metas_view(final(v)@) =~= metas_view(old(v)@) + color_rows(*c));
        },
    }
}

pub fn push_hidden_row(v: &mut Vec<Meta>, visible: bool)
    ensures
        metas_view(final(v)@) == metas_view(old(v)@) + hidden_rows(visible),
{
    if !visible {
        push_text_row(v, "visible", "false");
    }
    assert(metas_view(final(v)@) =~= metas_view(old(v)@) + hidden_rows(visible));
}

/// A vertex's rows: its coordinates, where it has a point.
pub open spec fn vertex_meta(v: VertexData) -> Seq<MetaView> {
    match v.point {
        Some(p) => seq![text_row("coords"@, p.x@ + ", "@ + p.y@ + ", "@ + p.z@)],
        None => Seq::empty(),
    }
}

pub fn vertex_meta_rows(v: &VertexData) -> (r: Vec<Meta>)
    ensures
        metas_view(r@) == vertex_meta(*v),
{
    let mut r: Vec<Meta> = Vec::new();
    match &v.point {
        Some(p) => {
            let mut c = p.x.clone();
            c.append(", ");
            c.append(p.y.as_str());
            c.append(", ");
            c.append(p.z.as_str());
            push_text_row(&mut r, "coords", c.as_str());
        },
        None => {},
    }
    assert(metas_view(r@) =~= vertex_meta(*v));
    r
}

/// An edge's rows: curve kind, colour, width, line font, sense.
pub open spec fn edge_meta(e: EdgeData) -> Seq<MetaView> {
    seq![text_row("curve"@, kind_name(e.curve_kind@))] + color_rows(e.color) + opt_row(
        "width"@,
        e.width,
    ) + opt_row("line font"@, e.line_font) + seq![text_row("same sense"@, bool_text(e.same_sense))]
}

/// "Edge (Kind)".
pub open spec fn edge_label(e: EdgeData) -> Seq<char> {
    "Edge ("@ + kind_name(e.curve_kind@) + ")"@
}

pub fn edge_label_meta(e: &EdgeData) -> (r: (String, Vec<Meta>))
    ensures
        r.0@ == edge_label(*e),
        metas_view(r.1@) == edge_meta(*e),
{
    let cname = kind_name_string(e.curve_kind.as_str());
    let mut m: Vec<Meta> = Vec::new();
    push_text_row(&mut m, "curve", cname.as_str());
    push_color_row(&mut m, &e.color);
    push_opt_row(&mut m, "width", &e.width);
    push_opt_row(&mut m, "line font", &e.line_font);
    let ss = bool_string(e.same_sense);
    push_text_row(&mut m, "same sense", ss.as_str());
    let mut label = String::from_str("Edge (");
    label.append(cname.as_str());
    label.append(")");
    assert(metas_view(m@) =~= edge_meta(*e));
    (label, m)
}

/// A face's rows: surface kind, colour, transparency, layer, visibility, sense.
pub open spec fn face_meta(f: FaceData) -> Seq<MetaView> {
    seq![text_row("surface"@, kind_name(f.surface_kind@))] + color_rows(f.color) + opt_row(
        "transparency"@,
        f.transparency,
    ) + opt_row("layer"@, f.layer) + hidden_rows(f.visible) + seq![
        text_row("same sense"@, bool_text(f.same_sense)),
    ]
}

/// "Face (Kind)".
pub open spec fn face_label(f: FaceData) -> Seq<char> {
    "Face ("@ + kind_name(f.surface_kind@) + ")"@
}

pub fn face_label_meta(f: &FaceData) -> (r: (String, Vec<Meta>))
    ensures
        r.0@ == face_label(*f),
        metas_view(r.1@) == face_meta(*f),
{
    let sk = kind_name_string(f.surface_kind.as_str());
    let mut m: Vec<Meta> = Vec::new();
    push_text_row(&mut m, "surface", sk.as_str());
    push_color_row(&mut m, &f.color);
    push_opt_row(&mut m, "transparency", &f.transparency);
    push_opt_row(&mut m, "layer", &f.layer);
    push_hidden_row(&mut m, f.visible);
    let ss = bool_string(f.same_sense);
    push_text_row(&mut m, "same sense", ss.as_str());
    let mut label = String::from_str("Face (");
    label.append(sk.as_str());
    label.append(")");
    assert(metas_view(m@) =~= face_meta(*f));
    (label, m)
}

/// A solid's rows: name, colour, transparency, layer, visibility, face count.
pub open spec fn solid_meta(s: SolidData) -> Seq<MetaView> {
    (if s.name@.len() == 0 {
        Seq::empty()
    } else {
        seq![text_row("name"@, s.name@)]
    }) + color_rows(s.color) + opt_row("transparency"@, s.transparency) + opt_row(
        "layer"@,
        s.layer,
    ) + hidden_rows(s.visible) + seq![text_row("faces"@, decimal(s.faces@.len()))]
}

pub fn solid_meta_rows(s: &SolidData) -> (r: Vec<Meta>)
    ensures
        metas_view(r@) == solid_meta(*s),
{
    let mut m: Vec<Meta> = Vec::new();
    if s.name.as_str().unicode_len() != 0 {
        push_text_row(&mut m, "name", s.name.as_str());
    }
    let ghost first = metas_view(m@);
    push_color_row(&mut m, &s.color);
    push_opt_row(&mut m, "transparency", &s.transparency);
    push_opt_row(&mut m, "layer", &s.layer);
    push_hidden_row(&mut m, s.visible);
    let count = decimal_string(s.faces.len() as u64);
    push_text_row(&mut m, "faces", count.as_str());
    assert(metas_view(m@) =~= solid_meta(*s));
    m
}

} // verus!
