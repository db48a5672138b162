//! File-level information for the info panel: the Part 21 header, the
//! reader's report, and the units.
use vstd::prelude::*;
use vstd::string::StringExecFns;
use crate::labels::push_text_row;
use crate::model::{DroppedData, HeaderData, ReadReport, UnitData, UnitsData};
use crate::text::{decimal, join_strings, joined, strings_view};
use crate::tree::{metas_view, text_row, Meta, MetaView};

verus! {

/// The header as shown.
pub struct Header {
    pub file_name: String,
    pub time_stamp: String,
    pub author: Vec<String>,
    pub organization: Vec<String>,
    pub preprocessor: String,
    pub originating_system: String,
    pub authorisation: String,
    pub description: String,
    /// The identified schema's clean label, or the raw tokens where the family
    /// is unrecognized.
    pub schema: String,
    /// The raw `FILE_SCHEMA` tokens, verbatim.
    pub raw_schema: Vec<String>,
}

/// The reader's report as shown.
pub struct ReportSummary {
    pub n_in: usize,
    pub validated: usize,
    pub n_synth: usize,
    /// Each dropped entity: its id, and "Kind: KEY".
    pub dropped: Vec<(u64, String)>,
    pub norm: Vec<String>,
}

pub fn clone_strings(v: &Vec<String>) -> (r: Vec<String>)
    ensures
        strings_view(r@) == strings_view(v@),
{
    let mut r: Vec<String> = Vec::new();
    let mut i: usize = 0;
    while i < v.len()
        invariant
            i <= v.len(),
            strings_view(r@) == strings_view(v@.take(i as int)),
        decreases v.len() - i,
    {
        let ghost r0 = r@;
        let c = v[i].clone();
        r.push(c);
        proof {
            assert(v@.take(i + 1).drop_last() =~= v@.take(i as int));
            assert(r@.drop_last() =~= r0);
            assert(strings_view(r@) =~= strings_view(r0).push(c@));
            assert(strings_view(v@.take(i + 1)) =~= strings_view(v@.take(i as int)).push(v@[i as int]@));
        }
        i = i + 1;
    }
    assert(v@.take(i as int) =~= v@);
    r
}

/// The schema shown: the clean label of a recognized schema; for an
/// unrecognized family the raw `FILE_SCHEMA` tokens joined with ", " (more
/// informative), or the label where there are none.
pub open spec fn schema_text(h: HeaderData) -> Seq<char> {
    if h.schema_unrecognized {
        match h.schema_raw {
            Some(r) => joined(strings_view(r@), ", "@),
            None => h.schema_label@,
        }
    } else {
        h.schema_label@
    }
}

pub open spec fn raw_schema_view(h: HeaderData) -> Seq<Seq<char>> {
    match h.schema_raw {
        Some(r) => strings_view(r@),
        None => Seq::empty(),
    }
}

pub fn build_header(h: &HeaderData) -> (r: Header)
    ensures
        r.file_name@ == h.file_name@,
        r.time_stamp@ == h.time_stamp@,
        strings_view(r.author@) == strings_view(h.authors@),
        strings_view(r.organization@) == strings_view(h.organizations@),
        r.preprocessor@ == h.preprocessor_version@,
        r.originating_system@ == h.originating_system@,
        r.authorisation@ == h.authorisation@,
        r.description@ == h.description@,
        r.schema@ == schema_text(*h),
        strings_view(r.raw_schema@) == raw_schema_view(*h),
{
    let schema = if h.schema_unrecognized {
        match &h.schema_raw {
            Some(raw) => join_strings(raw, ", "),
            None => h.schema_label.clone(),
        }
    } else {
        h.schema_label.clone()
    };
    let raw_schema = match &h.schema_raw {
        Some(raw) => clone_strings(raw),
        None => Vec::new(),
    };
    proof {
        assert(strings_view(raw_schema@) =~= raw_schema_view(*h));
    }
    Header {
        file_name: h.file_name.clone(),
        time_stamp: h.time_stamp.clone(),
        author: clone_strings(&h.authors),
        organization: clone_strings(&h.organizations),
        preprocessor: h.preprocessor_version.clone(),
        originating_system: h.originating_system.clone(),
        authorisation: h.authorisation.clone(),
        description: h.description.clone(),
        schema,
        raw_schema,
    }
}

/// "Kind: KEY" for a dropped entity.
pub open spec fn dropped_text(d: DroppedData) -> Seq<char> {
    d.kind@ + ": "@ + d.key@
}

pub open spec fn dropped_view(v: Seq<(u64, String)>) -> Seq<(u64, Seq<char>)> {
    v.map_values(|e: (u64, String)| (e.0, e.1@))
}

pub open spec fn report_dropped(v: Seq<DroppedData>) -> Seq<(u64, Seq<char>)> {
    v.map_values(|d: DroppedData| (d.id, dropped_text(d)))
}

pub fn build_report(r: &ReadReport) -> (out: ReportSummary)
    ensures
        out.n_in == r.n_in,
        out.validated == r.validated,
        out.n_synth == r.n_synth,
        dropped_view(out.dropped@) == report_dropped(r.dropped@),
        strings_view(out.norm@) == strings_view(r.norm@),
{
    let mut dropped: Vec<(u64, String)> = Vec::new();
    let mut i: usize = 0;
    while i < r.dropped.len()
        invariant
            i <= r.dropped.len(),
            dropped_view(dropped@) == report_dropped(r.dropped@.take(i as int)),
        decreases r.dropped.len() - i,
    {
        let d = &r.dropped[i];
        let mut t = d.kind.clone();
        t.append(": ");
        t.append(d.key.as_str());
        let ghost d0 = dropped@;
        let ghost tv = t@;
        dropped.push((d.id, t));
        proof {
            assert(dropped_view(dropped@) =~= dropped_view(d0).push((d.id, tv)));
            assert(report_dropped(r.dropped@.take(i + 1)) =~= report_dropped(r.dropped@.take(i as int)).push(
                (d.id, dropped_text(*d)),
            ));
        }
        i = i + 1;
    }
    assert(r.dropped@.take(i as int) =~= r.dropped@);
    ReportSummary {
        n_in: r.n_in,
        validated: r.validated,
        n_synth: r.n_synth,
        dropped,
        norm: clone_strings(&r.norm),
    }
}

/// "name (×factor unit)".
pub open spec fn unit_text(u: UnitData, si: Seq<char>) -> Seq<char> {
    u.name@ + " (×"@ + u.to_si@ + " "@ + si + ")"@
}

/// The units: length and angle with their factors to SI, and the modelling
/// precision.
pub open spec fn units_rows(u: UnitsData) -> Seq<MetaView> {
    (match u.length {
        Some(l) => seq![text_row("length"@, unit_text(l, "m"@))],
        None => Seq::empty(),
    }) + (match u.angle {
        Some(a) => seq![text_row("angle"@, unit_text(a, "rad"@))],
        None => Seq::empty(),
    }) + (match u.precision {
        Some(p) => seq![text_row("precision"@, p@)],
        None => Seq::empty(),
    })
}

fn unit_string(u: &UnitData, si: &str) -> (r: String)
    ensures
        r@ == unit_text(*u, si@),
{
    let mut s = u.name.clone();
    s.append(" (×");
    s.append(u.to_si.as_str());
    s.append(" ");
    s.append(si);
    s.append(")");
    s
}

pub fn build_units(u: &UnitsData) -> (r: Vec<Meta>)
    ensures
        metas_view(r@) == units_rows(*u),
{
    let mut r: Vec<Meta> = Vec::new();
    match &u.length {
        Some(l) => {
            let t = unit_string(l, "m");
            push_text_row(&mut r, "length", t.as_str());
        },
        None => {},
    }
    match &u.angle {
        Some(a) => {
            let t = unit_string(a, "rad");
            push_text_row(&mut r, "angle", t.as_str());
        },
        None => {},
    }
    match &u.precision {
        Some(p) => {
            push_text_row(&mut r, "precision", p.as_str());
        },
        None => {},
    }
    assert(metas_view(r@) =~= units_rows(*u));
    r
}

/// The error shown when the file cannot be read.
pub open spec fn parse_failure_text(e: Seq<char>) -> Seq<char> {
    "parse failed: "@ + e
}

pub fn parse_failure(e: &str) -> (r: String)
    ensures
        r@ == parse_failure_text(e@),
{
    let mut s = String::from_str("parse failed: ");
    s.append(e);
    s
}

} // verus!
