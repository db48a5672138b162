//! Features, PMI (dimensions, tolerances, datums) and display meshes.
//!
//! Features are numbered first, so PMI can refer to each by node number and
//! inherit its highlight ids (those recorded for the geometry it references).
//! Datums are numbered next, so tolerances can refer to them; in the PMI group
//! they follow the dimensions and tolerances.
use vstd::prelude::*;
use vstd::string::StringExecFns;
use std::collections::HashMap;
use crate::builder::{geom_valid, hl_get, hl_view, request_valid, wrap_inc, Builder};
use crate::labels::{
    feature_label, feature_label_string, geometry_ref_label, geometry_ref_label_string, push_text_row,
};
use crate::model::{
    DatumData, DatumRef, DimensionData, FeatureData, FeatureInfo, GeometryRef, SceneModel,
    ToleranceData,
};
use crate::labels::{opt_row, push_opt_row};
use crate::product::{filled_row, nonempty_row, push_filled_row, push_nonempty_row};
use crate::text::{decimal, decimal_string, join_strings, joined, strings_view};
use crate::tree::{metas_view, text_row, GeomRequest, Meta, MetaView, Node, NodeKind};

verus! {

broadcast use vstd::std_specs::hash::group_hash_axioms;

/// The `i`-th id handed out from `base` on (wrapping around).
pub open spec fn nth_id(base: u32, i: int) -> u32 {
    ((base + i) % 0x1_0000_0000int) as u32
}

pub proof fn lemma_nth_id_step(base: u32, i: int)
    requires
        i >= 0,
    ensures
        wrap_inc(nth_id(base, i)) == nth_id(base, i + 1),
        nth_id(base, 0) == base,
{
    let x = (base + i) % 0x1_0000_0000int;
    assert(0 <= x < 0x1_0000_0000int);
    assert((base + i + 1) % 0x1_0000_0000int == if x == 0xffff_ffffint {
        0
    } else {
        x + 1
    }) by (nonlinear_arith)
        requires
            x == (base + i) % 0x1_0000_0000int,
            base + i >= 0,
    ;
}

pub open spec fn entries_view(v: Seq<(u32, Vec<u32>)>) -> Seq<(u32, Seq<u32>)> {
    v.map_values(|e: (u32, Vec<u32>)| (e.0, e.1@))
}

pub fn copy_ids(v: &Vec<u32>) -> (r: Vec<u32>)
    ensures
        r@ == v@,
{
    let mut r: Vec<u32> = Vec::new();
    let mut i: usize = 0;
    while i < v.len()
        invariant
            i <= v.len(),
            r@ == v@.take(i as int),
        decreases v.len() - i,
    {
        r.push(v[i]);
        i = i + 1;
        assert(r@ =~= v@.take(i as int));
    }
    assert(v@.take(i as int) =~= v@);
    r
}

/// Appends `ids` to `v`.
pub fn extend_ids(v: &mut Vec<u32>, ids: &Vec<u32>)
    ensures
        final(v)@ == old(v)@ + ids@,
{
    let mut c = copy_ids(ids);
    v.append(&mut c);
}

// ---------- features ----------

/// The ids that highlight a feature: those recorded for each geometry it
/// references, in order.
pub open spec fn geometry_hl(hl: Map<u64, Seq<u32>>, gs: Seq<GeometryRef>) -> Seq<u32>
    decreases gs.len(),
{
    if gs.len() == 0 {
        Seq::empty()
    } else {
        geometry_hl(hl, gs.drop_last()) + hl_get(hl, gs.last().key)
    }
}

/// One "ref" row per referenced geometry.
pub open spec fn ref_rows(gs: Seq<GeometryRef>) -> Seq<MetaView>
    decreases gs.len(),
{
    if gs.len() == 0 {
        Seq::empty()
    } else {
        ref_rows(gs.drop_last()).push(text_row("ref"@, geometry_ref_label(gs.last())))
    }
}

/// A feature's rows: its description, then the geometry it references.
pub open spec fn feature_rows(f: FeatureData) -> Seq<MetaView> {
    filled_row("description"@, f.description) + ref_rows(f.geometry@)
}

/// Feature `i`'s node: id `i` from `base`, its label and rows.
pub open spec fn feature_node_ok(m: SceneModel, i: int, base: u32, n: Node) -> bool {
    let f = m.features@[i];
    &&& n.id == nth_id(base, i)
    &&& n.kind == NodeKind::Feature
    &&& n.label@ == feature_label(f.info)
    &&& metas_view(n.meta@) == feature_rows(f)
    &&& n.children@.len() == 0
}

/// The last of the first `k` features with key `key`.
pub open spec fn last_feature(m: SceneModel, key: u64, k: int) -> Option<int>
    decreases k,
{
    if k <= 0 {
        None
    } else if m.features@[k - 1].info.key == key {
        Some(k - 1)
    } else {
        last_feature(m, key, k - 1)
    }
}

/// What PMI finds for a feature key: the node id and highlight ids of the
/// last feature listed with that key.
pub open spec fn feature_entry(m: SceneModel, key: u64, base: u32, hl: Map<u64, Seq<u32>>) -> Option<
    (u32, Seq<u32>),
> {
    match last_feature(m, key, m.features@.len() as int) {
        Some(i) => Some((nth_id(base, i), geometry_hl(hl, m.features@[i].geometry@))),
        None => None,
    }
}

/// The feature map after the first `k` features.
pub open spec fn feature_map_ok(
    m: SceneModel,
    fm: Map<u64, (u32, Vec<u32>)>,
    base: u32,
    hl: Map<u64, Seq<u32>>,
    k: int,
) -> bool {
    forall|key: u64|
        #![trigger fm.contains_key(key)]
        #![trigger last_feature(m, key, k)]
        (fm.contains_key(key) <==> last_feature(m, key, k) is Some) && (fm.contains_key(key) ==> {
            let i = last_feature(m, key, k)->0;
            &&& fm[key].0 == nth_id(base, i)
            &&& fm[key].1@ == geometry_hl(hl, m.features@[i].geometry@)
        })
}

/// The highlight entries of the first `k` features: those whose highlight
/// ids are not empty.
pub open spec fn feature_hl_entries(m: SceneModel, base: u32, hl: Map<u64, Seq<u32>>, k: int) -> Seq<
    (u32, Seq<u32>),
>
    decreases k,
{
    if k <= 0 {
        Seq::empty()
    } else {
        let h = geometry_hl(hl, m.features@[k - 1].geometry@);
        feature_hl_entries(m, base, hl, k - 1) + if h.len() > 0 {
            seq![(nth_id(base, k - 1), h)]
        } else {
            Seq::empty()
        }
    }
}

/// The rows and highlight ids of one feature.
fn feature_parts(b: &Builder, f: &FeatureData) -> (r: (Vec<Meta>, Vec<u32>))
    ensures
        metas_view(r.0@) == feature_rows(*f),
        r.1@ == geometry_hl(hl_view(b.hl_ids@), f.geometry@),
{
    let ghost hl = hl_view(b.hl_ids@);
    let mut meta: Vec<Meta> = Vec::new();
    push_filled_row(&mut meta, "description", &f.description);
    let ghost first = metas_view(meta@);
    let mut ids: Vec<u32> = Vec::new();
    let mut j: usize = 0;
    while j < f.geometry.len()
        invariant
            j <= f.geometry@.len(),
            hl == hl_view(b.hl_ids@),
            metas_view(meta@) == first + ref_rows(f.geometry@.take(j as int)),
            ids@ == geometry_hl(hl, f.geometry@.take(j as int)),
        decreases f.geometry@.len() - j,
    {
        let g = &f.geometry[j];
        let label = geometry_ref_label_string(g);
        push_text_row(&mut meta, "ref", label.as_str());
        let ghost ids0 = ids@;
        match b.hl_ids.get(&g.key) {
            Some(found) => {
                extend_ids(&mut ids, found);
                assert(hl.contains_key(g.key));
                assert(hl[g.key] == found@);
            },
            None => {
                assert(!hl.contains_key(g.key));
            },
        }
        proof {
            assert(f.geometry@.take(j + 1).drop_last() =~= f.geometry@.take(j as int));
            assert(ids@ =~= ids0 + hl_get(hl, g.key));
        }
        j = j + 1;
        assert(metas_view(meta@) =~= first + ref_rows(f.geometry@.take(j as int)));
    }
    assert(f.geometry@.take(j as int) =~= f.geometry@);
    (meta, ids)
}

/// Numbers the features, and collects what PMI needs to refer to them.
pub fn feature_nodes(b: &mut Builder, m: &SceneModel) -> (r: (
    Vec<Node>,
    HashMap<u64, (u32, Vec<u32>)>,
    Vec<(u32, Vec<u32>)>,
))
    ensures
        final(b).next == nth_id(old(b).next, m.features@.len() as int),
        final(b).geom@ == old(b).geom@,
        final(b).hl_ids@ == old(b).hl_ids@,
        final(b).frames@ == old(b).frames@,
        r.0@.len() == m.features@.len(),
        forall|i: int|
            0 <= i < m.features@.len() ==> feature_node_ok(*m, i, old(b).next, #[trigger] r.0@[i]),
        feature_map_ok(*m, r.1@, old(b).next, hl_view(old(b).hl_ids@), m.features@.len() as int),
        entries_view(r.2@) == feature_hl_entries(
            *m,
            old(b).next,
            hl_view(old(b).hl_ids@),
            m.features@.len() as int,
        ),
{
    let ghost base = b.next;
    let ghost hl = hl_view(b.hl_ids@);
    let mut nodes: Vec<Node> = Vec::new();
    let mut fm: HashMap<u64, (u32, Vec<u32>)> = HashMap::new();
    let mut out: Vec<(u32, Vec<u32>)> = Vec::new();
    let mut i: usize = 0;
    proof {
        lemma_nth_id_step(base, 0);
        assert(entries_view(out@) =~= feature_hl_entries(*m, base, hl, 0));
    }
    while i < m.features.len()
        invariant
            i <= m.features@.len(),
            b.next == nth_id(base, i as int),
            b.geom@ == old(b).geom@,
            b.hl_ids@ == old(b).hl_ids@,
            b.frames@ == old(b).frames@,
            base == old(b).next,
            hl == hl_view(b.hl_ids@),
            nodes@.len() == i,
            forall|t: int| 0 <= t < i ==> feature_node_ok(*m, t, base, #[trigger] nodes@[t]),
            feature_map_ok(*m, fm@, base, hl, i as int),
            entries_view(out@) == feature_hl_entries(*m, base, hl, i as int),
        decreases m.features@.len() - i,
    {
        let f = &m.features[i];
        let node_id = b.next();
        proof {
            lemma_nth_id_step(base, i as int);
        }
        let (meta, ids) = feature_parts(b, f);
        let ghost out0 = out@;
        if ids.len() > 0 {
            out.push((node_id, copy_ids(&ids)));
        }
        proof {
            assert(entries_view(out@) =~= feature_hl_entries(*m, base, hl, i + 1));
        }
        let ghost fm0 = fm@;
        fm.insert(f.info.key, (node_id, ids));
        proof {
            assert forall|key: u64|
                #![trigger fm@.contains_key(key)]
                #![trigger last_feature(*m, key, i + 1)]
                (fm@.contains_key(key) <==> last_feature(*m, key, i + 1) is Some) && (fm@.contains_key(
                    key,
                ) ==> {
                    let t = last_feature(*m, key, i + 1)->0;
                    &&& fm@[key].0 == nth_id(base, t)
                    &&& fm@[key].1@ == geometry_hl(hl, m.features@[t].geometry@)
                }) by {
                if key != f.info.key {
                    assert(last_feature(*m, key, i + 1) == last_feature(*m, key, i as int));
                    assert(fm0.contains_key(key) <==> last_feature(*m, key, i as int) is Some);
                }
            }
        }
        let label = feature_label_string(&f.info);
        let n = Node { id: node_id, kind: NodeKind::Feature, label, meta, children: Vec::new() };
        nodes.push(n);
        i = i + 1;
    }
    (nodes, fm, out)
}


// ---------- datums ----------

/// The feature a datum is based on, as PMI finds it.
pub open spec fn based_on(m: SceneModel, dt: DatumData, fbase: u32, hl: Map<u64, Seq<u32>>) -> Option<
    (u32, Seq<u32>),
> {
    match dt.feature {
        Some(fk) => feature_entry(m, fk, fbase, hl),
        None => None,
    }
}

/// "Feature #id".
pub open spec fn feature_ref_text(id: u32) -> Seq<char> {
    "Feature #"@ + decimal(id as nat)
}

/// A datum's rows: its letter, name, and the feature it is based on (by node
/// number).
pub open spec fn datum_rows(m: SceneModel, dt: DatumData, fbase: u32, hl: Map<u64, Seq<u32>>) -> Seq<
    MetaView,
> {
    seq![text_row("letter"@, dt.letter@)] + nonempty_row("name"@, dt.name@) + match based_on(
        m,
        dt,
        fbase,
        hl,
    ) {
        Some(e) => seq![text_row("based on"@, feature_ref_text(e.0))],
        None => Seq::empty(),
    }
}

/// Datum `i`'s node: id `i` from `dbase`, "Datum X", its rows.
pub open spec fn datum_node_ok(
    m: SceneModel,
    i: int,
    dbase: u32,
    fbase: u32,
    hl: Map<u64, Seq<u32>>,
    n: Node,
) -> bool {
    let dt = m.datums@[i];
    &&& n.id == nth_id(dbase, i)
    &&& n.kind == NodeKind::Datum
    &&& n.label@ == "Datum "@ + dt.letter@
    &&& metas_view(n.meta@) == datum_rows(m, dt, fbase, hl)
    &&& n.children@.len() == 0
}

/// The last of the first `k` datums with key `key`.
pub open spec fn last_datum(m: SceneModel, key: u64, k: int) -> Option<int>
    decreases k,
{
    if k <= 0 {
        None
    } else if m.datums@[k - 1].key == key {
        Some(k - 1)
    } else {
        last_datum(m, key, k - 1)
    }
}

/// The node id of the last datum listed with key `key`.
pub open spec fn datum_entry(m: SceneModel, key: u64, dbase: u32) -> Option<u32> {
    match last_datum(m, key, m.datums@.len() as int) {
        Some(i) => Some(nth_id(dbase, i)),
        None => None,
    }
}

pub open spec fn datum_map_ok(m: SceneModel, dm: Map<u64, u32>, dbase: u32, k: int) -> bool {
    forall|key: u64|
        #![trigger dm.contains_key(key)]
        #![trigger last_datum(m, key, k)]
        (dm.contains_key(key) <==> last_datum(m, key, k) is Some) && (dm.contains_key(key) ==> dm[key]
            == nth_id(dbase, last_datum(m, key, k)->0))
}

/// Highlight entries of the first `k` datums: a datum highlights what the
/// feature it is based on highlights.
pub open spec fn datum_hl_entries(
    m: SceneModel,
    dbase: u32,
    fbase: u32,
    hl: Map<u64, Seq<u32>>,
    k: int,
) -> Seq<(u32, Seq<u32>)>
    decreases k,
{
    if k <= 0 {
        Seq::empty()
    } else {
        datum_hl_entries(m, dbase, fbase, hl, k - 1) + match based_on(m, m.datums@[k - 1], fbase, hl) {
            Some(e) => if e.1.len() > 0 {
                seq![(nth_id(dbase, k - 1), e.1)]
            } else {
                Seq::empty()
            },
            None => Seq::empty(),
        }
    }
}

/// Looks a feature key up in the feature map.
fn find_feature(
    fm: &HashMap<u64, (u32, Vec<u32>)>,
    key: u64,
    Ghost(m): Ghost<SceneModel>,
    Ghost(fbase): Ghost<u32>,
    Ghost(hl): Ghost<Map<u64, Seq<u32>>>,
) -> (r: Option<(u32, Vec<u32>)>)
    requires
        feature_map_ok(m, fm@, fbase, hl, m.features@.len() as int),
    ensures
        match (r, feature_entry(m, key, fbase, hl)) {
            (Some(a), Some(e)) => a.0 == e.0 && a.1@ == e.1,
            (None, None) => true,
            _ => false,
        },
{
    match fm.get(&key) {
        Some(e) => {
            assert(fm@.contains_key(key));
            Some((e.0, copy_ids(&e.1)))
        },
        None => {
            assert(!fm@.contains_key(key));
            None
        },
    }
}

/// Numbers the datums (after the features).
pub(crate) fn datum_nodes(
    b: &mut Builder,
    m: &SceneModel,
    fm: &HashMap<u64, (u32, Vec<u32>)>,
    Ghost(fbase): Ghost<u32>,
    Ghost(hl): Ghost<Map<u64, Seq<u32>>>,
) -> (r: (Vec<Node>, HashMap<u64, u32>, Vec<(u32, Vec<u32>)>))
    requires
        feature_map_ok(*m, fm@, fbase, hl, m.features@.len() as int),
    ensures
        final(b).next == nth_id(old(b).next, m.datums@.len() as int),
        final(b).geom@ == old(b).geom@,
        final(b).hl_ids@ == old(b).hl_ids@,
        final(b).frames@ == old(b).frames@,
        r.0@.len() == m.datums@.len(),
        forall|i: int|
            0 <= i < m.datums@.len() ==> datum_node_ok(
                *m,
                i,
                old(b).next,
                fbase,
                hl,
                #[trigger] r.0@[i],
            ),
        datum_map_ok(*m, r.1@, old(b).next, m.datums@.len() as int),
        entries_view(r.2@) == datum_hl_entries(*m, old(b).next, fbase, hl, m.datums@.len() as int),
{
    let ghost base = b.next;
    let mut nodes: Vec<Node> = Vec::new();
    let mut dm: HashMap<u64, u32> = HashMap::new();
    let mut out: Vec<(u32, Vec<u32>)> = Vec::new();
    let mut i: usize = 0;
    proof {
        lemma_nth_id_step(base, 0);
        assert(entries_view(out@) =~= datum_hl_entries(*m, base, fbase, hl, 0));
    }
    while i < m.datums.len()
        invariant
            i <= m.datums@.len(),
            feature_map_ok(*m, fm@, fbase, hl, m.features@.len() as int),
            b.next == nth_id(base, i as int),
            b.geom@ == old(b).geom@,
            b.hl_ids@ == old(b).hl_ids@,
            b.frames@ == old(b).frames@,
            base == old(b).next,
            nodes@.len() == i,
            forall|t: int| 0 <= t < i ==> datum_node_ok(*m, t, base, fbase, hl, #[trigger] nodes@[t]),
            datum_map_ok(*m, dm@, base, i as int),
            entries_view(out@) == datum_hl_entries(*m, base, fbase, hl, i as int),
        decreases m.datums@.len() - i,
    {
        let dt = &m.datums[i];
        let id = b.next();
        proof {
            lemma_nth_id_step(base, i as int);
        }
        let mut meta: Vec<Meta> = Vec::new();
        push_text_row(&mut meta, "letter", dt.letter.as_str());
        push_nonempty_row(&mut meta, "name", dt.name.as_str());
        let ghost m0 = metas_view(meta@);
        let ghost out0 = out@;
        match dt.feature {
            Some(fk) => {
                match find_feature(fm, fk, Ghost(*m), Ghost(fbase), Ghost(hl)) {
                    Some(e) => {
                        let mut t = String::from_str("Feature #");
                        let digits = decimal_string(e.0 as u64);
                        t.append(digits.as_str());
                        push_text_row(&mut meta, "based on", t.as_str());
                        if e.1.len() > 0 {
                            out.push((id, e.1));
                        }
                    },
                    None => {},
                }
            },
            None => {},
        }
        proof {
            assert(metas_view(meta@) =~= datum_rows(*m, *dt, fbase, hl));
            assert(entries_view(out@) =~= datum_hl_entries(*m, base, fbase, hl, i + 1));
        }
        let ghost dm0 = dm@;
        dm.insert(dt.key, id);
        proof {
            assert forall|key: u64|
                #![trigger dm@.contains_key(key)]
                #![trigger last_datum(*m, key, i + 1)]
                (dm@.contains_key(key) <==> last_datum(*m, key, i + 1) is Some) && (dm@.contains_key(key)
                    ==> dm@[key] == nth_id(base, last_datum(*m, key, i + 1)->0)) by {
                if key != dt.key {
                    assert(last_datum(*m, key, i + 1) == last_datum(*m, key, i as int));
                    assert(dm0.contains_key(key) <==> last_datum(*m, key, i as int) is Some);
                }
            }
        }
        let mut label = String::from_str("Datum ");
        label.append(dt.letter.as_str());
        nodes.push(Node { id, kind: NodeKind::Datum, label, meta, children: Vec::new() });
        i = i + 1;
    }
    (nodes, dm, out)
}

// ---------- dimensions and tolerances ----------

/// The "applies to" row of a PMI item: the feature by node number where it is
/// listed, else by label.
pub open spec fn apply_row(m: SceneModel, f: FeatureInfo, fbase: u32, hl: Map<u64, Seq<u32>>) -> MetaView {
    match feature_entry(m, f.key, fbase, hl) {
        Some(e) => text_row("applies to"@, feature_ref_text(e.0) + ": "@ + feature_label(f)),
        None => text_row("applies to"@, feature_label(f)),
    }
}

/// The highlight ids a PMI item inherits from a feature it applies to.
pub open spec fn apply_hl(m: SceneModel, f: FeatureInfo, fbase: u32, hl: Map<u64, Seq<u32>>) -> Seq<u32> {
    match feature_entry(m, f.key, fbase, hl) {
        Some(e) => e.1,
        None => Seq::empty(),
    }
}

pub open spec fn applies_rows(m: SceneModel, fs: Seq<FeatureInfo>, fbase: u32, hl: Map<u64, Seq<u32>>) -> Seq<
    MetaView,
>
    decreases fs.len(),
{
    if fs.len() == 0 {
        Seq::empty()
    } else {
        applies_rows(m, fs.drop_last(), fbase, hl).push(apply_row(m, fs.last(), fbase, hl))
    }
}

pub open spec fn applies_hl(m: SceneModel, fs: Seq<FeatureInfo>, fbase: u32, hl: Map<u64, Seq<u32>>) -> Seq<
    u32,
>
    decreases fs.len(),
{
    if fs.len() == 0 {
        Seq::empty()
    } else {
        applies_hl(m, fs.drop_last(), fbase, hl) + apply_hl(m, fs.last(), fbase, hl)
    }
}

/// Records one "applies to" reference.
fn push_apply(
    meta: &mut Vec<Meta>,
    ids: &mut Vec<u32>,
    fm: &HashMap<u64, (u32, Vec<u32>)>,
    f: &FeatureInfo,
    Ghost(m): Ghost<SceneModel>,
    Ghost(fbase): Ghost<u32>,
    Ghost(hl): Ghost<Map<u64, Seq<u32>>>,
)
    requires
        feature_map_ok(m, fm@, fbase, hl, m.features@.len() as int),
    ensures
        metas_view(final(meta)@) == metas_view(old(meta)@).push(apply_row(m, *f, fbase, hl)),
        final(ids)@ == old(ids)@ + apply_hl(m, *f, fbase, hl),
{
    let label = feature_label_string(f);
    match find_feature(fm, f.key, Ghost(m), Ghost(fbase), Ghost(hl)) {
        Some(e) => {
            let mut t = String::from_str("Feature #");
            let digits = decimal_string(e.0 as u64);
            t.append(digits.as_str());
            t.append(": ");
            t.append(label.as_str());
            push_text_row(meta, "applies to", t.as_str());
            extend_ids(ids, &e.1);
        },
        None => {
            push_text_row(meta, "applies to", label.as_str());
            assert(ids@ =~= old(ids)@ + apply_hl(m, *f, fbase, hl));
        },
    }
}

/// A dimension's rows: its value, then the features it applies to.
pub open spec fn dimension_rows(m: SceneModel, d: DimensionData, fbase: u32, hl: Map<u64, Seq<u32>>) -> Seq<
    MetaView,
> {
    opt_row("value"@, d.value) + applies_rows(m, d.features@, fbase, hl)
}

/// "Dimension (Kind): value", or "Dimension (Kind)" without a value.
pub open spec fn dimension_label(d: DimensionData) -> Seq<char> {
    match d.value {
        Some(v) => "Dimension ("@ + d.kind@ + "): "@ + v@,
        None => "Dimension ("@ + d.kind@ + ")"@,
    }
}

pub open spec fn dimension_node_ok(
    m: SceneModel,
    i: int,
    base: u32,
    fbase: u32,
    hl: Map<u64, Seq<u32>>,
    n: Node,
) -> bool {
    let d = m.dimensions@[i];
    &&& n.id == nth_id(base, i)
    &&& n.kind == NodeKind::Dimension
    &&& n.label@ == dimension_label(d)
    &&& metas_view(n.meta@) == dimension_rows(m, d, fbase, hl)
    &&& n.children@.len() == 0
}

pub open spec fn dimension_hl_entries(
    m: SceneModel,
    base: u32,
    fbase: u32,
    hl: Map<u64, Seq<u32>>,
    k: int,
) -> Seq<(u32, Seq<u32>)>
    decreases k,
{
    if k <= 0 {
        Seq::empty()
    } else {
        let h = applies_hl(m, m.dimensions@[k - 1].features@, fbase, hl);
        dimension_hl_entries(m, base, fbase, hl, k - 1) + if h.len() > 0 {
            seq![(nth_id(base, k - 1), h)]
        } else {
            Seq::empty()
        }
    }
}

/// Numbers the dimensions (after the datums).
pub(crate) fn dimension_nodes(
    b: &mut Builder,
    m: &SceneModel,
    fm: &HashMap<u64, (u32, Vec<u32>)>,
    Ghost(fbase): Ghost<u32>,
    Ghost(hl): Ghost<Map<u64, Seq<u32>>>,
) -> (r: (Vec<Node>, Vec<(u32, Vec<u32>)>))
    requires
        feature_map_ok(*m, fm@, fbase, hl, m.features@.len() as int),
    ensures
        final(b).next == nth_id(old(b).next, m.dimensions@.len() as int),
        final(b).geom@ == old(b).geom@,
        final(b).hl_ids@ == old(b).hl_ids@,
        final(b).frames@ == old(b).frames@,
        r.0@.len() == m.dimensions@.len(),
        forall|i: int|
            0 <= i < m.dimensions@.len() ==> dimension_node_ok(
                *m,
                i,
                old(b).next,
                fbase,
                hl,
                #[trigger] r.0@[i],
            ),
        entries_view(r.1@) == dimension_hl_entries(*m, old(b).next, fbase, hl, m.dimensions@.len() as int),
{
    let ghost base = b.next;
    let mut nodes: Vec<Node> = Vec::new();
    let mut out: Vec<(u32, Vec<u32>)> = Vec::new();
    let mut i: usize = 0;
    proof {
        lemma_nth_id_step(base, 0);
        assert(entries_view(out@) =~= dimension_hl_entries(*m, base, fbase, hl, 0));
    }
    while i < m.dimensions.len()
        invariant
            i <= m.dimensions@.len(),
            feature_map_ok(*m, fm@, fbase, hl, m.features@.len() as int),
            b.next == nth_id(base, i as int),
            b.geom@ == old(b).geom@,
            b.hl_ids@ == old(b).hl_ids@,
            b.frames@ == old(b).frames@,
            base == old(b).next,
            nodes@.len() == i,
            forall|t: int| 0 <= t < i ==> dimension_node_ok(*m, t, base, fbase, hl, #[trigger] nodes@[t]),
            entries_view(out@) == dimension_hl_entries(*m, base, fbase, hl, i as int),
        decreases m.dimensions@.len() - i,
    {
        let d = &m.dimensions[i];
        let id = b.next();
        proof {
            lemma_nth_id_step(base, i as int);
        }
        let mut meta: Vec<Meta> = Vec::new();
        push_opt_row(&mut meta, "value", &d.value);
        let mut label = String::from_str("Dimension (");
        label.append(d.kind.as_str());
        match &d.value {
            Some(v) => {
                label.append("): ");
                label.append(v.as_str());
            },
            None => {
                label.append(")");
            },
        }
        let ghost m0 = metas_view(meta@);
        let mut ids: Vec<u32> = Vec::new();
        let mut j: usize = 0;
        while j < d.features.len()
            invariant
                j <= d.features@.len(),
                feature_map_ok(*m, fm@, fbase, hl, m.features@.len() as int),
                metas_view(meta@) == m0 + applies_rows(*m, d.features@.take(j as int), fbase, hl),
                ids@ == applies_hl(*m, d.features@.take(j as int), fbase, hl),
            decreases d.features@.len() - j,
        {
            push_apply(&mut meta, &mut ids, fm, &d.features[j], Ghost(*m), Ghost(fbase), Ghost(hl));
            proof {
                assert(d.features@.take(j + 1).drop_last() =~= d.features@.take(j as int));
            }
            j = j + 1;
            assert(metas_view(meta@) =~= m0 + applies_rows(*m, d.features@.take(j as int), fbase, hl));
        }
        proof {
            assert(d.features@.take(j as int) =~= d.features@);
        }
        let ghost out0 = out@;
        if ids.len() > 0 {
            out.push((id, ids));
        }
        proof {
            assert(entries_view(out@) =~= dimension_hl_entries(*m, base, fbase, hl, i + 1));
            assert(metas_view(meta@) =~= dimension_rows(*m, *d, fbase, hl));
        }
        nodes.push(Node { id, kind: NodeKind::Dimension, label, meta, children: Vec::new() });
        i = i + 1;
    }
    (nodes, out)
}

/// One "datum" row per datum a tolerance refers to: by node number where the
/// datum is listed.
pub open spec fn datum_ref_rows(m: SceneModel, ds: Seq<DatumRef>, dbase: u32) -> Seq<MetaView>
    decreases ds.len(),
{
    if ds.len() == 0 {
        Seq::empty()
    } else {
        let d = ds.last();
        datum_ref_rows(m, ds.drop_last(), dbase).push(
            match datum_entry(m, d.key, dbase) {
                Some(nid) => text_row("datum"@, "Datum #"@ + decimal(nid as nat) + ": "@ + d.letter@),
                None => text_row("datum"@, d.letter@),
            },
        )
    }
}

pub open spec fn datum_letters(ds: Seq<DatumRef>) -> Seq<Seq<char>> {
    ds.map_values(|d: DatumRef| d.letter@)
}

/// ": magnitude", then " | A,B" with the datum letters.
pub open spec fn tolerance_tail(t: ToleranceData) -> Seq<char> {
    (match t.magnitude {
        Some(x) => ": "@ + x@,
        None => Seq::empty(),
    }) + if t.datums@.len() > 0 {
        " | "@ + joined(datum_letters(t.datums@), ","@)
    } else {
        Seq::empty()
    }
}

pub open spec fn tolerance_label(t: ToleranceData) -> Seq<char> {
    "Tolerance ("@ + t.kind@ + ")"@ + tolerance_tail(t)
}

/// A tolerance's rows: magnitude, datums, the feature it applies to.
pub open spec fn tolerance_rows(
    m: SceneModel,
    t: ToleranceData,
    dbase: u32,
    fbase: u32,
    hl: Map<u64, Seq<u32>>,
) -> Seq<MetaView> {
    opt_row("magnitude"@, t.magnitude) + datum_ref_rows(m, t.datums@, dbase) + match t.feature {
        Some(f) => seq![apply_row(m, f, fbase, hl)],
        None => Seq::empty(),
    }
}

pub open spec fn tolerance_hl(m: SceneModel, t: ToleranceData, fbase: u32, hl: Map<u64, Seq<u32>>) -> Seq<u32> {
    match t.feature {
        Some(f) => apply_hl(m, f, fbase, hl),
        None => Seq::empty(),
    }
}

pub open spec fn tolerance_node_ok(
    m: SceneModel,
    i: int,
    base: u32,
    dbase: u32,
    fbase: u32,
    hl: Map<u64, Seq<u32>>,
    n: Node,
) -> bool {
    let t = m.tolerances@[i];
    &&& n.id == nth_id(base, i)
    &&& n.kind == NodeKind::Tolerance
    &&& n.label@ == tolerance_label(t)
    &&& metas_view(n.meta@) == tolerance_rows(m, t, dbase, fbase, hl)
    &&& n.children@.len() == 0
}

pub open spec fn tolerance_hl_entries(
    m: SceneModel,
    base: u32,
    fbase: u32,
    hl: Map<u64, Seq<u32>>,
    k: int,
) -> Seq<(u32, Seq<u32>)>
    decreases k,
{
    if k <= 0 {
        Seq::empty()
    } else {
        let h = tolerance_hl(m, m.tolerances@[k - 1], fbase, hl);
        tolerance_hl_entries(m, base, fbase, hl, k - 1) + if h.len() > 0 {
            seq![(nth_id(base, k - 1), h)]
        } else {
            Seq::empty()
        }
    }
}

fn find_datum(dm: &HashMap<u64, u32>, key: u64, Ghost(m): Ghost<SceneModel>, Ghost(dbase): Ghost<u32>) -> (r: Option<u32>)
    requires
        datum_map_ok(m, dm@, dbase, m.datums@.len() as int),
    ensures
        r == datum_entry(m, key, dbase),
{
    match dm.get(&key) {
        Some(id) => {
            assert(dm@.contains_key(key));
            Some(*id)
        },
        None => {
            assert(!dm@.contains_key(key));
            None
        },
    }
}

fn tolerance_tail_string(t: &ToleranceData) -> (r: String)
    ensures
        r@ == tolerance_tail(*t),
{
    let mut tail = String::new();
    match &t.magnitude {
        Some(x) => {
            tail.append(": ");
            tail.append(x.as_str());
        },
        None => {},
    }
    let ghost t0 = tail@;
    if t.datums.len() > 0 {
        let mut letters: Vec<String> = Vec::new();
        let mut j: usize = 0;
        while j < t.datums.len()
            invariant
                j <= t.datums@.len(),
                strings_view(letters@) == datum_letters(t.datums@.take(j as int)),
            decreases t.datums@.len() - j,
        {
            let ghost l0 = letters@;
            let c = t.datums[j].letter.clone();
            letters.push(c);
            proof {
                assert(strings_view(letters@) =~= strings_view(l0).push(c@));
                assert(datum_letters(t.datums@.take(j + 1)) =~= datum_letters(t.datums@.take(j as int)).push(
                    t.datums@[j as int].letter@,
                ));
            }
            j = j + 1;
        }
        assert(t.datums@.take(j as int) =~= t.datums@);
        let joined_letters = join_strings(&letters, ",");
        tail.append(" | ");
        tail.append(joined_letters.as_str());
    }
    proof {
        reveal_strlit("");
    }
    assert(tail@ =~= tolerance_tail(*t));
    tail
}

/// Numbers the tolerances (after the dimensions).
pub(crate) fn tolerance_nodes(
    b: &mut Builder,
    m: &SceneModel,
    fm: &HashMap<u64, (u32, Vec<u32>)>,
    dm: &HashMap<u64, u32>,
    Ghost(fbase): Ghost<u32>,
    Ghost(dbase): Ghost<u32>,
    Ghost(hl): Ghost<Map<u64, Seq<u32>>>,
) -> (r: (Vec<Node>, Vec<(u32, Vec<u32>)>))
    requires
        feature_map_ok(*m, fm@, fbase, hl, m.features@.len() as int),
        datum_map_ok(*m, dm@, dbase, m.datums@.len() as int),
    ensures
        final(b).next == nth_id(old(b).next, m.tolerances@.len() as int),
        final(b).geom@ == old(b).geom@,
        final(b).hl_ids@ == old(b).hl_ids@,
        final(b).frames@ == old(b).frames@,
        r.0@.len() == m.tolerances@.len(),
        forall|i: int|
            0 <= i < m.tolerances@.len() ==> tolerance_node_ok(
                *m,
                i,
                old(b).next,
                dbase,
                fbase,
                hl,
                #[trigger] r.0@[i],
            ),
        entries_view(r.1@) == tolerance_hl_entries(*m, old(b).next, fbase, hl, m.tolerances@.len() as int),
{
    let ghost base = b.next;
    let mut nodes: Vec<Node> = Vec::new();
    let mut out: Vec<(u32, Vec<u32>)> = Vec::new();
    let mut i: usize = 0;
    proof {
        lemma_nth_id_step(base, 0);
        assert(entries_view(out@) =~= tolerance_hl_entries(*m, base, fbase, hl, 0));
    }
    while i < m.tolerances.len()
        invariant
            i <= m.tolerances@.len(),
            feature_map_ok(*m, fm@, fbase, hl, m.features@.len() as int),
            datum_map_ok(*m, dm@, dbase, m.datums@.len() as int),
            b.next == nth_id(base, i as int),
            b.geom@ == old(b).geom@,
            b.hl_ids@ == old(b).hl_ids@,
            b.frames@ == old(b).frames@,
            base == old(b).next,
            nodes@.len() == i,
            forall|t: int|
                0 <= t < i ==> tolerance_node_ok(*m, t, base, dbase, fbase, hl, #[trigger] nodes@[t]),
            entries_view(out@) == tolerance_hl_entries(*m, base, fbase, hl, i as int),
        decreases m.tolerances@.len() - i,
    {
        let t = &m.tolerances[i];
        let id = b.next();
        proof {
            lemma_nth_id_step(base, i as int);
        }
        let mut meta: Vec<Meta> = Vec::new();
        push_opt_row(&mut meta, "magnitude", &t.magnitude);
        let ghost m0 = metas_view(meta@);
        let mut j: usize = 0;
        while j < t.datums.len()
            invariant
                j <= t.datums@.len(),
                datum_map_ok(*m, dm@, dbase, m.datums@.len() as int),
                metas_view(meta@) == m0 + datum_ref_rows(*m, t.datums@.take(j as int), dbase),
            decreases t.datums@.len() - j,
        {
            let d = &t.datums[j];
            match find_datum(dm, d.key, Ghost(*m), Ghost(dbase)) {
                Some(nid) => {
                    let mut s = String::from_str("Datum #");
                    let digits = decimal_string(nid as u64);
                    s.append(digits.as_str());
                    s.append(": ");
                    s.append(d.letter.as_str());
                    push_text_row(&mut meta, "datum", s.as_str());
                },
                None => {
                    push_text_row(&mut meta, "datum", d.letter.as_str());
                },
            }
            proof {
                assert(t.datums@.take(j + 1).drop_last() =~= t.datums@.take(j as int));
            }
            j = j + 1;
            assert(metas_view(meta@) =~= m0 + datum_ref_rows(*m, t.datums@.take(j as int), dbase));
        }
        proof {
            assert(t.datums@.take(j as int) =~= t.datums@);
        }
        let mut ids: Vec<u32> = Vec::new();
        match &t.feature {
            Some(f) => {
                push_apply(&mut meta, &mut ids, fm, f, Ghost(*m), Ghost(fbase), Ghost(hl));
            },
            None => {},
        }
        proof {
            assert(metas_view(meta@) =~= tolerance_rows(*m, *t, dbase, fbase, hl));
            assert(ids@ =~= tolerance_hl(*m, *t, fbase, hl));
        }
        let ghost out0 = out@;
        if ids.len() > 0 {
            out.push((id, ids));
        }
        proof {
            assert(entries_view(out@) =~= tolerance_hl_entries(*m, base, fbase, hl, i + 1));
        }
        let mut label = String::from_str("Tolerance (");
        label.append(t.kind.as_str());
        label.append(")");
        let tail = tolerance_tail_string(t);
        label.append(tail.as_str());
        nodes.push(Node { id, kind: NodeKind::Tolerance, label, meta, children: Vec::new() });
        i = i + 1;
    }
    (nodes, out)
}

// ---------- meshes ----------

/// "Mesh (N tris)".
pub open spec fn mesh_label(tris: u64) -> Seq<char> {
    "Mesh ("@ + decimal(tris as nat) + " tris)"@
}

pub open spec fn mesh_node_ok(m: SceneModel, i: int, base: u32, n: Node) -> bool {
    &&& n.id == nth_id(base, i)
    &&& n.kind == NodeKind::Mesh
    &&& n.label@ == mesh_label(m.meshes@[i].triangles)
    &&& n.meta@.len() == 0
    &&& n.children@.len() == 0
}

/// The geometry after recording the first `k` meshes under their ids.
pub open spec fn mesh_geom(g: Map<u32, GeomRequest>, base: u32, k: int) -> Map<u32, GeomRequest>
    decreases k,
{
    if k <= 0 {
        g
    } else {
        mesh_geom(g, base, k - 1).insert(nth_id(base, k - 1), GeomRequest::Mesh { mesh: (k - 1) as usize })
    }
}

/// Numbers the display meshes (after the PMI) and records each as the
/// geometry of its id.
pub(crate) fn mesh_nodes(b: &mut Builder, m: &SceneModel) -> (r: Vec<Node>)
    requires
        geom_valid(*m, old(b).geom@, old(b).frames@.len()),
    ensures
        final(b).next == nth_id(old(b).next, m.meshes@.len() as int),
        final(b).geom@ == mesh_geom(old(b).geom@, old(b).next, m.meshes@.len() as int),
        final(b).hl_ids@ == old(b).hl_ids@,
        final(b).frames@ == old(b).frames@,
        geom_valid(*m, final(b).geom@, final(b).frames@.len()),
        r@.len() == m.meshes@.len(),
        forall|i: int| 0 <= i < m.meshes@.len() ==> mesh_node_ok(*m, i, old(b).next, #[trigger] r@[i]),
{
    let ghost base = b.next;
    let mut nodes: Vec<Node> = Vec::new();
    let mut i: usize = 0;
    proof {
        lemma_nth_id_step(base, 0);
    }
    while i < m.meshes.len()
        invariant
            i <= m.meshes@.len(),
            b.next == nth_id(base, i as int),
            b.geom@ == mesh_geom(old(b).geom@, base, i as int),
            b.hl_ids@ == old(b).hl_ids@,
            b.frames@ == old(b).frames@,
            base == old(b).next,
            geom_valid(*m, b.geom@, b.frames@.len()),
            nodes@.len() == i,
            forall|t: int| 0 <= t < i ==> mesh_node_ok(*m, t, base, #[trigger] nodes@[t]),
        decreases m.meshes@.len() - i,
    {
        let id = b.next();
        proof {
            lemma_nth_id_step(base, i as int);
        }
        b.geom.insert(id, GeomRequest::Mesh { mesh: i });
        proof {
            assert(request_valid(*m, GeomRequest::Mesh { mesh: i }, b.frames@.len()));
        }
        let mut label = String::from_str("Mesh (");
        let digits = decimal_string(m.meshes[i].triangles);
        label.append(digits.as_str());
        label.append(" tris)");
        nodes.push(Node { id, kind: NodeKind::Mesh, label, meta: Vec::new(), children: Vec::new() });
        i = i + 1;
    }
    nodes
}

} // verus!
