//! The whole viewer bundle of a read file: info panel data, the scene tree
//! (assembly, unplaced solids, PMI, features, meshes), the geometry of each
//! rendered id, the highlight map, and the frames of the placed instances.
use vstd::prelude::*;
use std::collections::HashMap;
use std::collections::HashSet;
use crate::assembly::{
    def_emits, def_node_ok, def_steps, frames_prefix, frames_valid, lemma_def_node_frames_grow,
    lemma_def_steps_proj, walk_ok, Walk,
};
use crate::builder::{
    apply_step, geom_valid, hl_view, lemma_run_append, lemma_run_push, proj, run, solid_node_ok,
    solid_steps, BState, Builder, Step,
};
use crate::info::{
    build_header, build_report, build_units, clone_strings, dropped_view, raw_schema_view,
    report_dropped, schema_text, units_rows, Header, ReportSummary,
};
use crate::model::{PlacementData, SceneModel};
use crate::pmi::{
    datum_nodes, dimension_nodes, feature_nodes, mesh_nodes, tolerance_nodes, datum_hl_entries, datum_node_ok, dimension_hl_entries, dimension_node_ok, entries_view,
    feature_hl_entries, feature_node_ok, mesh_geom, mesh_node_ok, nth_id, tolerance_hl_entries,
    tolerance_node_ok,
};
use crate::text::strings_view;
use crate::tree::{group, metas_view, Frame, GeomRequest, Meta, Node, NodeKind, GROUP_ID};

verus! {

broadcast use vstd::std_specs::hash::group_hash_axioms;

/// Everything the viewer shows of a file.
pub struct Bundle {
    pub header: Header,
    pub report: ReportSummary,
    /// Length and angle units and the modelling precision.
    pub units: Vec<Meta>,
    /// The top-level groups: "Model", "Unplaced solids", "PMI", "Features",
    /// "Meshes" (always all five, so an empty category reads differently from
    /// an unsupported one).
    pub tree: Vec<Node>,
    /// Rendered id -> its geometry.
    pub geom: HashMap<u32, GeomRequest>,
    /// Node id -> rendered ids to highlight when it is selected; only for
    /// features and PMI, which refer to geometry indirectly.
    pub hl: Vec<(u32, Vec<u32>)>,
    /// The placed instances, by index.
    pub frames: Vec<Frame>,
    pub warnings: Vec<String>,
}

/// A fresh builder's state.
pub open spec fn init_state() -> BState {
    BState { next: 0, imap: Map::empty(), hl: Map::empty(), geom: Map::empty() }
}

/// The steps of walking the first `k` root definitions, at the origin.
pub open spec fn roots_steps(m: SceneModel, ws: Seq<Walk>, k: int) -> Seq<Step>
    decreases k,
{
    if k <= 0 {
        Seq::empty()
    } else {
        roots_steps(m, ws, k - 1) + def_steps(m, m.roots@[k - 1], Seq::empty(), ws[k - 1])
    }
}

/// The keys of the solids placed by walking the first `k` roots.
pub open spec fn roots_emits(m: SceneModel, k: int) -> Set<u64>
    decreases k,
{
    if k <= 0 {
        Set::empty()
    } else {
        roots_emits(m, k - 1).union(def_emits(m, m.roots@[k - 1], Seq::empty()))
    }
}

/// Among the first `k` solids of the file, those whose key was not placed.
pub open spec fn unplaced(m: SceneModel, placed: Set<u64>, k: int) -> Seq<usize>
    decreases k,
{
    if k <= 0 {
        Seq::empty()
    } else {
        let s = m.all_solids@[k - 1];
        unplaced(m, placed, k - 1) + if placed.contains(m.solids@[s as int].key) {
            Seq::empty()
        } else {
            seq![s]
        }
    }
}

/// The steps of walking unplaced solids, each as an instance of its own at
/// the origin.
pub open spec fn orphan_steps(m: SceneModel, os: Seq<usize>) -> Seq<Step>
    decreases os.len(),
{
    if os.len() == 0 {
        Seq::empty()
    } else {
        orphan_steps(m, os.drop_last()) + seq![Step::NewInstance] + solid_steps(m, os.last(), 0)
    }
}

/// The builder's state once the assembly and the unplaced solids are walked.
pub open spec fn walk_state(m: SceneModel, ws: Seq<Walk>) -> BState {
    let placed = roots_emits(m, m.roots@.len() as int);
    let os = unplaced(m, placed, m.all_solids@.len() as int);
    proj(run(init_state(), roots_steps(m, ws, m.roots@.len() as int) + orphan_steps(m, os)))
}

/// The scene tree and what refers into it, given the walks of the roots.
pub open spec fn bundle_ok(m: SceneModel, ws: Seq<Walk>, b: Bundle) -> bool {
    let placed = roots_emits(m, m.roots@.len() as int);
    let os = unplaced(m, placed, m.all_solids@.len() as int);
    let w = walk_state(m, ws);
    let hl = w.hl;
    let nf = m.features@.len() as int;
    let nd = m.datums@.len() as int;
    let nx = m.dimensions@.len() as int;
    let nt = m.tolerances@.len() as int;
    let fbase = w.next;
    let dbase = nth_id(fbase, nf);
    let xbase = nth_id(dbase, nd);
    let tbase = nth_id(xbase, nx);
    let mbase = nth_id(tbase, nt);
    let t = b.tree@;
    &&& ws.len() == m.roots@.len()
    &&& t.len() == 5
    &&& forall|g: int| 0 <= g < 5 ==> #[trigger] t[g].id == GROUP_ID && t[g].kind == NodeKind::Group
        && t[g].meta@.len() == 0
    // the assembly, root by root
    &&& t[0].label@ == "Model"@
    &&& t[0].children@.len() == m.roots@.len()
    &&& forall|i: int|
        0 <= i < m.roots@.len() ==> ws[i].frame == 0 && #[trigger] def_node_ok(
            m,
            m.roots@[i],
            Seq::empty(),
            true,
            None,
            ws[i],
            b.frames@,
            t[0].children@[i],
        )
    &&& forall|i: int|
        0 <= i < m.roots@.len() ==> #[trigger] walk_ok(
            m,
            m.roots@[i],
            Seq::empty(),
            ws[i],
            proj(run(init_state(), roots_steps(m, ws, i))),
        )
    // every solid the assembly does not place, at the origin, each an instance
    // of its own
    &&& t[1].label@ == "Unplaced solids"@
    &&& t[1].children@.len() == os.len()
    &&& forall|i: int|
        0 <= i < os.len() ==> solid_node_ok(
            m,
            os[i],
            run(init_state(), roots_steps(m, ws, m.roots@.len() as int) + orphan_steps(m, os.take(i + 1))).imap,
            #[trigger] t[1].children@[i],
        )
    // dimensions, tolerances, then datums
    &&& t[2].label@ == "PMI"@
    &&& t[2].children@.len() == nx + nt + nd
    &&& forall|i: int|
        0 <= i < nx ==> dimension_node_ok(m, i, xbase, fbase, hl, #[trigger] t[2].children@[i])
    &&& forall|i: int|
        0 <= i < nt ==> tolerance_node_ok(m, i, tbase, dbase, fbase, hl, #[trigger] t[2].children@[nx + i])
    &&& forall|i: int|
        0 <= i < nd ==> datum_node_ok(m, i, dbase, fbase, hl, #[trigger] t[2].children@[nx + nt + i])
    &&& t[3].label@ == "Features"@
    &&& t[3].children@.len() == nf
    &&& forall|i: int| 0 <= i < nf ==> feature_node_ok(m, i, fbase, #[trigger] t[3].children@[i])
    &&& t[4].label@ == "Meshes"@
    &&& t[4].children@.len() == m.meshes@.len()
    &&& forall|i: int|
        0 <= i < m.meshes@.len() ==> mesh_node_ok(m, i, mbase, #[trigger] t[4].children@[i])
    // geometry: the walk's, then the meshes
    &&& b.geom@ == mesh_geom(w.geom, mbase, m.meshes@.len() as int)
    &&& entries_view(b.hl@) == feature_hl_entries(m, fbase, hl, nf) + datum_hl_entries(
        m,
        dbase,
        fbase,
        hl,
        nd,
    ) + dimension_hl_entries(m, xbase, fbase, hl, nx) + tolerance_hl_entries(m, tbase, fbase, hl, nt)
    &&& frames_valid(m, b.frames@)
    &&& geom_valid(m, b.geom@, b.frames@.len())
}


pub proof fn lemma_roots_steps_congruent(m: SceneModel, w1: Seq<Walk>, w2: Seq<Walk>, k: int)
    requires
        k <= w1.len(),
        k <= w2.len(),
        forall|i: int| 0 <= i < k ==> #[trigger] w2[i] == w1[i],
    ensures
        roots_steps(m, w1, k) == roots_steps(m, w2, k),
    decreases k,
{
    if k > 0 {
        lemma_roots_steps_congruent(m, w1, w2, k - 1);
        assert(w2[k - 1] == w1[k - 1]);
    }
}

/// Builds the bundle of a read file.
pub fn build_bundle(m: &SceneModel) -> (r: Bundle)
    requires
        m.well_formed(),
    ensures
        exists|ws: Seq<Walk>| bundle_ok(*m, ws, r),
        r.header.file_name@ == m.header.file_name@,
        r.header.time_stamp@ == m.header.time_stamp@,
        strings_view(r.header.author@) == strings_view(m.header.authors@),
        strings_view(r.header.organization@) == strings_view(m.header.organizations@),
        r.header.preprocessor@ == m.header.preprocessor_version@,
        r.header.originating_system@ == m.header.originating_system@,
        r.header.authorisation@ == m.header.authorisation@,
        r.header.description@ == m.header.description@,
        r.header.schema@ == schema_text(m.header),
        strings_view(r.header.raw_schema@) == raw_schema_view(m.header),
        r.report.n_in == m.report.n_in,
        r.report.validated == m.report.validated,
        r.report.n_synth == m.report.n_synth,
        dropped_view(r.report.dropped@) == report_dropped(m.report.dropped@),
        strings_view(r.report.norm@) == strings_view(m.report.norm@),
        metas_view(r.units@) == units_rows(m.units),
        strings_view(r.warnings@) == strings_view(m.warnings@),
{
    let mut b = Builder::new();
    proof {
        assert(b.state(Map::empty()) =~= init_state());
        assert(frames_valid(*m, b.frames@));
    }
    let no_placement: Option<PlacementData> = None;
    // The model tree: the assembly hierarchy, each instance's placement baked
    // into its geometry.
    let mut visited: Vec<usize> = Vec::new();
    let mut emitted: HashSet<u64> = HashSet::new();
    let mut model_nodes: Vec<Node> = Vec::new();
    let ghost mut ws: Seq<Walk> = Seq::empty();
    let mut i: usize = 0;
    proof {
        assert(emitted@ =~= roots_emits(*m, 0));
    }
    while i < m.roots.len()
        invariant
            m.well_formed(),
            i <= m.roots@.len(),
            no_placement == None::<PlacementData>,
            visited@ == Seq::<usize>::empty(),
            emitted@ == roots_emits(*m, i as int),
            ws.len() == i,
            model_nodes@.len() == i,
            forall|t: int| 0 <= t < i ==> (#[trigger] ws[t]).frame == 0,
            forall|t: int|
                0 <= t < i ==> #[trigger] def_node_ok(
                    *m,
                    m.roots@[t],
                    Seq::empty(),
                    true,
                    None,
                    ws[t],
                    b.frames@,
                    model_nodes@[t],
                ),
            forall|t: int|
                0 <= t < i ==> #[trigger] walk_ok(
                    *m,
                    m.roots@[t],
                    Seq::empty(),
                    ws[t],
                    proj(run(init_state(), roots_steps(*m, ws, t))),
                ),
            b.state(Map::empty()) == proj(run(init_state(), roots_steps(*m, ws, i as int))),
            frames_valid(*m, b.frames@),
            geom_valid(*m, b.geom@, b.frames@.len()),
        decreases m.roots@.len() - i,
    {
        let ghost fr0 = b.frames@;
        let ghost st0 = b.state(Map::empty());
        let ghost nodes0 = model_nodes@;
        let root = m.roots[i];
        let (n, gw) = b.emit_def(m, root, 0, true, &no_placement, &mut visited, &mut emitted);
        let ghost w = gw@;
        assert(w.frame == 0);
        model_nodes.push(n);
        proof {
            let ws1 = ws.push(w);
            assert forall|t: int| 0 <= t < i + 1 implies (#[trigger] ws1[t]).frame == 0 by {
                if t < i {
                    assert(ws1[t] == ws[t]);
                }
            }
            assert forall|t: int|
                0 <= t < i + 1 implies #[trigger] def_node_ok(
                    *m,
                    m.roots@[t],
                    Seq::empty(),
                    true,
                    None,
                    ws1[t],
                    b.frames@,
                    model_nodes@[t],
                ) by {
                if t < i {
                    assert(ws1[t] == ws[t]);
                    assert(model_nodes@[t] == nodes0[t]);
                    lemma_def_node_frames_grow(
                        *m,
                        m.roots@[t],
                        Seq::empty(),
                        true,
                        None,
                        ws[t],
                        fr0,
                        b.frames@,
                        nodes0[t],
                    );
                } else {
                    assert(ws1[t] == w);
                    assert(model_nodes@[t] == n);
                }
            }
            assert forall|t: int|
                0 <= t < i + 1 implies #[trigger] walk_ok(
                    *m,
                    m.roots@[t],
                    Seq::empty(),
                    ws1[t],
                    proj(run(init_state(), roots_steps(*m, ws1, t))),
                ) by {
                lemma_roots_steps_congruent(*m, ws, ws1, t);
                if t < i {
                    assert(ws1[t] == ws[t]);
                } else {
                    assert(ws1[t] == w);
                }
            }
            let r0 = roots_steps(*m, ws, i as int);
            let d = def_steps(*m, root, Seq::empty(), w);
            lemma_def_steps_proj(*m, root, Seq::empty(), w, st0, run(init_state(), r0));
            lemma_run_append(init_state(), r0, d);
            lemma_roots_steps_congruent(*m, ws, ws1, i as int);
            assert(roots_steps(*m, ws1, i + 1) == roots_steps(*m, ws1, i as int) + d);
            assert(emitted@ =~= roots_emits(*m, i + 1));
            ws = ws1;
        }
        i = i + 1;
    }
    // Any solid the product structure does not reach is shown at the origin,
    // so geometry-only files never lose their geometry.
    let ghost placed = emitted@;
    let ghost pre = roots_steps(*m, ws, m.roots@.len() as int);
    let ghost frames1 = b.frames@;
    let mut orphans: Vec<Node> = Vec::new();
    let mut k: usize = 0;
    proof {
        assert(pre + orphan_steps(*m, unplaced(*m, placed, 0)) =~= pre);
    }
    while k < m.all_solids.len()
        invariant
            m.well_formed(),
            k <= m.all_solids@.len(),
            placed == roots_emits(*m, m.roots@.len() as int),
            emitted@ == placed,
            b.frames@ == frames1,
            frames_valid(*m, b.frames@),
            geom_valid(*m, b.geom@, b.frames@.len()),
            b.state(Map::empty()) == proj(
                run(init_state(), pre + orphan_steps(*m, unplaced(*m, placed, k as int))),
            ),
            orphans@.len() == unplaced(*m, placed, k as int).len(),
            forall|t: int|
                0 <= t < orphans@.len() ==> solid_node_ok(
                    *m,
                    unplaced(*m, placed, k as int)[t],
                    run(init_state(), pre + orphan_steps(*m, unplaced(*m, placed, k as int).take(t + 1))).imap,
                    #[trigger] orphans@[t],
                ),
        decreases m.all_solids@.len() - k,
    {
        let si = m.all_solids[k];
        if !emitted.contains(&m.solids[si].key) {
            let mut imap: HashMap<u64, u32> = HashMap::new();
            let ghost st0 = b.state(imap@);
            let ghost os0 = unplaced(*m, placed, k as int);
            let ghost nodes0 = orphans@;
            let n = b.solid_node(m, si, 0, &mut imap);
            orphans.push(n);
            proof {
                let p0 = pre + orphan_steps(*m, os0);
                assert(unplaced(*m, placed, k + 1) == os0.push(si));
                assert(os0.push(si).drop_last() =~= os0);
                assert(orphan_steps(*m, os0.push(si)) == orphan_steps(*m, os0) + seq![Step::NewInstance]
                    + solid_steps(*m, si, 0));
                lemma_run_push(init_state(), p0, Step::NewInstance);
                assert(apply_step(run(init_state(), p0), Step::NewInstance) == st0);
                lemma_run_append(init_state(), p0.push(Step::NewInstance), solid_steps(*m, si, 0));
                assert(pre + orphan_steps(*m, os0.push(si)) =~= p0.push(Step::NewInstance) + solid_steps(
                    *m,
                    si,
                    0,
                ));
                assert(b.state(imap@) == run(init_state(), pre + orphan_steps(*m, os0.push(si))));
                assert forall|t: int|
                    0 <= t < orphans@.len() implies solid_node_ok(
                        *m,
                        unplaced(*m, placed, k + 1)[t],
                        run(init_state(), pre + orphan_steps(*m, unplaced(*m, placed, k + 1).take(t + 1))).imap,
                        #[trigger] orphans@[t],
                    ) by {
                    if t < nodes0.len() {
                        assert(orphans@[t] == nodes0[t]);
                        assert(unplaced(*m, placed, k + 1)[t] == os0[t]);
                        assert(os0.push(si).take(t + 1) =~= os0.take(t + 1));
                    } else {
                        assert(os0.push(si).take(t + 1) =~= os0.push(si));
                        assert(solid_node_ok(*m, si, imap@, orphans@[t]));
                    }
                }
            }
        } else {
            proof {
                assert(unplaced(*m, placed, k + 1) == unplaced(*m, placed, k as int));
            }
        }
        k = k + 1;
    }
    let ghost w = b.state(Map::empty());
    let ghost fbase = b.next;
    let ghost hl = hl_view(b.hl_ids@);
    // Features first, so PMI can cross-reference each by number and inherit its
    // highlight; datums next, so tolerances can refer to them.
    let (features, fm, mut f_out) = feature_nodes(&mut b, m);
    let ghost dbase = b.next;
    let (mut datums, dm, mut d_out) = datum_nodes(&mut b, m, &fm, Ghost(fbase), Ghost(hl));
    let ghost xbase = b.next;
    let (mut pmi, mut x_out) = dimension_nodes(&mut b, m, &fm, Ghost(fbase), Ghost(hl));
    let ghost tbase = b.next;
    let (mut tols, mut t_out) = tolerance_nodes(
        &mut b,
        m,
        &fm,
        &dm,
        Ghost(fbase),
        Ghost(dbase),
        Ghost(hl),
    );
    let ghost dims_v = pmi@;
    let ghost tols_v = tols@;
    let ghost datums_v = datums@;
    pmi.append(&mut tols);
    pmi.append(&mut datums);
    let ghost mbase = b.next;
    let ghost geom_w = b.geom@;
    let meshes = mesh_nodes(&mut b, m);
    let ghost fe = entries_view(f_out@);
    let ghost de = entries_view(d_out@);
    let ghost xe = entries_view(x_out@);
    let ghost te = entries_view(t_out@);
    let mut out = f_out;
    out.append(&mut d_out);
    out.append(&mut x_out);
    out.append(&mut t_out);
    proof {
        assert(entries_view(out@) =~= fe + de + xe + te);
    }
    let mut tree: Vec<Node> = Vec::new();
    tree.push(group("Model", model_nodes));
    tree.push(group("Unplaced solids", orphans));
    tree.push(group("PMI", pmi));
    tree.push(group("Features", features));
    tree.push(group("Meshes", meshes));
    let r = Bundle {
        header: build_header(&m.header),
        report: build_report(&m.report),
        units: build_units(&m.units),
        tree,
        geom: b.geom,
        hl: out,
        frames: b.frames,
        warnings: clone_strings(&m.warnings),
    };
    proof {
        let t = r.tree@;
        let nx = m.dimensions@.len() as int;
        let nt = m.tolerances@.len() as int;
        assert(w == walk_state(*m, ws));
        assert(forall|i: int| 0 <= i < nx ==> #[trigger] t[2].children@[i] == dims_v[i]);
        assert(forall|i: int| 0 <= i < nt ==> #[trigger] t[2].children@[nx + i] == tols_v[i]);
        assert(forall|i: int|
            0 <= i < m.datums@.len() ==> #[trigger] t[2].children@[nx + nt + i] == datums_v[i]);
        assert(bundle_ok(*m, ws, r));
    }
    r
}

} // verus!
