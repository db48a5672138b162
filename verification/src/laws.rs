//! Properties the viewer bundle keeps across calls and states.
use vstd::prelude::*;
use crate::assembly::{
    def_meta, def_node_ok, def_steps, lemma_def_steps_proj, occ_steps, occ_walks_ok, placed_occurrences,
    solids_steps, walk_ok, Walk,
};
use crate::builder::{
    apply_step, bound_steps, bounds_edge_keys, bounds_steps, edge_ends, edge_keys, edge_steps,
    edges_steps, face_steps, faces_edge_keys, faces_steps, hl_get, ids_of, lemma_run_append,
    lemma_run_push, proj, run, solid_steps, vertex_steps, vertices_steps, voids_edge_keys, voids_steps,
    wrap_inc, BState, Step,
};
use crate::bundle::unplaced;
use crate::info::{report_dropped, unit_text, units_rows};
use crate::labels::{
    approval_date_text, bool_text, edge_meta, face_meta, feature_label, geometry_ref_label,
    opt_text, person_name, rgb_hex, solid_meta, vertex_meta,
};
use crate::model::{
    ApprovalData, ApproverData, BoundData, ContributorData, DateParts, DatumData, DatumRef,
    DefData, DimensionData, DocumentData, DroppedData, EdgeData, FaceData, FeatureInfo,
    GeometryRef, PersonData, PlacementData, ProductData, Rgb8, SceneModel, SecurityData,
    SolidData, ToleranceData, UnitsData, VertexData, VoidData,
};
use crate::pmi::{
    applies_hl, applies_rows, apply_hl, datum_hl_entries, datum_ref_rows, dimension_hl_entries,
    based_on, datum_letters, datum_rows, dimension_label, dimension_rows, feature_hl_entries,
    feature_ref_text, geometry_hl, last_datum, last_feature, nth_id, ref_rows,
    tolerance_hl_entries, tolerance_label, tolerance_rows, tolerance_tail,
};
use crate::product::{
    approval_rows, approval_status, approver_rows, approver_who, approvers_rows, contributors_rows, def_id_rows,
    def_label, document_text, documents_rows, filled_row, nonempty_only, placement_rows, plm_rows,
    security_rows, versions_rows,
};
use crate::text::{
    back_over, compact_fixed, decimal, is_kind_separator, joined, signed_padded, strings_view,
    zero_pad, is_white_space, kind_end, kind_name,
    strip_trailing, trimmed, skip_white_space, back_over_white_space,
};
use crate::tree::{text_row, Frame, GeomRequest, MetaValueView, MetaView, Node};

verus! {

// ---------- ids ----------

/// Within one placed instance an entity has one id: asking for it again
/// changes nothing, and the first request hands out the next id.
pub proof fn law_instance_id_dedup(s: BState, k: u64)
    ensures
        apply_step(apply_step(s, Step::Id(k)), Step::Id(k)) == apply_step(s, Step::Id(k)),
        apply_step(s, Step::Id(k)).imap[k] == if s.imap.contains_key(k) {
            s.imap[k]
        } else {
            s.next
        },
{
}

/// Distinct placed instances of a shared part get distinct ids: in a new
/// instance an entity's first id is the next one, whatever it had before.
pub proof fn law_new_instance_fresh_id(s: BState, k: u64)
    ensures
        apply_step(apply_step(s, Step::NewInstance), Step::Id(k)).imap[k] == s.next,
{
}

/// No two entities of an instance share an id, and every id is below the
/// counter.
pub open spec fn ids_fresh(s: BState) -> bool {
    &&& forall|k: u64| #[trigger] s.imap.contains_key(k) ==> s.imap[k] < s.next
    &&& forall|a: u64, b: u64|
        #[trigger] s.imap.contains_key(a) && #[trigger] s.imap.contains_key(b) && a != b ==> s.imap[a]
            != s.imap[b]
}

/// While the counter does not wrap around, ids stay fresh: a walk hands out
/// distinct ids to distinct entities of an instance, each above all earlier
/// ones.
pub proof fn law_ids_stay_fresh(s: BState, steps: Seq<Step>)
    requires
        ids_fresh(s),
        s.next + steps.len() <= u32::MAX,
    ensures
        ids_fresh(run(s, steps)),
        s.next <= run(s, steps).next <= s.next + steps.len(),
    decreases steps.len(),
{
    if steps.len() > 0 {
        law_ids_stay_fresh(s, steps.drop_last());
        let t = run(s, steps.drop_last());
        let u = apply_step(t, steps.last());
        assert(t.next < u32::MAX);
        match steps.last() {
            Step::Id(k) => {
                if !t.imap.contains_key(k) {
                    assert forall|a: u64, b: u64|
                        #[trigger] u.imap.contains_key(a) && #[trigger] u.imap.contains_key(b) && a
                            != b implies u.imap[a] != u.imap[b] by {
                        if a != k && b != k {
                            assert(t.imap.contains_key(a) && t.imap.contains_key(b));
                        } else if a == k {
                            assert(t.imap.contains_key(b));
                        } else {
                            assert(t.imap.contains_key(a));
                        }
                    }
                    assert forall|a: u64| #[trigger] u.imap.contains_key(a) implies u.imap[a] < u.next by {
                        if a != k {
                            assert(t.imap.contains_key(a));
                        }
                    }
                }
            },
            Step::Fresh => {
                assert forall|a: u64| #[trigger] u.imap.contains_key(a) implies u.imap[a] < u.next by {
                    assert(t.imap.contains_key(a));
                }
            },
            Step::NewInstance => {
                assert(u.imap == Map::<u64, u32>::empty());
            },
            _ => {},
        }
    }
}

/// While the counter does not wrap around, every id of a placed instance lies
/// between the counter at the instance's start and the counter after its
/// steps.
pub proof fn law_instance_ids_between(s: BState, steps: Seq<Step>)
    requires
        s.next + steps.len() <= u32::MAX,
    ensures
        s.next <= run(apply_step(s, Step::NewInstance), steps).next <= s.next + steps.len(),
        forall|k: u64|
            #[trigger] run(apply_step(s, Step::NewInstance), steps).imap.contains_key(k) ==> s.next
                <= run(apply_step(s, Step::NewInstance), steps).imap[k] < run(
                apply_step(s, Step::NewInstance),
                steps,
            ).next,
    decreases steps.len(),
{
    let s0 = apply_step(s, Step::NewInstance);
    if steps.len() > 0 {
        law_instance_ids_between(s, steps.drop_last());
        let t = run(s0, steps.drop_last());
        let u = apply_step(t, steps.last());
        assert(t.next < u32::MAX);
        assert forall|k: u64| #[trigger] u.imap.contains_key(k) implies s.next <= u.imap[k] < u.next by {
            match steps.last() {
                Step::Id(j) => {
                    if !t.imap.contains_key(j) && k != j {
                        assert(t.imap.contains_key(k));
                    } else if t.imap.contains_key(j) {
                        assert(t.imap.contains_key(k));
                    }
                },
                Step::NewInstance => {},
                _ => {
                    assert(t.imap.contains_key(k));
                },
            }
        }
    }
}

/// Successive placed instances get disjoint ids, while the counter does not
/// wrap around: no id of the first instance is an id of the second.
pub proof fn law_successive_instances_disjoint(s: BState, a: Seq<Step>, b: Seq<Step>)
    requires
        s.next + a.len() + b.len() <= u32::MAX,
    ensures
        forall|k1: u64, k2: u64|
            #[trigger] run(apply_step(s, Step::NewInstance), a).imap.contains_key(k1)
                && #[trigger] run(
                apply_step(run(apply_step(s, Step::NewInstance), a), Step::NewInstance),
                b,
            ).imap.contains_key(k2) ==> run(apply_step(s, Step::NewInstance), a).imap[k1] != run(
                apply_step(run(apply_step(s, Step::NewInstance), a), Step::NewInstance),
                b,
            ).imap[k2],
{
    let t = run(apply_step(s, Step::NewInstance), a);
    law_instance_ids_between(s, a);
    law_instance_ids_between(t, b);
}

/// The node of a definition walked along a path it is not on takes the
/// counter's id; every entity of its own solids takes an id above it, and
/// below the counter after those solids (while the counter does not wrap
/// around).
pub proof fn law_walk_own_ids(m: SceneModel, d: usize, path: Seq<usize>, w: Walk, s: BState)
    requires
        walk_ok(m, d, path, w, s),
        !path.contains(d),
        path.len() < m.defs@.len(),
        s.next + 1 + solids_steps(m, m.defs@[d as int].solids@, w.frame).len() <= u32::MAX,
    ensures
        w.id == s.next,
        forall|k: u64|
            #[trigger] w.imap.contains_key(k) ==> s.next < w.imap[k] < run(
                s,
                seq![Step::Fresh, Step::NewInstance] + solids_steps(m, m.defs@[d as int].solids@, w.frame),
            ).next,
{
    let ss = solids_steps(m, m.defs@[d as int].solids@, w.frame);
    let head = seq![Step::Fresh, Step::NewInstance];
    lemma_run_append(s, head, ss);
    lemma_run_push(s, seq![Step::Fresh], Step::NewInstance);
    lemma_run_push(s, Seq::empty(), Step::Fresh);
    assert(seq![Step::Fresh] =~= Seq::<Step>::empty().push(Step::Fresh));
    assert(head =~= seq![Step::Fresh].push(Step::NewInstance));
    let s1 = apply_step(s, Step::Fresh);
    assert(run(s, head) == apply_step(s1, Step::NewInstance));
    law_instance_ids_between(s1, ss);
}

/// Every id a walk of definition `d` along `path` hands out (its node's id,
/// the ids of its own entities, and those of its placed children's walks)
/// lies in `lo..hi`.
pub open spec fn walk_ids_in(m: SceneModel, d: usize, path: Seq<usize>, w: Walk, lo: int, hi: int) -> bool
    decreases m.defs@.len() - path.len(), placed_occurrences(m.defs@[d as int]).len() + 1,
{
    &&& lo <= w.id < hi
    &&& (path.contains(d) || path.len() >= m.defs@.len() || {
        &&& forall|k: u64| #[trigger] w.imap.contains_key(k) ==> lo <= w.imap[k] < hi
        &&& occ_ids_in(m, d, path, w, lo, hi, placed_occurrences(m.defs@[d as int]).len() as int)
    })
}

/// The walks of the first `j` placed children hand out ids in `lo..hi`.
pub open spec fn occ_ids_in(m: SceneModel, d: usize, path: Seq<usize>, w: Walk, lo: int, hi: int, j: int) -> bool
    decreases m.defs@.len() - path.len(), j,
{
    let def = m.defs@[d as int];
    let occs = placed_occurrences(def);
    if j <= 0 {
        true
    } else if j > occs.len() || path.len() >= m.defs@.len() {
        false
    } else {
        &&& occ_ids_in(m, d, path, w, lo, hi, j - 1)
        &&& walk_ids_in(
            m,
            def.occurrences@[occs[j - 1] as int].definition->0,
            path.push(d),
            w.children[j - 1],
            lo,
            hi,
        )
    }
}

/// While the counter does not wrap around, it only grows, and by at most one
/// per step.
proof fn lemma_next_bounds(s: BState, steps: Seq<Step>)
    requires
        s.next + steps.len() <= u32::MAX,
    ensures
        s.next <= run(s, steps).next <= s.next + steps.len(),
    decreases steps.len(),
{
    if steps.len() > 0 {
        lemma_next_bounds(s, steps.drop_last());
    }
}

proof fn lemma_walk_ids_widen(m: SceneModel, d: usize, path: Seq<usize>, w: Walk, lo: int, hi: int, lo2: int, hi2: int)
    requires
        walk_ids_in(m, d, path, w, lo, hi),
        lo2 <= lo,
        hi <= hi2,
    ensures
        walk_ids_in(m, d, path, w, lo2, hi2),
    decreases m.defs@.len() - path.len(), placed_occurrences(m.defs@[d as int]).len() + 1,
{
    if !path.contains(d) && path.len() < m.defs@.len() {
        lemma_occ_ids_widen(m, d, path, w, lo, hi, lo2, hi2, placed_occurrences(m.defs@[d as int]).len() as int);
    }
}

proof fn lemma_occ_ids_widen(
    m: SceneModel,
    d: usize,
    path: Seq<usize>,
    w: Walk,
    lo: int,
    hi: int,
    lo2: int,
    hi2: int,
    j: int,
)
    requires
        occ_ids_in(m, d, path, w, lo, hi, j),
        lo2 <= lo,
        hi <= hi2,
    ensures
        occ_ids_in(m, d, path, w, lo2, hi2, j),
    decreases m.defs@.len() - path.len(), j,
{
    let def = m.defs@[d as int];
    let occs = placed_occurrences(def);
    if j > 0 && j <= occs.len() && path.len() < m.defs@.len() {
        lemma_occ_ids_widen(m, d, path, w, lo, hi, lo2, hi2, j - 1);
        lemma_walk_ids_widen(
            m,
            def.occurrences@[occs[j - 1] as int].definition->0,
            path.push(d),
            w.children[j - 1],
            lo,
            hi,
            lo2,
            hi2,
        );
    }
}

/// While the counter does not wrap around, a walk hands out its ids between
/// the counter at its start and the counter after its steps.
pub proof fn law_walk_ids_between(m: SceneModel, d: usize, path: Seq<usize>, w: Walk, s: BState)
    requires
        walk_ok(m, d, path, w, s),
        s.next + def_steps(m, d, path, w).len() <= u32::MAX,
    ensures
        walk_ids_in(m, d, path, w, s.next as int, run(s, def_steps(m, d, path, w)).next as int),
    decreases m.defs@.len() - path.len(), placed_occurrences(m.defs@[d as int]).len() + 1,
{
    let ds = def_steps(m, d, path, w);
    let f = Step::Fresh;
    let rest = ds.drop_first();
    assert(ds =~= seq![f] + rest);
    lemma_run_append(s, seq![f], rest);
    assert(seq![f] =~= Seq::<Step>::empty().push(f));
    lemma_run_push(s, Seq::empty(), f);
    let s1 = apply_step(s, f);
    lemma_next_bounds(s1, rest);
    if !path.contains(d) && path.len() < m.defs@.len() {
        let ss = solids_steps(m, m.defs@[d as int].solids@, w.frame);
        let nocc = placed_occurrences(m.defs@[d as int]).len() as int;
        let occ = occ_steps(m, d, path, w, nocc);
        let head = seq![Step::Fresh, Step::NewInstance];
        assert(ds =~= head + ss + occ);
        lemma_run_append(s, head + ss, occ);
        let s2 = run(s, head + ss);
        // the definition's own entities
        lemma_run_append(s, head, ss);
        assert(head =~= seq![f].push(Step::NewInstance));
        lemma_run_push(s, seq![f], Step::NewInstance);
        law_instance_ids_between(s1, ss);
        lemma_next_bounds(s2, occ);
        // its placed children
        lemma_occ_ids_between(m, d, path, w, s2, nocc);
        lemma_occ_ids_widen(m, d, path, w, s2.next as int, run(s2, occ).next as int, s.next as int, run(s, ds).next as int, nocc);
    }
}

proof fn lemma_occ_ids_between(m: SceneModel, d: usize, path: Seq<usize>, w: Walk, s2: BState, j: int)
    requires
        occ_walks_ok(m, d, path, w, s2, j),
        s2.next + occ_steps(m, d, path, w, j).len() <= u32::MAX,
    ensures
        occ_ids_in(m, d, path, w, s2.next as int, run(s2, occ_steps(m, d, path, w, j)).next as int, j),
    decreases m.defs@.len() - path.len(), j,
{
    let def = m.defs@[d as int];
    let occs = placed_occurrences(def);
    if j > 0 && j <= occs.len() && path.len() < m.defs@.len() {
        let prev = occ_steps(m, d, path, w, j - 1);
        let c = def.occurrences@[occs[j - 1] as int].definition->0;
        let cw = w.children[j - 1];
        let dsteps = def_steps(m, c, path.push(d), cw);
        assert(occ_steps(m, d, path, w, j) == prev + dsteps);
        lemma_run_append(s2, prev, dsteps);
        let t = run(s2, prev);
        lemma_next_bounds(s2, prev);
        lemma_occ_ids_between(m, d, path, w, s2, j - 1);
        // the child is walked from the projected state, which hands out the
        // same ids
        let ct = proj(t);
        assert(proj(ct) == proj(t));
        lemma_def_steps_proj(m, c, path.push(d), cw, ct, t);
        law_walk_ids_between(m, c, path.push(d), cw, ct);
        lemma_next_bounds(t, dsteps);
        let hi = run(t, dsteps).next as int;
        lemma_occ_ids_widen(m, d, path, w, s2.next as int, t.next as int, s2.next as int, hi, j - 1);
        lemma_walk_ids_widen(m, c, path.push(d), cw, ct.next as int, run(ct, dsteps).next as int, s2.next as int, hi);
    }
}

/// Two definitions walked in turn (two roots, or two placed children of one
/// definition, the second walked from the state the first left) hand out
/// disjoint ids, while the counter does not wrap around: every id of the
/// first walk (its node, its entities, and its children's walks, which are
/// the ids of its whole subtree) is below the counter between them, and
/// every id of the second is at or above it.
pub proof fn law_successive_walks_disjoint(
    m: SceneModel,
    path: Seq<usize>,
    d1: usize,
    w1: Walk,
    d2: usize,
    w2: Walk,
    s: BState,
)
    requires
        walk_ok(m, d1, path, w1, s),
        walk_ok(m, d2, path, w2, proj(run(s, def_steps(m, d1, path, w1)))),
        s.next + def_steps(m, d1, path, w1).len() + def_steps(m, d2, path, w2).len() <= u32::MAX,
    ensures
        ({
            let between = run(s, def_steps(m, d1, path, w1)).next as int;
            let t = proj(run(s, def_steps(m, d1, path, w1)));
            &&& walk_ids_in(m, d1, path, w1, s.next as int, between)
            &&& walk_ids_in(m, d2, path, w2, between, run(t, def_steps(m, d2, path, w2)).next as int)
        }),
{
    let ds1 = def_steps(m, d1, path, w1);
    law_walk_ids_between(m, d1, path, w1, s);
    lemma_next_bounds(s, ds1);
    let t = proj(run(s, ds1));
    law_walk_ids_between(m, d2, path, w2, t);
}

/// A vertex without a point renders nothing and highlights nothing; a vertex
/// with a point has its id rendered, and every highlight id its walk records
/// is that id.
pub proof fn law_vertex_highlights_rendered(m: SceneModel, vi: usize, frame: usize, s: BState)
    ensures
        ({
            let v = m.vertices@[vi as int];
            let t = run(s, vertex_steps(m, vi, frame));
            match v.point {
                None => t.hl == s.hl && t.geom == s.geom,
                Some(p) => {
                    &&& t.imap.contains_key(v.key)
                    &&& t.geom.contains_key(t.imap[v.key])
                    &&& forall|k: u64| #[trigger]
                        hl_get(t.hl, k) == hl_get(s.hl, k) + (if k == v.key {
                            seq![t.imap[v.key]]
                        } else {
                            Seq::empty()
                        }) + (if k == p.key {
                            seq![t.imap[v.key]]
                        } else {
                            Seq::empty()
                        })
                },
            }
        }),
{
    let v = m.vertices@[vi as int];
    let st = vertex_steps(m, vi, frame);
    let s1 = apply_step(s, Step::Id(v.key));
    lemma_run_push(s, Seq::empty(), Step::Id(v.key));
    assert(seq![Step::Id(v.key)] =~= Seq::<Step>::empty().push(Step::Id(v.key)));
    match v.point {
        None => {
            assert(st =~= seq![Step::Id(v.key)]);
        },
        Some(p) => {
            let a = Step::Hl(v.key, seq![v.key]);
            let b = Step::Hl(p.key, seq![v.key]);
            let c = Step::Geom(v.key, GeomRequest::Point { vertex: vi, frame });
            assert(st =~= seq![Step::Id(v.key)].push(a).push(b).push(c));
            lemma_run_push(s, seq![Step::Id(v.key)], a);
            lemma_run_push(s, seq![Step::Id(v.key)].push(a), b);
            lemma_run_push(s, seq![Step::Id(v.key)].push(a).push(b), c);
            let s2 = apply_step(s1, a);
            let s3 = apply_step(s2, b);
            let t = apply_step(s3, c);
            let id = s1.imap[v.key];
            assert(ids_of(s1.imap, seq![v.key]) =~= seq![id]);
            assert(ids_of(s2.imap, seq![v.key]) =~= seq![id]);
            assert forall|k: u64| #[trigger]
                hl_get(t.hl, k) == hl_get(s.hl, k) + (if k == v.key {
                    seq![id]
                } else {
                    Seq::empty()
                }) + (if k == p.key {
                    seq![id]
                } else {
                    Seq::empty()
                }) by {
                if k == v.key && k == p.key {
                    assert(hl_get(t.hl, k) =~= hl_get(s.hl, k) + seq![id] + seq![id]);
                } else if k == v.key {
                    assert(hl_get(t.hl, k) =~= hl_get(s.hl, k) + seq![id] + Seq::<u32>::empty());
                } else if k == p.key {
                    assert(hl_get(t.hl, k) =~= hl_get(s.hl, k) + Seq::<u32>::empty() + seq![id]);
                } else {
                    assert(hl_get(t.hl, k) =~= hl_get(s.hl, k) + Seq::<u32>::empty() + Seq::<u32>::empty());
                }
            }
        },
    }
}

// ---------- geometry and highlights ----------

/// The geometry of a rendered id, once recorded, never changes.
pub proof fn law_geometry_recorded_once(s: BState, steps: Seq<Step>)
    ensures
        s.geom.submap_of(run(s, steps).geom),
    decreases steps.len(),
{
    if steps.len() > 0 {
        law_geometry_recorded_once(s, steps.drop_last());
        let t = run(s, steps.drop_last());
        let u = apply_step(t, steps.last());
        assert(t.geom.submap_of(u.geom)) by {
            match steps.last() {
                Step::Geom(k, r) => {
                    if !t.geom.contains_key(t.imap[k]) {
                        assert forall|id: u32| #[trigger] t.geom.dom().contains(id) implies
                            u.geom.dom().contains(id) && t.geom[id] == u.geom[id] by {
                            assert(t.imap[k] != id);
                        }
                    }
                },
                _ => {},
            }
        }
        vstd::map_lib::lemma_submap_of_trans(s.geom, t.geom, u.geom);
    }
}

/// Highlight ids accumulate: what an entity highlights stays a prefix of
/// what it highlights later, across every placed instance.
pub proof fn law_highlights_accumulate(s: BState, steps: Seq<Step>, k: u64)
    ensures
        hl_get(s.hl, k).is_prefix_of(hl_get(run(s, steps).hl, k)),
    decreases steps.len(),
{
    if steps.len() > 0 {
        law_highlights_accumulate(s, steps.drop_last(), k);
        let t = run(s, steps.drop_last());
        let u = apply_step(t, steps.last());
        assert(hl_get(t.hl, k).is_prefix_of(hl_get(u.hl, k)));
    } else {
        assert(hl_get(s.hl, k).is_prefix_of(hl_get(s.hl, k)));
    }
}

// ---------- highlights name rendered geometry ----------

/// No step of the list starts a new placed instance.
pub open spec fn within_instance(steps: Seq<Step>) -> bool {
    forall|i: int| 0 <= i < steps.len() ==> !(#[trigger] steps[i] is NewInstance)
}

/// The entity `k` has an id in the current instance, and that id has
/// geometry.
pub open spec fn rendered(u: BState, k: u64) -> bool {
    u.imap.contains_key(k) && u.geom.contains_key(u.imap[k])
}

/// Every listed entity is rendered.
pub open spec fn all_rendered(u: BState, ks: Seq<u64>) -> bool {
    forall|i: int| 0 <= i < ks.len() ==> rendered(u, #[trigger] ks[i])
}

proof fn lemma_within_append(a: Seq<Step>, b: Seq<Step>)
    requires
        within_instance(a),
        within_instance(b),
    ensures
        within_instance(a + b),
{
    assert forall|i: int| 0 <= i < (a + b).len() implies !(#[trigger] (a + b)[i] is NewInstance) by {
        if i < a.len() {
            assert((a + b)[i] == a[i]);
        } else {
            assert((a + b)[i] == b[i - a.len()]);
        }
    }
}

/// Within an instance, a rendered entity keeps its id and its geometry.
proof fn lemma_rendered_persists(u: BState, steps: Seq<Step>, k: u64)
    requires
        rendered(u, k),
        within_instance(steps),
    ensures
        rendered(run(u, steps), k),
        run(u, steps).imap[k] == u.imap[k],
    decreases steps.len(),
{
    if steps.len() > 0 {
        let p = steps.drop_last();
        assert forall|i: int| 0 <= i < p.len() implies !(#[trigger] p[i] is NewInstance) by {
            assert(p[i] == steps[i]);
        }
        lemma_rendered_persists(u, p, k);
        assert(!(steps[steps.len() - 1] is NewInstance));
    }
}

proof fn lemma_all_rendered_persists(u: BState, steps: Seq<Step>, ks: Seq<u64>)
    requires
        all_rendered(u, ks),
        within_instance(steps),
    ensures
        all_rendered(run(u, steps), ks),
{
    assert forall|i: int| 0 <= i < ks.len() implies rendered(run(u, steps), #[trigger] ks[i]) by {
        lemma_rendered_persists(u, steps, ks[i]);
    }
}

proof fn lemma_vertices_within(m: SceneModel, vs: Seq<usize>, frame: usize)
    ensures
        within_instance(vertices_steps(m, vs, frame)),
    decreases vs.len(),
{
    if vs.len() > 0 {
        lemma_vertices_within(m, vs.drop_last(), frame);
        let v = m.vertices@[vs.last() as int];
        let vst = vertex_steps(m, vs.last(), frame);
        assert forall|i: int| 0 <= i < vst.len() implies !(#[trigger] vst[i] is NewInstance) by {
            match v.point {
                Some(p) => {
                    assert(vst =~= seq![
                        Step::Id(v.key),
                        Step::Hl(v.key, seq![v.key]),
                        Step::Hl(p.key, seq![v.key]),
                        Step::Geom(v.key, GeomRequest::Point { vertex: vs.last(), frame }),
                    ]);
                },
                None => {
                    assert(vst =~= seq![Step::Id(v.key)]);
                },
            }
        }
        lemma_within_append(vertices_steps(m, vs.drop_last(), frame), vst);
    }
}

/// After an edge's steps, the edge is rendered.
proof fn lemma_edge_rendered(m: SceneModel, ei: usize, frame: usize, u: BState)
    ensures
        within_instance(edge_steps(m, ei, frame)),
        rendered(run(u, edge_steps(m, ei, frame)), m.edges@[ei as int].key),
{
    let e = m.edges@[ei as int];
    let a = Step::Id(e.key);
    let b = Step::Hl(e.key, seq![e.key]);
    let c = Step::Geom(e.key, GeomRequest::Line { edge: ei, frame });
    let head = seq![a, b, c];
    let vs = vertices_steps(m, edge_ends(m, ei), frame);
    lemma_vertices_within(m, edge_ends(m, ei), frame);
    assert forall|i: int| 0 <= i < head.len() implies !(#[trigger] head[i] is NewInstance) by {}
    lemma_within_append(head, vs);
    assert(head =~= seq![a].push(b).push(c));
    assert(seq![a] =~= Seq::<Step>::empty().push(a));
    lemma_run_push(u, Seq::empty(), a);
    lemma_run_push(u, seq![a], b);
    lemma_run_push(u, seq![a].push(b), c);
    lemma_run_append(u, head, vs);
    lemma_rendered_persists(run(u, head), vs, e.key);
}

proof fn lemma_edges_rendered(m: SceneModel, es: Seq<usize>, frame: usize, u: BState)
    ensures
        within_instance(edges_steps(m, es, frame)),
        all_rendered(run(u, edges_steps(m, es, frame)), edge_keys(m, es)),
    decreases es.len(),
{
    if es.len() > 0 {
        let p = es.drop_last();
        lemma_edges_rendered(m, p, frame, u);
        let t = run(u, edges_steps(m, p, frame));
        let est = edge_steps(m, es.last(), frame);
        lemma_edge_rendered(m, es.last(), frame, t);
        lemma_within_append(edges_steps(m, p, frame), est);
        lemma_run_append(u, edges_steps(m, p, frame), est);
        lemma_all_rendered_persists(t, est, edge_keys(m, p));
        let ks = edge_keys(m, es);
        assert forall|i: int| 0 <= i < ks.len() implies rendered(run(t, est), #[trigger] ks[i]) by {
            if i < p.len() {
                assert(ks[i] == edge_keys(m, p)[i]);
            }
        }
    }
}

proof fn lemma_bounds_rendered(m: SceneModel, bs: Seq<BoundData>, frame: usize, u: BState)
    ensures
        within_instance(bounds_steps(m, bs, frame)),
        all_rendered(run(u, bounds_steps(m, bs, frame)), bounds_edge_keys(m, bs)),
    decreases bs.len(),
{
    if bs.len() > 0 {
        let p = bs.drop_last();
        let b = bs.last();
        lemma_bounds_rendered(m, p, frame, u);
        let t = run(u, bounds_steps(m, p, frame));
        let bst = bound_steps(m, b, frame);
        // the bound itself: its id, then its edges
        let a = Step::Id(b.key);
        assert(seq![a] =~= Seq::<Step>::empty().push(a));
        lemma_run_push(t, Seq::empty(), a);
        lemma_run_append(t, seq![a], edges_steps(m, b.edges@, frame));
        lemma_edges_rendered(m, b.edges@, frame, apply_step(t, a));
        assert forall|i: int| 0 <= i < seq![a].len() implies !(#[trigger] seq![a][i] is NewInstance) by {}
        lemma_within_append(seq![a], edges_steps(m, b.edges@, frame));
        lemma_within_append(bounds_steps(m, p, frame), bst);
        lemma_run_append(u, bounds_steps(m, p, frame), bst);
        lemma_all_rendered_persists(t, bst, bounds_edge_keys(m, p));
        let ks = bounds_edge_keys(m, bs);
        let k0 = bounds_edge_keys(m, p);
        assert forall|i: int| 0 <= i < ks.len() implies rendered(run(t, bst), #[trigger] ks[i]) by {
            if i < k0.len() {
                assert(ks[i] == k0[i]);
            } else {
                assert(ks[i] == edge_keys(m, b.edges@)[i - k0.len()]);
            }
        }
    }
}

/// A face highlights only rendered geometry: the ids its walk appends to the
/// face's highlight list are those of its edges, each with geometry.
pub proof fn law_face_highlights_rendered(m: SceneModel, f: FaceData, frame: usize, u: BState)
    ensures
        ({
            let ks = bounds_edge_keys(m, f.bounds@);
            let before = run(u, seq![Step::Id(f.key)] + bounds_steps(m, f.bounds@, frame));
            let t = run(u, face_steps(m, f, frame));
            &&& hl_get(t.hl, f.key) == hl_get(before.hl, f.key) + ids_of(t.imap, ks)
            &&& forall|i: int| 0 <= i < ks.len() ==> t.geom.contains_key(#[trigger] ids_of(t.imap, ks)[i])
        }),
{
    let ks = bounds_edge_keys(m, f.bounds@);
    let a = Step::Id(f.key);
    let pre = seq![a] + bounds_steps(m, f.bounds@, frame);
    let h = Step::Hl(f.key, ks);
    assert(face_steps(m, f, frame) =~= pre.push(h));
    lemma_run_push(u, pre, h);
    assert(seq![a] =~= Seq::<Step>::empty().push(a));
    lemma_run_push(u, Seq::empty(), a);
    lemma_run_append(u, seq![a], bounds_steps(m, f.bounds@, frame));
    lemma_bounds_rendered(m, f.bounds@, frame, apply_step(u, a));
    let before = run(u, pre);
    assert forall|i: int| 0 <= i < ks.len() implies before.geom.contains_key(#[trigger] ids_of(before.imap, ks)[i]) by {
        assert(rendered(before, ks[i]));
    }
}

proof fn lemma_faces_rendered(m: SceneModel, fs: Seq<FaceData>, frame: usize, u: BState)
    ensures
        within_instance(faces_steps(m, fs, frame)),
        all_rendered(run(u, faces_steps(m, fs, frame)), faces_edge_keys(m, fs)),
    decreases fs.len(),
{
    if fs.len() > 0 {
        let p = fs.drop_last();
        let f = fs.last();
        lemma_faces_rendered(m, p, frame, u);
        let t = run(u, faces_steps(m, p, frame));
        let fst = face_steps(m, f, frame);
        let a = Step::Id(f.key);
        let h = Step::Hl(f.key, bounds_edge_keys(m, f.bounds@));
        let mid = bounds_steps(m, f.bounds@, frame);
        assert(fst =~= seq![a] + mid + seq![h]);
        assert(seq![a] =~= Seq::<Step>::empty().push(a));
        lemma_run_push(t, Seq::empty(), a);
        lemma_run_append(t, seq![a], mid);
        lemma_run_append(t, seq![a] + mid, seq![h]);
        assert(seq![h] =~= Seq::<Step>::empty().push(h));
        lemma_run_push(run(t, seq![a] + mid), Seq::empty(), h);
        lemma_bounds_rendered(m, f.bounds@, frame, apply_step(t, a));
        assert forall|i: int| 0 <= i < seq![a].len() implies !(#[trigger] seq![a][i] is NewInstance) by {}
        assert forall|i: int| 0 <= i < seq![h].len() implies !(#[trigger] seq![h][i] is NewInstance) by {}
        lemma_within_append(seq![a], mid);
        lemma_within_append(seq![a] + mid, seq![h]);
        lemma_within_append(faces_steps(m, p, frame), fst);
        lemma_run_append(u, faces_steps(m, p, frame), fst);
        lemma_all_rendered_persists(t, fst, faces_edge_keys(m, p));
        let ks = faces_edge_keys(m, fs);
        let k0 = faces_edge_keys(m, p);
        let k1 = bounds_edge_keys(m, f.bounds@);
        assert forall|i: int| 0 <= i < ks.len() implies rendered(run(t, fst), #[trigger] ks[i]) by {
            if i < k0.len() {
                assert(ks[i] == k0[i]);
            } else {
                assert(ks[i] == k1[i - k0.len()]);
                assert(rendered(run(t, seq![a] + mid), k1[i - k0.len()]));
            }
        }
    }
}

proof fn lemma_voids_rendered(m: SceneModel, cs: Seq<VoidData>, frame: usize, u: BState)
    ensures
        within_instance(voids_steps(m, cs, frame)),
        all_rendered(run(u, voids_steps(m, cs, frame)), voids_edge_keys(m, cs)),
    decreases cs.len(),
{
    if cs.len() > 0 {
        let p = cs.drop_last();
        let c = cs.last();
        lemma_voids_rendered(m, p, frame, u);
        let t = run(u, voids_steps(m, p, frame));
        let a = Step::Id(c.key);
        let fsteps = faces_steps(m, c.faces@, frame);
        let cst = seq![a] + fsteps;
        assert(voids_steps(m, cs, frame) =~= voids_steps(m, p, frame) + cst);
        assert(seq![a] =~= Seq::<Step>::empty().push(a));
        lemma_run_push(t, Seq::empty(), a);
        lemma_run_append(t, seq![a], fsteps);
        lemma_faces_rendered(m, c.faces@, frame, apply_step(t, a));
        assert forall|i: int| 0 <= i < seq![a].len() implies !(#[trigger] seq![a][i] is NewInstance) by {}
        lemma_within_append(seq![a], fsteps);
        lemma_within_append(voids_steps(m, p, frame), cst);
        lemma_run_append(u, voids_steps(m, p, frame), cst);
        lemma_all_rendered_persists(t, cst, voids_edge_keys(m, p));
        let ks = voids_edge_keys(m, cs);
        let k0 = voids_edge_keys(m, p);
        assert forall|i: int| 0 <= i < ks.len() implies rendered(run(t, cst), #[trigger] ks[i]) by {
            if i < k0.len() {
                assert(ks[i] == k0[i]);
            } else {
                assert(ks[i] == faces_edge_keys(m, c.faces@)[i - k0.len()]);
            }
        }
    }
}

/// A solid highlights only rendered geometry: the ids its walk appends to the
/// solid's highlight list are those of the edges of its faces and cavities,
/// each with geometry.
pub proof fn law_solid_highlights_rendered(m: SceneModel, si: usize, frame: usize, u: BState)
    ensures
        ({
            let s = m.solids@[si as int];
            let ks = faces_edge_keys(m, s.faces@) + voids_edge_keys(m, s.voids@);
            let before = run(
                u,
                seq![Step::Id(s.key)] + faces_steps(m, s.faces@, frame) + voids_steps(m, s.voids@, frame),
            );
            let t = run(u, solid_steps(m, si, frame));
            &&& hl_get(t.hl, s.key) == hl_get(before.hl, s.key) + ids_of(t.imap, ks)
            &&& forall|i: int| 0 <= i < ks.len() ==> t.geom.contains_key(#[trigger] ids_of(t.imap, ks)[i])
        }),
{
    let s = m.solids@[si as int];
    let fk = faces_edge_keys(m, s.faces@);
    let vk = voids_edge_keys(m, s.voids@);
    let ks = fk + vk;
    let a = Step::Id(s.key);
    let fst = faces_steps(m, s.faces@, frame);
    let vst = voids_steps(m, s.voids@, frame);
    let pre = seq![a] + fst + vst;
    let h = Step::Hl(s.key, ks);
    assert(solid_steps(m, si, frame) =~= pre.push(h));
    lemma_run_push(u, pre, h);
    assert(seq![a] =~= Seq::<Step>::empty().push(a));
    lemma_run_push(u, Seq::empty(), a);
    lemma_run_append(u, seq![a], fst);
    lemma_run_append(u, seq![a] + fst, vst);
    let u1 = apply_step(u, a);
    lemma_faces_rendered(m, s.faces@, frame, u1);
    let t1 = run(u, seq![a] + fst);
    lemma_voids_rendered(m, s.voids@, frame, t1);
    lemma_all_rendered_persists(t1, vst, fk);
    let before = run(u, pre);
    assert forall|i: int| 0 <= i < ks.len() implies before.geom.contains_key(#[trigger] ids_of(before.imap, ks)[i]) by {
        if i < fk.len() {
            assert(ks[i] == fk[i]);
        } else {
            assert(ks[i] == vk[i - fk.len()]);
        }
        assert(rendered(before, ks[i]));
    }
}

// ---------- the tree ----------

/// A definition met again on its own path is shown without children, which
/// keeps a cyclic assembly finite.
pub proof fn law_cyclic_definition_is_leaf(
    m: SceneModel,
    d: usize,
    path: Seq<usize>,
    is_root: bool,
    placement: Option<PlacementData>,
    w: Walk,
    frames: Seq<Frame>,
    n: Node,
)
    requires
        path.contains(d),
        def_node_ok(m, d, path, is_root, placement, w, frames, n),
    ensures
        n.children@.len() == 0,
{
}

/// Every solid of the file is shown: either the assembly places it, or it is
/// listed among the unplaced solids; and no placed solid is listed there.
pub proof fn law_every_solid_shown(m: SceneModel, placed: Set<u64>, k: int)
    requires
        0 <= k <= m.all_solids@.len(),
    ensures
        forall|t: int|
            0 <= t < k ==> placed.contains(m.solids@[m.all_solids@[t] as int].key) || unplaced(
                m,
                placed,
                k,
            ).contains(#[trigger] m.all_solids@[t]),
        forall|t: int|
            0 <= t < unplaced(m, placed, k).len() ==> !placed.contains(
                m.solids@[#[trigger] unplaced(m, placed, k)[t] as int].key,
            ),
    decreases k,
{
    if k > 0 {
        law_every_solid_shown(m, placed, k - 1);
        let prev = unplaced(m, placed, k - 1);
        let cur = unplaced(m, placed, k);
        assert forall|t: int|
            0 <= t < k implies placed.contains(m.solids@[m.all_solids@[t] as int].key) || cur.contains(
                #[trigger] m.all_solids@[t],
            ) by {
            if t < k - 1 {
                if prev.contains(m.all_solids@[t]) {
                    let j = choose|j: int| 0 <= j < prev.len() && prev[j] == m.all_solids@[t];
                    assert(cur[j] == prev[j]);
                }
            } else if !placed.contains(m.solids@[m.all_solids@[t] as int].key) {
                assert(cur[cur.len() - 1] == m.all_solids@[t]);
            }
        }
        assert forall|t: int| 0 <= t < cur.len() implies !placed.contains(
            m.solids@[#[trigger] cur[t] as int].key,
        ) by {
            if t < prev.len() {
                assert(cur[t] == prev[t]);
            }
        }
    }
}

/// Highlight entries only exist for features and PMI items that highlight
/// something: the entries of the first `k` features are ids of those
/// features, each with a non-empty list.
pub proof fn law_feature_entries_nonempty(m: SceneModel, base: u32, hl: Map<u64, Seq<u32>>, k: int)
    ensures
        forall|i: int|
            0 <= i < feature_hl_entries(m, base, hl, k).len() ==> (#[trigger] feature_hl_entries(
                m,
                base,
                hl,
                k,
            )[i]).1.len() > 0 && exists|j: int|
                0 <= j < k && feature_hl_entries(m, base, hl, k)[i].0 == nth_id(base, j),
    decreases k,
{
    if k > 0 {
        law_feature_entries_nonempty(m, base, hl, k - 1);
        let prev = feature_hl_entries(m, base, hl, k - 1);
        let cur = feature_hl_entries(m, base, hl, k);
        assert forall|i: int| 0 <= i < cur.len() implies (#[trigger] cur[i]).1.len() > 0 && exists|j: int|
            0 <= j < k && cur[i].0 == nth_id(base, j) by {
            if i < prev.len() {
                assert(cur[i] == prev[i]);
                let j = choose|j: int| 0 <= j < k - 1 && prev[i].0 == nth_id(base, j);
                assert(0 <= j < k);
            } else {
                assert(cur[i].0 == nth_id(base, k - 1));
            }
        }
    }
}

/// The entries of the first `k` datums, dimensions and tolerances are ids of
/// those items, each with a non-empty list.
pub proof fn law_pmi_entries_nonempty(
    m: SceneModel,
    dbase: u32,
    xbase: u32,
    tbase: u32,
    fbase: u32,
    hl: Map<u64, Seq<u32>>,
    k: int,
)
    ensures
        forall|i: int|
            0 <= i < datum_hl_entries(m, dbase, fbase, hl, k).len() ==> (#[trigger] datum_hl_entries(
                m,
                dbase,
                fbase,
                hl,
                k,
            )[i]).1.len() > 0 && exists|j: int|
                0 <= j < k && datum_hl_entries(m, dbase, fbase, hl, k)[i].0 == nth_id(dbase, j),
        forall|i: int|
            0 <= i < dimension_hl_entries(m, xbase, fbase, hl, k).len() ==> (
            #[trigger] dimension_hl_entries(m, xbase, fbase, hl, k)[i]).1.len() > 0 && exists|j: int|
                0 <= j < k && dimension_hl_entries(m, xbase, fbase, hl, k)[i].0 == nth_id(xbase, j),
        forall|i: int|
            0 <= i < tolerance_hl_entries(m, tbase, fbase, hl, k).len() ==> (
            #[trigger] tolerance_hl_entries(m, tbase, fbase, hl, k)[i]).1.len() > 0 && exists|j: int|
                0 <= j < k && tolerance_hl_entries(m, tbase, fbase, hl, k)[i].0 == nth_id(tbase, j),
    decreases k,
{
    if k > 0 {
        law_pmi_entries_nonempty(m, dbase, xbase, tbase, fbase, hl, k - 1);
        let a0 = datum_hl_entries(m, dbase, fbase, hl, k - 1);
        let a = datum_hl_entries(m, dbase, fbase, hl, k);
        assert forall|i: int| 0 <= i < a.len() implies (#[trigger] a[i]).1.len() > 0 && exists|j: int|
            0 <= j < k && a[i].0 == nth_id(dbase, j) by {
            if i < a0.len() {
                assert(a[i] == a0[i]);
                let j = choose|j: int| 0 <= j < k - 1 && a0[i].0 == nth_id(dbase, j);
                assert(0 <= j < k);
            } else {
                assert(a[i].0 == nth_id(dbase, k - 1));
            }
        }
        let b0 = dimension_hl_entries(m, xbase, fbase, hl, k - 1);
        let b = dimension_hl_entries(m, xbase, fbase, hl, k);
        assert forall|i: int| 0 <= i < b.len() implies (#[trigger] b[i]).1.len() > 0 && exists|j: int|
            0 <= j < k && b[i].0 == nth_id(xbase, j) by {
            if i < b0.len() {
                assert(b[i] == b0[i]);
                let j = choose|j: int| 0 <= j < k - 1 && b0[i].0 == nth_id(xbase, j);
                assert(0 <= j < k);
            } else {
                assert(b[i].0 == nth_id(xbase, k - 1));
            }
        }
        let c0 = tolerance_hl_entries(m, tbase, fbase, hl, k - 1);
        let c = tolerance_hl_entries(m, tbase, fbase, hl, k);
        assert forall|i: int| 0 <= i < c.len() implies (#[trigger] c[i]).1.len() > 0 && exists|j: int|
            0 <= j < k && c[i].0 == nth_id(tbase, j) by {
            if i < c0.len() {
                assert(c[i] == c0[i]);
                let j = choose|j: int| 0 <= j < k - 1 && c0[i].0 == nth_id(tbase, j);
                assert(0 <= j < k);
            } else {
                assert(c[i].0 == nth_id(tbase, k - 1));
            }
        }
    }
}

/// PLM rows are empty when the definition has no approvals, documents,
/// contributors or security classifications, and no more than one version.
pub proof fn law_plm_empty(d: DefData)
    requires
        d.approvals@.len() == 0,
        d.documents@.len() == 0,
        d.contributors@.len() == 0,
        d.security@.len() == 0,
        versions_rows(d.product).len() == 0,
    ensures
        plm_rows(d).len() == 0,
{
}

// ---------- what features, PMI and rows hold ----------

/// A feature highlights what each geometry it references highlights, one
/// after another in reference order: the highlight ids of two runs of
/// references are those of the first followed by those of the second.
pub proof fn law_geometry_hl_concatenates(hl: Map<u64, Seq<u32>>, a: Seq<GeometryRef>, b: Seq<GeometryRef>)
    ensures
        geometry_hl(hl, a + b) == geometry_hl(hl, a) + geometry_hl(hl, b),
        geometry_hl(hl, a + b).len() == geometry_hl(hl, a).len() + geometry_hl(hl, b).len(),
    decreases b.len(),
{
    if b.len() == 0 {
        assert(a + b =~= a);
        assert(geometry_hl(hl, a) + geometry_hl(hl, b) =~= geometry_hl(hl, a));
    } else {
        law_geometry_hl_concatenates(hl, a, b.drop_last());
        assert((a + b).drop_last() =~= a + b.drop_last());
        assert((a + b).last() == b.last());
        assert(geometry_hl(hl, a + b) =~= geometry_hl(hl, a) + geometry_hl(hl, b));
    }
}

/// A single reference highlights exactly the ids recorded for the geometry
/// it designates (none where nothing was recorded), and no reference
/// highlights nothing.
pub proof fn law_geometry_hl_single(hl: Map<u64, Seq<u32>>, g: GeometryRef)
    ensures
        geometry_hl(hl, seq![g]) == hl_get(hl, g.key),
        geometry_hl(hl, Seq::empty()) == Seq::<u32>::empty(),
{
    let one = seq![g];
    assert(one.drop_last() =~= Seq::<GeometryRef>::empty());
    assert(geometry_hl(hl, Seq::<GeometryRef>::empty()) == Seq::<u32>::empty());
    assert(geometry_hl(hl, one) == geometry_hl(hl, one.drop_last()) + hl_get(hl, one.last().key));
    assert(Seq::<u32>::empty() + hl_get(hl, g.key) =~= hl_get(hl, g.key));
}

/// A PMI item inherits the highlight ids of every feature it applies to, one
/// after another: those of two runs of features are those of the first
/// followed by those of the second, so a feature's ids stay whatever follows.
pub proof fn law_applies_hl_concatenates(
    m: SceneModel,
    a: Seq<FeatureInfo>,
    b: Seq<FeatureInfo>,
    fbase: u32,
    hl: Map<u64, Seq<u32>>,
)
    ensures
        applies_hl(m, a + b, fbase, hl) == applies_hl(m, a, fbase, hl) + applies_hl(m, b, fbase, hl),
        applies_hl(m, a + b, fbase, hl).len() == applies_hl(m, a, fbase, hl).len() + applies_hl(
            m,
            b,
            fbase,
            hl,
        ).len(),
    decreases b.len(),
{
    if b.len() == 0 {
        assert(a + b =~= a);
        assert(applies_hl(m, a, fbase, hl) + applies_hl(m, b, fbase, hl) =~= applies_hl(m, a, fbase, hl));
    } else {
        law_applies_hl_concatenates(m, a, b.drop_last(), fbase, hl);
        assert((a + b).drop_last() =~= a + b.drop_last());
        assert((a + b).last() == b.last());
        assert(applies_hl(m, a + b, fbase, hl) =~= applies_hl(m, a, fbase, hl) + applies_hl(m, b, fbase, hl));
    }
}

/// Applied to one feature, a PMI item inherits that feature's highlight ids
/// when the feature is listed (the last listed feature with its key), and
/// nothing otherwise.
pub proof fn law_applies_hl_single(m: SceneModel, f: FeatureInfo, fbase: u32, hl: Map<u64, Seq<u32>>)
    ensures
        applies_hl(m, seq![f], fbase, hl) == match last_feature(m, f.key, m.features@.len() as int) {
            Some(i) => geometry_hl(hl, m.features@[i].geometry@),
            None => Seq::<u32>::empty(),
        },
{
    let one = seq![f];
    assert(one.drop_last() =~= Seq::<FeatureInfo>::empty());
    assert(applies_hl(m, Seq::<FeatureInfo>::empty(), fbase, hl) == Seq::<u32>::empty());
    assert(applies_hl(m, one, fbase, hl) == applies_hl(m, one.drop_last(), fbase, hl) + apply_hl(
        m,
        one.last(),
        fbase,
        hl,
    ));
    assert(Seq::<u32>::empty() + apply_hl(m, f, fbase, hl) =~= apply_hl(m, f, fbase, hl));
}

/// A face's rows: the surface first, then a colour row exactly when the face
/// has a colour (holding its `#rrggbb`), then transparency, layer and
/// visibility rows where they apply, and the sense last.
pub proof fn law_face_rows(f: FaceData)
    ensures
        face_meta(f).len() == 2 + (if f.color is Some {
            1int
        } else {
            0
        }) + (if f.transparency is Some {
            1int
        } else {
            0
        }) + (if f.layer is Some {
            1int
        } else {
            0
        }) + (if f.visible {
            0int
        } else {
            1
        }),
        face_meta(f)[0] == text_row("surface"@, kind_name(f.surface_kind@)),
        f.color matches Some(c) ==> face_meta(f)[1] == text_row("color"@, rgb_hex(c)),
        face_meta(f).last() == text_row("same sense"@, bool_text(f.same_sense)),
{
}

/// An edge's rows: the curve first, then a colour row exactly when the edge
/// has a colour, and the sense last.
pub proof fn law_edge_rows(e: EdgeData)
    ensures
        edge_meta(e).len() == 2 + (if e.color is Some {
            1int
        } else {
            0
        }) + (if e.width is Some {
            1int
        } else {
            0
        }) + (if e.line_font is Some {
            1int
        } else {
            0
        }),
        edge_meta(e)[0] == text_row("curve"@, kind_name(e.curve_kind@)),
        e.color matches Some(c) ==> edge_meta(e)[1] == text_row("color"@, rgb_hex(c)),
        edge_meta(e).last() == text_row("same sense"@, bool_text(e.same_sense)),
{
}

/// A solid's rows: its name where it has one, then a colour row exactly when
/// the solid has a colour, and its face count last.
pub proof fn law_solid_rows(s: SolidData)
    ensures
        solid_meta(s).len() == 1 + (if s.name@.len() > 0 {
            1int
        } else {
            0
        }) + (if s.color is Some {
            1int
        } else {
            0
        }) + (if s.transparency is Some {
            1int
        } else {
            0
        }) + (if s.layer is Some {
            1int
        } else {
            0
        }) + (if s.visible {
            0int
        } else {
            1
        }),
        s.color matches Some(c) ==> solid_meta(s)[if s.name@.len() > 0 {
            1int
        } else {
            0
        }] == text_row("color"@, rgb_hex(c)),
        solid_meta(s).last() == text_row("faces"@, decimal(s.faces@.len())),
{
}

/// An assembly node's rows: its identity rows, then a description row exactly
/// when the definition has a non-empty description, then its placement rows
/// and its PLM rows.
pub proof fn law_def_rows(d: DefData, placement: Option<PlacementData>, frame: usize)
    ensures
        def_meta(d, placement, frame).len() == def_id_rows(d).len() + (if d.description matches Some(x)
            && x@.len() > 0 {
            1int
        } else {
            0
        }) + placement_rows(placement, frame).len() + plm_rows(d).len(),
        def_meta(d, placement, frame).take(def_id_rows(d).len() as int) == def_id_rows(d),
        match d.description {
            Some(x) => x@.len() > 0 ==> def_meta(d, placement, frame)[def_id_rows(d).len() as int]
                == text_row("description"@, x@),
            None => true,
        },
        def_meta(d, placement, frame).skip(
            def_meta(d, placement, frame).len() - plm_rows(d).len(),
        ) == plm_rows(d),
{
    let a = def_id_rows(d);
    let b = filled_row("description"@, d.description);
    let c = placement_rows(placement, frame);
    let p = plm_rows(d);
    let all = def_meta(d, placement, frame);
    assert(all == a + b + c + p);
    assert(all.take(a.len() as int) =~= a);
    assert(all.skip(all.len() - p.len()) =~= p);
    if d.description matches Some(x) && x@.len() > 0 {
        assert(all[a.len() as int] == b[0]);
    }
}

/// A document reads its id, then " — name" when it has a name, then
/// " [kind]" when it has a kind; the kind part does not depend on the name:
/// two documents that differ only in the kind, the second without one,
/// differ by exactly " [kind]" at the end.
pub proof fn law_document_kind_suffix(d1: DocumentData, d2: DocumentData)
    requires
        d1.id@ == d2.id@,
        d1.name@ == d2.name@,
        d2.kind@.len() == 0,
    ensures
        document_text(d1) == document_text(d2) + (if d1.kind@.len() > 0 {
            " ["@ + d1.kind@ + "]"@
        } else {
            Seq::<char>::empty()
        }),
{
    assert(document_text(d1) =~= document_text(d2) + (if d1.kind@.len() > 0 {
        " ["@ + d1.kind@ + "]"@
    } else {
        Seq::<char>::empty()
    }));
}

/// The name part does not depend on the kind: two documents that differ only
/// in the name, the second without one, differ by exactly " — name" right
/// after the id.
pub proof fn law_document_name_part(d1: DocumentData, d2: DocumentData)
    requires
        d1.id@ == d2.id@,
        d1.kind@ == d2.kind@,
        d2.name@.len() == 0,
    ensures
        document_text(d1) == d1.id@ + (if d1.name@.len() > 0 {
            " — "@ + d1.name@
        } else {
            Seq::<char>::empty()
        }) + document_text(d2).skip(d2.id@.len() as int),
        document_text(d2).take(d2.id@.len() as int) == d2.id@,
{
    let t2 = document_text(d2);
    assert(t2.take(d2.id@.len() as int) =~= d2.id@);
    assert(document_text(d1) =~= d1.id@ + (if d1.name@.len() > 0 {
        " — "@ + d1.name@
    } else {
        Seq::<char>::empty()
    }) + t2.skip(d2.id@.len() as int));
}

/// Each document of a definition gives one "document" row, in order.
pub proof fn law_documents_rows(ds: Seq<DocumentData>)
    ensures
        documents_rows(ds).len() == ds.len(),
        forall|i: int|
            0 <= i < ds.len() ==> #[trigger] documents_rows(ds)[i] == text_row("document"@, document_text(ds[i])),
    decreases ds.len(),
{
    if ds.len() > 0 {
        law_documents_rows(ds.drop_last());
        assert forall|i: int| 0 <= i < ds.len() implies #[trigger] documents_rows(ds)[i] == text_row(
            "document"@,
            document_text(ds[i]),
        ) by {
            if i < ds.len() - 1 {
                assert(ds.drop_last()[i] == ds[i]);
            }
        }
    }
}

/// Each contributor gives one row, in order: keyed by the role (by
/// "contributor" where the role is empty), holding the person's name.
pub proof fn law_contributors_rows(cs: Seq<ContributorData>)
    ensures
        contributors_rows(cs).len() == cs.len(),
        forall|i: int|
            0 <= i < cs.len() ==> #[trigger] contributors_rows(cs)[i] == text_row(
                if cs[i].role@.len() == 0 {
                    "contributor"@
                } else {
                    cs[i].role@
                },
                person_name(cs[i].person),
            ),
    decreases cs.len(),
{
    if cs.len() > 0 {
        law_contributors_rows(cs.drop_last());
        assert forall|i: int| 0 <= i < cs.len() implies #[trigger] contributors_rows(cs)[i] == text_row(
            if cs[i].role@.len() == 0 {
                "contributor"@
            } else {
                cs[i].role@
            },
            person_name(cs[i].person),
        ) by {
            if i < cs.len() - 1 {
                assert(cs.drop_last()[i] == cs[i]);
            }
        }
    }
}

/// Each geometry a feature references gives one "ref" row, in order.
pub proof fn law_ref_rows(gs: Seq<GeometryRef>)
    ensures
        ref_rows(gs).len() == gs.len(),
        forall|i: int|
            0 <= i < gs.len() ==> #[trigger] ref_rows(gs)[i] == text_row("ref"@, geometry_ref_label(gs[i])),
    decreases gs.len(),
{
    if gs.len() > 0 {
        law_ref_rows(gs.drop_last());
        assert forall|i: int| 0 <= i < gs.len() implies #[trigger] ref_rows(gs)[i] == text_row(
            "ref"@,
            geometry_ref_label(gs[i]),
        ) by {
            if i < gs.len() - 1 {
                assert(gs.drop_last()[i] == gs[i]);
            }
        }
    }
}

/// Each feature a PMI item applies to gives one "applies to" row, in order:
/// numbered where the feature is listed, by its label alone otherwise.
pub proof fn law_applies_rows(m: SceneModel, fs: Seq<FeatureInfo>, fbase: u32, hl: Map<u64, Seq<u32>>)
    ensures
        applies_rows(m, fs, fbase, hl).len() == fs.len(),
        forall|i: int|
            0 <= i < fs.len() ==> #[trigger] applies_rows(m, fs, fbase, hl)[i] == text_row(
                "applies to"@,
                match last_feature(m, fs[i].key, m.features@.len() as int) {
                    Some(j) => feature_ref_text(nth_id(fbase, j)) + ": "@ + feature_label(fs[i]),
                    None => feature_label(fs[i]),
                },
            ),
    decreases fs.len(),
{
    if fs.len() > 0 {
        law_applies_rows(m, fs.drop_last(), fbase, hl);
        assert forall|i: int| 0 <= i < fs.len() implies #[trigger] applies_rows(m, fs, fbase, hl)[i]
            == text_row(
            "applies to"@,
            match last_feature(m, fs[i].key, m.features@.len() as int) {
                Some(j) => feature_ref_text(nth_id(fbase, j)) + ": "@ + feature_label(fs[i]),
                None => feature_label(fs[i]),
            },
        ) by {
            if i < fs.len() - 1 {
                assert(fs.drop_last()[i] == fs[i]);
            }
        }
    }
}

/// Each datum a tolerance refers to gives one "datum" row, in order:
/// numbered where the datum is listed, by its letter alone otherwise.
pub proof fn law_datum_ref_rows(m: SceneModel, ds: Seq<DatumRef>, dbase: u32)
    ensures
        datum_ref_rows(m, ds, dbase).len() == ds.len(),
        forall|i: int|
            0 <= i < ds.len() ==> #[trigger] datum_ref_rows(m, ds, dbase)[i] == text_row(
                "datum"@,
                match last_datum(m, ds[i].key, m.datums@.len() as int) {
                    Some(j) => "Datum #"@ + decimal(nth_id(dbase, j) as nat) + ": "@ + ds[i].letter@,
                    None => ds[i].letter@,
                },
            ),
    decreases ds.len(),
{
    if ds.len() > 0 {
        law_datum_ref_rows(m, ds.drop_last(), dbase);
        assert forall|i: int| 0 <= i < ds.len() implies #[trigger] datum_ref_rows(m, ds, dbase)[i]
            == text_row(
            "datum"@,
            match last_datum(m, ds[i].key, m.datums@.len() as int) {
                Some(j) => "Datum #"@ + decimal(nth_id(dbase, j) as nat) + ": "@ + ds[i].letter@,
                None => ds[i].letter@,
            },
        ) by {
            if i < ds.len() - 1 {
                assert(ds.drop_last()[i] == ds[i]);
            }
        }
    }
}

/// A dimension's rows: a "value" row exactly when it has a value, then one
/// "applies to" row per feature.
pub proof fn law_dimension_rows(m: SceneModel, d: DimensionData, fbase: u32, hl: Map<u64, Seq<u32>>)
    ensures
        dimension_rows(m, d, fbase, hl).len() == (if d.value is Some {
            1int
        } else {
            0
        }) + d.features@.len(),
        d.value matches Some(v) ==> dimension_rows(m, d, fbase, hl)[0] == text_row("value"@, v@),
{
    law_applies_rows(m, d.features@, fbase, hl);
}

/// A tolerance's rows: a "magnitude" row exactly when it has a magnitude,
/// one "datum" row per datum, and an "applies to" row exactly when it names
/// a feature.
pub proof fn law_tolerance_rows(
    m: SceneModel,
    t: ToleranceData,
    dbase: u32,
    fbase: u32,
    hl: Map<u64, Seq<u32>>,
)
    ensures
        tolerance_rows(m, t, dbase, fbase, hl).len() == (if t.magnitude is Some {
            1int
        } else {
            0
        }) + t.datums@.len() + (if t.feature is Some {
            1int
        } else {
            0
        }),
        t.magnitude matches Some(x) ==> tolerance_rows(m, t, dbase, fbase, hl)[0] == text_row(
            "magnitude"@,
            x@,
        ),
{
    law_datum_ref_rows(m, t.datums@, dbase);
}

/// A feature's label is its kind when it has no name, and otherwise its name
/// followed by its kind in brackets.
pub proof fn law_feature_label(f: FeatureInfo)
    ensures
        f.name@.len() == 0 ==> feature_label(f) == f.kind@,
        f.name@.len() > 0 ==> feature_label(f).take(f.name@.len() as int) == f.name@ && feature_label(f).len()
            == f.name@.len() + f.kind@.len() + 3 && feature_label(f).last() == ')',
{
    if f.name@.len() > 0 {
        let l = feature_label(f);
        assert(l == f.name@ + " ("@ + f.kind@ + ")"@);
        reveal_strlit(" (");
        reveal_strlit(")");
        assert(l.take(f.name@.len() as int) =~= f.name@);
    }
}

/// An approval date renders empty exactly when its year is absent.
pub proof fn law_approval_date_empty(d: DateParts)
    ensures
        (approval_date_text(d).len() == 0) <==> d.year is None,
{
    if let Some(y) = d.year {
        let v = y as int;
        if v < 0 {
            assert(signed_padded(v, 4).len() > 0);
            assert(signed_padded(v, 0).len() > 0);
        } else {
            assert(decimal(v as nat).len() >= 1);
            assert(zero_pad(decimal(v as nat), 4).len() >= 1);
            assert(zero_pad(decimal(v as nat), 0).len() >= 1);
        }
    }
}

/// The full version list is shown exactly when the product has more than
/// one non-empty version id.
pub proof fn law_versions_rows(p: ProductData)
    ensures
        (versions_rows(Some(p)).len() == 1) <==> nonempty_only(strings_view(p.versions@)).len() > 1,
        versions_rows(Some(p)).len() <= 1,
        versions_rows(None).len() == 0,
{
}

/// The units rows: "length", "angle", then "precision", each exactly when the
/// file has it.
pub proof fn law_units_rows(u: UnitsData)
    ensures
        units_rows(u).len() == (if u.length is Some {
            1int
        } else {
            0
        }) + (if u.angle is Some {
            1int
        } else {
            0
        }) + (if u.precision is Some {
            1int
        } else {
            0
        }),
        u.length matches Some(l) ==> units_rows(u)[0] == text_row("length"@, unit_text(l, "m"@)),
        u.precision matches Some(p) ==> units_rows(u).last() == text_row("precision"@, p@),
{
}

/// Approvers give rows in order, one for each approver who names someone
/// (a person, else an organization) and none for the others.
pub proof fn law_approvers_rows(s: Seq<ApproverData>, a: Seq<ApproverData>)
    ensures
        approvers_rows(s + a) == approvers_rows(s) + approvers_rows(a),
        approvers_rows(s).len() <= s.len(),
    decreases a.len(), s.len(),
{
    if a.len() == 0 {
        assert(s + a =~= s);
        assert(approvers_rows(s) + approvers_rows(a) =~= approvers_rows(s));
        if s.len() > 0 {
            law_approvers_rows(s.drop_last(), a);
        }
    } else {
        law_approvers_rows(s, a.drop_last());
        assert((s + a).drop_last() =~= s + a.drop_last());
        assert((s + a).last() == a.last());
        assert(approvers_rows(s + a) =~= approvers_rows(s) + approvers_rows(a));
    }
}

/// One approver gives one row exactly when it names someone, keyed by
/// "approver" (with its role in brackets where it has one).
pub proof fn law_approver_row(ap: ApproverData)
    ensures
        (approvers_rows(seq![ap]).len() == 1) <==> approver_who(ap).len() > 0,
        approver_who(ap).len() == 0 ==> approvers_rows(seq![ap]).len() == 0,
        approver_who(ap).len() > 0 ==> approvers_rows(seq![ap])[0].value == MetaValueView::Text(
            approver_who(ap),
        ),
        ap.person matches Some(p) ==> approver_who(ap) == person_name(p),
{
    assert(seq![ap].drop_last() =~= Seq::<ApproverData>::empty());
    assert(approvers_rows(Seq::<ApproverData>::empty()) == Seq::<MetaView>::empty());
    assert(approvers_rows(seq![ap]) =~= approver_rows(ap));
}

/// An approval's rows: its status first ("status / level" where it has a
/// level), an "approved" row exactly when its date renders non-empty, then
/// its approvers' rows.
pub proof fn law_approval_rows(a: ApprovalData)
    ensures
        approval_rows(a)[0] == text_row("approval"@, approval_status(a)),
        a.level@.len() == 0 ==> approval_status(a) == a.status@,
        approval_rows(a).len() == 1 + (if a.date matches Some(d) && approval_date_text(d).len() > 0 {
            1int
        } else {
            0
        }) + approvers_rows(a.approvers@).len(),
{
}

/// A security classification gives "name (level)" and, where it has one, its
/// purpose.
pub proof fn law_security_rows(c: SecurityData)
    ensures
        security_rows(c)[0] == text_row("security"@, c.name@ + " ("@ + c.level@ + ")"@),
        security_rows(c).len() == 1 + (if c.purpose@.len() > 0 {
            1int
        } else {
            0
        }),
{
}

/// A definition is labelled by its product's name where that is non-empty,
/// else by its own id, else "Part".
pub proof fn law_def_label(d: DefData)
    ensures
        match d.product {
            Some(p) => p.name@.len() > 0 ==> def_label(d) == p.name@,
            None => true,
        },
        (match d.product {
            Some(p) => p.name@.len() == 0,
            None => true,
        }) && d.id@.len() > 0 ==> def_label(d) == d.id@,
        def_label(d).len() > 0,
{
    reveal_strlit("Part");
}

/// A datum's rows: its letter, its name where it has one, and a "based on"
/// row exactly when its feature is listed.
pub proof fn law_datum_rows(m: SceneModel, dt: DatumData, fbase: u32, hl: Map<u64, Seq<u32>>)
    ensures
        datum_rows(m, dt, fbase, hl)[0] == text_row("letter"@, dt.letter@),
        datum_rows(m, dt, fbase, hl).len() == 1 + (if dt.name@.len() > 0 {
            1int
        } else {
            0
        }) + (if based_on(m, dt, fbase, hl) is Some {
            1int
        } else {
            0
        }),
        based_on(m, dt, fbase, hl) matches Some(e) ==> datum_rows(m, dt, fbase, hl).last() == text_row(
            "based on"@,
            feature_ref_text(e.0),
        ),
{
}

/// A vertex has a "coords" row exactly when it has a point.
pub proof fn law_vertex_rows(v: VertexData)
    ensures
        vertex_meta(v).len() == (if v.point is Some {
            1int
        } else {
            0
        }),
        v.point matches Some(p) ==> vertex_meta(v)[0] == text_row(
            "coords"@,
            p.x@ + ", "@ + p.y@ + ", "@ + p.z@,
        ),
{
}

/// A person is shown by first and last name, trimmed; by the id when that
/// leaves nothing.
pub proof fn law_person_name(p: PersonData)
    ensures
        trimmed(opt_text(p.first_name) + " "@ + opt_text(p.last_name)).len() == 0 ==> person_name(p)
            == p.id@,
        trimmed(opt_text(p.first_name) + " "@ + opt_text(p.last_name)).len() > 0 ==> person_name(p)
            == trimmed(opt_text(p.first_name) + " "@ + opt_text(p.last_name)),
{
}

/// Each dropped entity is reported under its own id, as "Kind: KEY", in
/// order.
pub proof fn law_report_dropped(v: Seq<DroppedData>)
    ensures
        report_dropped(v).len() == v.len(),
        forall|i: int|
            0 <= i < v.len() ==> #[trigger] report_dropped(v)[i] == (v[i].id, v[i].kind@ + ": "@ + v[i].key@),
{
}

/// A dimension's label ends with its value where it has one.
pub proof fn law_dimension_label(d: DimensionData)
    ensures
        d.value matches Some(v) ==> dimension_label(d) == "Dimension ("@ + d.kind@ + "): "@ + v@,
        d.value is None ==> dimension_label(d) == "Dimension ("@ + d.kind@ + ")"@,
{
}

/// A tolerance's label ends with " | " and its datums' letters joined by ","
/// exactly when it refers to datums; with neither magnitude nor datums it is
/// "Tolerance (Kind)".
pub proof fn law_tolerance_label(t: ToleranceData)
    ensures
        t.datums@.len() > 0 ==> tolerance_label(t) == "Tolerance ("@ + t.kind@ + ")"@ + (match t.magnitude {
            Some(x) => ": "@ + x@,
            None => Seq::empty(),
        }) + " | "@ + joined(datum_letters(t.datums@), ","@),
        t.datums@.len() == 0 && t.magnitude is None ==> tolerance_label(t) == "Tolerance ("@ + t.kind@
            + ")"@,
{
    if t.datums@.len() == 0 && t.magnitude is None {
        assert(tolerance_tail(t) =~= Seq::<char>::empty());
        assert(tolerance_label(t) =~= "Tolerance ("@ + t.kind@ + ")"@);
    }
    if t.datums@.len() > 0 {
        assert(tolerance_label(t) =~= "Tolerance ("@ + t.kind@ + ")"@ + (match t.magnitude {
            Some(x) => ": "@ + x@,
            None => Seq::empty(),
        }) + " | "@ + joined(datum_letters(t.datums@), ","@));
    }
}

// ---------- text ----------

proof fn lemma_kind_end(s: Seq<char>, i: int)
    requires
        0 <= i <= s.len(),
    ensures
        i <= kind_end(s, i) <= s.len(),
        forall|j: int| i <= j < kind_end(s, i) ==> !is_kind_separator(#[trigger] s[j]),
    decreases s.len() - i,
{
    if i < s.len() && !is_kind_separator(s[i]) {
        lemma_kind_end(s, i + 1);
    }
}

/// A kind name is a prefix of the `Debug` rendering that holds no '(', ' '
/// or '{'.
pub proof fn law_kind_name_is_plain_prefix(debug: Seq<char>)
    ensures
        kind_name(debug).is_prefix_of(debug),
        forall|j: int| 0 <= j < kind_name(debug).len() ==> !is_kind_separator(#[trigger] kind_name(debug)[j]),
{
    lemma_kind_end(debug, 0);
    assert forall|j: int| 0 <= j < kind_name(debug).len() implies !is_kind_separator(
        #[trigger] kind_name(debug)[j],
    ) by {
        assert(kind_name(debug)[j] == debug[j]);
    }
}

proof fn lemma_skip(s: Seq<char>, i: int)
    requires
        0 <= i <= s.len(),
    ensures
        i <= skip_white_space(s, i) <= s.len(),
        skip_white_space(s, i) < s.len() ==> !is_white_space(s[skip_white_space(s, i)]),
    decreases s.len() - i,
{
    if i < s.len() && is_white_space(s[i]) {
        lemma_skip(s, i + 1);
    }
}

proof fn lemma_back(s: Seq<char>, lo: int, j: int)
    requires
        0 <= lo <= j <= s.len(),
    ensures
        lo <= back_over_white_space(s, lo, j) <= j,
        back_over_white_space(s, lo, j) > lo ==> !is_white_space(
            s[back_over_white_space(s, lo, j) - 1],
        ),
    decreases j - lo,
{
    if j > lo && is_white_space(s[j - 1]) {
        lemma_back(s, lo, j - 1);
    }
}

/// Trimming leaves no white space at either end.
pub proof fn law_trimmed_ends(s: Seq<char>)
    ensures
        trimmed(s).len() > 0 ==> !is_white_space(trimmed(s)[0]) && !is_white_space(
            trimmed(s)[trimmed(s).len() - 1],
        ),
{
    let a = skip_white_space(s, 0);
    lemma_skip(s, 0);
    let e = back_over_white_space(s, a, s.len() as int);
    lemma_back(s, a, s.len() as int);
    if trimmed(s).len() > 0 {
        assert(trimmed(s)[0] == s[a]);
        assert(trimmed(s)[trimmed(s).len() - 1] == s[e - 1]);
    }
}

proof fn lemma_back_over(s: Seq<char>, c: char, j: int)
    requires
        0 <= j <= s.len(),
    ensures
        0 <= back_over(s, c, j) <= j,
        back_over(s, c, j) > 0 ==> s[back_over(s, c, j) - 1] != c,
    decreases j,
{
    if j > 0 && s[j - 1] == c {
        lemma_back_over(s, c, j - 1);
    }
}

/// A compacted coordinate is never empty, never a bare sign, and never ends
/// in a decimal point.
pub proof fn law_compact_fixed_shape(s: Seq<char>)
    ensures
        compact_fixed(s).len() > 0,
        compact_fixed(s) != seq!['-'],
        compact_fixed(s).last() != '.',
{
    let a = strip_trailing(s, '0');
    lemma_back_over(s, '0', s.len() as int);
    let t = strip_trailing(a, '.');
    lemma_back_over(a, '.', a.len() as int);
    if t.len() == 0 || t == seq!['-'] {
        assert(compact_fixed(s) == seq!['0']);
        assert(seq!['0'][0] != seq!['-'][0]);
    } else {
        assert(t.last() == a[t.len() - 1]);
    }
}

/// A colour renders as '#' and six hex digits.
pub proof fn law_rgb_hex_shape(c: Rgb8)
    ensures
        rgb_hex(c).len() == 7,
        rgb_hex(c)[0] == '#',
{
}

} // verus!
