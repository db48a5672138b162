//! Walking the assembly tree: each product definition reached from a root is
//! one placed instance; its own solids are walked at its frame, and its
//! occurrences recurse with their frames composed onto it. The definitions on
//! the current path guard against cycles (shared parts under different paths
//! are fine).
use vstd::prelude::*;
use vstd::string::StringExecFns;
use std::collections::HashMap;
use std::collections::HashSet;
use crate::builder::{
    apply_step, geom_valid, lemma_run_append, lemma_run_push, proj, run, solid_node_ok, solid_steps,
    BState, Builder, Step,
};
use crate::model::{DefData, PlacementData, SceneModel};
use crate::product::{
    def_id_rows, def_label, def_label_meta, filled_row, placement_rows, plm_rows,
    push_filled_row, push_placement_rows, push_plm_rows,
};
use crate::tree::{metas_view, Frame, MetaView, Node, NodeKind};

verus! {

broadcast use vstd::std_specs::hash::group_hash_axioms;

/// Every frame refers to an earlier frame and to an existing occurrence;
/// frame 0 is the origin.
pub open spec fn frames_valid(m: SceneModel, frames: Seq<Frame>) -> bool {
    &&& frames.len() >= 1
    &&& frames[0] == Frame::Origin
    &&& forall|i: int|
        0 <= i < frames.len() ==> match #[trigger] frames[i] {
            Frame::Origin => true,
            Frame::Placed { parent, def, occurrence } => {
                &&& parent < i
                &&& def < m.defs@.len()
                &&& occurrence < m.defs@[def as int].occurrences@.len()
            },
        }
}

/// A definition's detail rows: identity, description, placement, PLM data.
pub open spec fn def_meta(d: DefData, placement: Option<PlacementData>, frame: usize) -> Seq<
    MetaView,
> {
    def_id_rows(d) + filled_row("description"@, d.description) + placement_rows(placement, frame)
        + plm_rows(d)
}

/// The indices of the occurrences that place a definition, in order.
pub open spec fn placed_occurrences(d: DefData) -> Seq<usize>
    decreases d.occurrences@.len(),
{
    placed_prefix(d, d.occurrences@.len() as int)
}

pub open spec fn placed_prefix(d: DefData, k: int) -> Seq<usize>
    decreases k,
{
    if k <= 0 {
        Seq::empty()
    } else if d.occurrences@[k - 1].definition is Some {
        placed_prefix(d, k - 1).push((k - 1) as usize)
    } else {
        placed_prefix(d, k - 1)
    }
}

/// The keys of the listed solids.
pub open spec fn solid_keys(m: SceneModel, ss: Seq<usize>) -> Set<u64> {
    Set::new(|k: u64| exists|i: int| 0 <= i < ss.len() && m.solids@[ss[i] as int].key == k)
}

/// The keys of the solids that walking definition `d` along `path` places:
/// its own, and those of every definition it places, unless `d` is already on
/// the path.
pub open spec fn def_emits(m: SceneModel, d: usize, path: Seq<usize>) -> Set<u64>
    decreases m.defs@.len() - path.len(), m.defs@[d as int].occurrences@.len() + 1,
{
    if path.contains(d) || path.len() >= m.defs@.len() {
        Set::empty()
    } else {
        let def = m.defs@[d as int];
        solid_keys(m, def.solids@).union(occs_emits(m, d, path, def.occurrences@.len() as int))
    }
}

/// The keys placed by the first `k` occurrences of definition `d` (walked
/// along `path`).
pub open spec fn occs_emits(m: SceneModel, d: usize, path: Seq<usize>, k: int) -> Set<u64>
    decreases m.defs@.len() - path.len(), k,
{
    let def = m.defs@[d as int];
    if k <= 0 || k > def.occurrences@.len() || path.len() >= m.defs@.len() {
        Set::empty()
    } else {
        occs_emits(m, d, path, k - 1).union(
            match def.occurrences@[k - 1].definition {
                Some(c) => def_emits(m, c, path.push(d)),
                None => Set::empty(),
            },
        )
    }
}

/// The first nodes are those of the listed solids, in one placed instance.
pub open spec fn solids_ok(m: SceneModel, sols: Seq<usize>, imap: Map<u64, u32>, nodes: Seq<Node>) -> bool {
    forall|i: int| 0 <= i < sols.len() ==> solid_node_ok(m, sols[i], imap, #[trigger] nodes[i])
}

/// What walking one placed instance handed out: its frame, its node's id, the
/// ids of its entities, and the walks of its placed children.
pub ghost struct Walk {
    pub frame: usize,
    pub id: u32,
    pub imap: Map<u64, u32>,
    pub children: Seq<Walk>,
}

/// The node of definition `d` walked along `path` as instance `w`: its label
/// and rows (placed at `w.frame`); when `d` is on the path, no children;
/// otherwise one child per own solid (all in one placed instance), then one
/// per placing occurrence.
pub open spec fn def_node_ok(
    m: SceneModel,
    d: usize,
    path: Seq<usize>,
    is_root: bool,
    placement: Option<PlacementData>,
    w: Walk,
    frames: Seq<Frame>,
    n: Node,
) -> bool
    decreases m.defs@.len() - path.len(), placed_occurrences(m.defs@[d as int]).len() + 1,
{
    let def = m.defs@[d as int];
    let sols = def.solids@;
    let occs = placed_occurrences(def);
    &&& n.kind == (if is_root {
        NodeKind::Part
    } else {
        NodeKind::Component
    })
    &&& n.id == w.id
    &&& n.label@ == def_label(def)
    &&& metas_view(n.meta@) == def_meta(def, placement, w.frame)
    &&& if path.contains(d) {
        n.children@.len() == 0
    } else if path.len() >= m.defs@.len() {
        false
    } else {
        &&& n.children@.len() == sols.len() + occs.len()
        &&& solids_ok(m, sols, w.imap, n.children@)
        &&& w.children.len() == occs.len()
        &&& occ_children_ok(m, d, path, w, frames, n.children@, occs.len() as int)
    }
}

/// The first `j` placed children among the child nodes of definition `d`
/// (instance `w`):
/// each is the node of the placed definition, at a frame that its placing
/// occurrence puts onto `w.frame`.
pub open spec fn occ_children_ok(
    m: SceneModel,
    d: usize,
    path: Seq<usize>,
    w: Walk,
    frames: Seq<Frame>,
    nodes: Seq<Node>,
    j: int,
) -> bool
    decreases m.defs@.len() - path.len(), j,
{
    let def = m.defs@[d as int];
    let occs = placed_occurrences(def);
    if j <= 0 {
        true
    } else if j > occs.len() || path.len() >= m.defs@.len() {
        false
    } else {
        let k = occs[j - 1];
        let occ = def.occurrences@[k as int];
        let cw = w.children[j - 1];
        &&& occ_children_ok(m, d, path, w, frames, nodes, j - 1)
        &&& cw.frame < frames.len()
        &&& frames[cw.frame as int] == (Frame::Placed { parent: w.frame, def: d, occurrence: k })
        &&& def_node_ok(
            m,
            occ.definition->0,
            path.push(d),
            false,
            occ.placement,
            cw,
            frames,
            nodes[def.solids@.len() + j - 1],
        )
    }
}


/// The ids a walk of definition `d` along `path`, started at state `s`, hands
/// out: its node takes the next id; unless `d` is on the path, its entities
/// take the ids its solids' steps give them in a new instance, and each placed
/// child is walked from the state the earlier children left.
pub open spec fn walk_ok(m: SceneModel, d: usize, path: Seq<usize>, w: Walk, s: BState) -> bool
    decreases m.defs@.len() - path.len(), placed_occurrences(m.defs@[d as int]).len() + 1,
{
    &&& w.id == s.next
    &&& (path.contains(d) || path.len() >= m.defs@.len() || {
        let s2 = run(
            s,
            seq![Step::Fresh, Step::NewInstance] + solids_steps(m, m.defs@[d as int].solids@, w.frame),
        );
        &&& w.imap == s2.imap
        &&& occ_walks_ok(m, d, path, w, s2, placed_occurrences(m.defs@[d as int]).len() as int)
    })
}

/// The first `j` placed children of definition `d` are walked as `walk_ok`
/// says, from the state `s2` that its own solids left.
pub open spec fn occ_walks_ok(m: SceneModel, d: usize, path: Seq<usize>, w: Walk, s2: BState, j: int) -> bool
    decreases m.defs@.len() - path.len(), j,
{
    let def = m.defs@[d as int];
    let occs = placed_occurrences(def);
    if j <= 0 {
        true
    } else if j > occs.len() || path.len() >= m.defs@.len() {
        false
    } else {
        &&& occ_walks_ok(m, d, path, w, s2, j - 1)
        &&& walk_ok(
            m,
            def.occurrences@[occs[j - 1] as int].definition->0,
            path.push(d),
            w.children[j - 1],
            proj(run(s2, occ_steps(m, d, path, w, j - 1))),
        )
    }
}

/// Whether the first `j` children are walked as `walk_ok` says depends only on
/// their walks.
pub proof fn lemma_occ_walks_congruent(
    m: SceneModel,
    d: usize,
    path: Seq<usize>,
    w1: Walk,
    w2: Walk,
    s2: BState,
    j: int,
)
    requires
        occ_walks_ok(m, d, path, w1, s2, j),
        j <= w1.children.len(),
        j <= w2.children.len(),
        forall|i: int| 0 <= i < j ==> #[trigger] w2.children[i] == w1.children[i],
    ensures
        occ_walks_ok(m, d, path, w2, s2, j),
    decreases j,
{
    if j > 0 {
        lemma_occ_walks_congruent(m, d, path, w1, w2, s2, j - 1);
        lemma_occ_steps_congruent(m, d, path, w1, w2, j - 1);
        assert(w2.children[j - 1] == w1.children[j - 1]);
    }
}

/// The steps of walking the listed solids, each in turn, at `frame`.
pub open spec fn solids_steps(m: SceneModel, ss: Seq<usize>, frame: usize) -> Seq<Step>
    decreases ss.len(),
{
    if ss.len() == 0 {
        Seq::empty()
    } else {
        solids_steps(m, ss.drop_last(), frame) + solid_steps(m, ss.last(), frame)
    }
}

/// The steps of walking definition `d` along `path` as instance `w`: its
/// node's id; then, unless `d` is on the path, a new instance with its solids,
/// then its placed children.
pub open spec fn def_steps(m: SceneModel, d: usize, path: Seq<usize>, w: Walk) -> Seq<Step>
    decreases m.defs@.len() - path.len(), placed_occurrences(m.defs@[d as int]).len() + 1,
{
    seq![Step::Fresh] + if path.contains(d) || path.len() >= m.defs@.len() {
        Seq::empty()
    } else {
        seq![Step::NewInstance] + solids_steps(m, m.defs@[d as int].solids@, w.frame) + occ_steps(
            m,
            d,
            path,
            w,
            placed_occurrences(m.defs@[d as int]).len() as int,
        )
    }
}

/// The steps of walking the first `j` placed children of definition `d`.
pub open spec fn occ_steps(m: SceneModel, d: usize, path: Seq<usize>, w: Walk, j: int) -> Seq<Step>
    decreases m.defs@.len() - path.len(), j,
{
    let def = m.defs@[d as int];
    let occs = placed_occurrences(def);
    if j <= 0 || j > occs.len() || path.len() >= m.defs@.len() {
        Seq::empty()
    } else {
        occ_steps(m, d, path, w, j - 1) + def_steps(
            m,
            def.occurrences@[occs[j - 1] as int].definition->0,
            path.push(d),
            w.children[j - 1],
        )
    }
}

/// Walking a definition does not depend on the instance map it starts with.
pub proof fn lemma_def_steps_proj(m: SceneModel, d: usize, path: Seq<usize>, w: Walk, s1: BState, s2: BState)
    requires
        proj(s1) == proj(s2),
    ensures
        proj(run(s1, def_steps(m, d, path, w))) == proj(run(s2, def_steps(m, d, path, w))),
{
    let rest = if path.contains(d) || path.len() >= m.defs@.len() {
        Seq::<Step>::empty()
    } else {
        seq![Step::NewInstance] + solids_steps(m, m.defs@[d as int].solids@, w.frame) + occ_steps(
            m,
            d,
            path,
            w,
            placed_occurrences(m.defs@[d as int]).len() as int,
        )
    };
    assert(def_steps(m, d, path, w) == seq![Step::Fresh] + rest);
    lemma_run_append(s1, seq![Step::Fresh], rest);
    lemma_run_append(s2, seq![Step::Fresh], rest);
    lemma_run_push(s1, Seq::empty(), Step::Fresh);
    lemma_run_push(s2, Seq::empty(), Step::Fresh);
    assert(seq![Step::Fresh] =~= Seq::<Step>::empty().push(Step::Fresh));
    let x1 = apply_step(s1, Step::Fresh);
    let x2 = apply_step(s2, Step::Fresh);
    if rest.len() > 0 {
        let tail = rest.drop_first();
        assert(rest =~= seq![Step::NewInstance] + tail);
        lemma_run_append(x1, seq![Step::NewInstance], tail);
        lemma_run_append(x2, seq![Step::NewInstance], tail);
        lemma_run_push(x1, Seq::empty(), Step::NewInstance);
        lemma_run_push(x2, Seq::empty(), Step::NewInstance);
        assert(seq![Step::NewInstance] =~= Seq::<Step>::empty().push(Step::NewInstance));
        assert(apply_step(x1, Step::NewInstance) == apply_step(x2, Step::NewInstance));
    } else {
        assert(rest =~= Seq::<Step>::empty());
    }
}

/// The steps of the first `j` children depend only on their walks.
pub proof fn lemma_occ_steps_congruent(m: SceneModel, d: usize, path: Seq<usize>, w1: Walk, w2: Walk, j: int)
    requires
        j <= w1.children.len(),
        j <= w2.children.len(),
        forall|i: int| 0 <= i < j ==> #[trigger] w2.children[i] == w1.children[i],
    ensures
        occ_steps(m, d, path, w1, j) == occ_steps(m, d, path, w2, j),
    decreases j,
{
    if j > 0 {
        lemma_occ_steps_congruent(m, d, path, w1, w2, j - 1);
        assert(w2.children[j - 1] == w1.children[j - 1]);
    }
}

/// A duplicate-free sequence of indices below `n` has at most `n` entries.
pub proof fn lemma_distinct_below(s: Seq<usize>, n: nat)
    requires
        s.no_duplicates(),
        forall|i: int| 0 <= i < s.len() ==> #[trigger] s[i] < n,
    ensures
        s.len() <= n,
    decreases n,
{
    if n == 0 {
        if s.len() > 0 {
            assert(s[0] < n);
        }
    } else {
        let top = (n - 1) as usize;
        if exists|k: int| 0 <= k < s.len() && s[k] == top {
            let k = choose|k: int| 0 <= k < s.len() && s[k] == top;
            let t = s.subrange(0, k) + s.subrange(k + 1, s.len() as int);
            assert forall|i: int| 0 <= i < t.len() implies #[trigger] t[i] < (n - 1) as nat by {
                if i < k {
                    assert(t[i] == s[i]);
                    assert(s[i] != s[k]);
                } else {
                    assert(t[i] == s[i + 1]);
                    assert(s[i + 1] != s[k]);
                }
            }
            assert forall|i: int, j: int|
                0 <= i < t.len() && 0 <= j < t.len() && i != j implies t[i] != t[j] by {
                let a = if i < k {
                    i
                } else {
                    i + 1
                };
                let b = if j < k {
                    j
                } else {
                    j + 1
                };
                assert(t[i] == s[a]);
                assert(t[j] == s[b]);
            }
            lemma_distinct_below(t, (n - 1) as nat);
        } else {
            assert forall|i: int| 0 <= i < s.len() implies #[trigger] s[i] < (n - 1) as nat by {
                assert(s[i] != top);
            }
            lemma_distinct_below(s, (n - 1) as nat);
        }
    }
}

/// `a` is a prefix of `b`.
pub open spec fn frames_prefix(a: Seq<Frame>, b: Seq<Frame>) -> bool {
    a.len() <= b.len() && forall|i: int| 0 <= i < a.len() ==> #[trigger] b[i] == a[i]
}

/// A node stays correct when frames are appended.
pub proof fn lemma_def_node_frames_grow(
    m: SceneModel,
    d: usize,
    path: Seq<usize>,
    is_root: bool,
    placement: Option<PlacementData>,
    w: Walk,
    f1: Seq<Frame>,
    f2: Seq<Frame>,
    n: Node,
)
    requires
        def_node_ok(m, d, path, is_root, placement, w, f1, n),
        frames_prefix(f1, f2),
    ensures
        def_node_ok(m, d, path, is_root, placement, w, f2, n),
    decreases m.defs@.len() - path.len(), placed_occurrences(m.defs@[d as int]).len() + 1,
{
    let def = m.defs@[d as int];
    if !path.contains(d) && path.len() < m.defs@.len() {
        lemma_occ_children_frames_grow(
            m,
            d,
            path,
            w,
            f1,
            f2,
            n.children@,
            placed_occurrences(def).len() as int,
        );
    }
}

pub proof fn lemma_occ_children_frames_grow(
    m: SceneModel,
    d: usize,
    path: Seq<usize>,
    w: Walk,
    f1: Seq<Frame>,
    f2: Seq<Frame>,
    nodes: Seq<Node>,
    j: int,
)
    requires
        occ_children_ok(m, d, path, w, f1, nodes, j),
        frames_prefix(f1, f2),
    ensures
        occ_children_ok(m, d, path, w, f2, nodes, j),
    decreases m.defs@.len() - path.len(), j,
{
    let def = m.defs@[d as int];
    let occs = placed_occurrences(def);
    if j > 0 && j <= occs.len() && path.len() < m.defs@.len() {
        let k = occs[j - 1];
        let occ = def.occurrences@[k as int];
        let cw = w.children[j - 1];
        lemma_occ_children_frames_grow(m, d, path, w, f1, f2, nodes, j - 1);
        assert(f2[cw.frame as int] == f1[cw.frame as int]);
        lemma_def_node_frames_grow(
            m,
            occ.definition->0,
            path.push(d),
            false,
            occ.placement,
            cw,
            f1,
            f2,
            nodes[def.solids@.len() + j - 1],
        );
    }
}

pub proof fn lemma_solid_keys_step(m: SceneModel, ss: Seq<usize>, i: int)
    requires
        0 <= i < ss.len(),
    ensures
        solid_keys(m, ss.take(i + 1)) == solid_keys(m, ss.take(i)).insert(m.solids@[ss[i] as int].key),
{
    let a = ss.take(i + 1);
    let b = ss.take(i);
    assert forall|key: u64|
        solid_keys(m, a).contains(key) <==> solid_keys(m, b).insert(
            m.solids@[ss[i] as int].key,
        ).contains(key) by {
        if solid_keys(m, a).contains(key) {
            let t = choose|t: int| 0 <= t < a.len() && m.solids@[a[t] as int].key == key;
            if t < i {
                assert(b[t] == a[t]);
            }
        }
        if solid_keys(m, b).contains(key) {
            let t = choose|t: int| 0 <= t < b.len() && m.solids@[b[t] as int].key == key;
            assert(a[t] == b[t]);
        }
        if key == m.solids@[ss[i] as int].key {
            assert(a[i] == ss[i]);
        }
    }
    assert(solid_keys(m, a) =~= solid_keys(m, b).insert(m.solids@[ss[i] as int].key));
}


/// The placing occurrences among the first `k` lead those among the first
/// `k2`.
pub proof fn lemma_placed_prefix_grows(d: DefData, k: int, k2: int)
    requires
        0 <= k <= k2,
    ensures
        placed_prefix(d, k).len() <= placed_prefix(d, k2).len(),
        forall|i: int|
            0 <= i < placed_prefix(d, k).len() ==> #[trigger] placed_prefix(d, k2)[i]
                == placed_prefix(d, k)[i],
    decreases k2 - k,
{
    if k2 > k {
        lemma_placed_prefix_grows(d, k, k2 - 1);
    }
}

/// Each placing occurrence among the first `k` is below `k`.
pub proof fn lemma_placed_prefix_below(d: DefData, k: int)
    requires
        0 <= k,
    ensures
        forall|i: int| 0 <= i < placed_prefix(d, k).len() ==> #[trigger] placed_prefix(d, k)[i] < k,
    decreases k,
{
    if k > 0 {
        lemma_placed_prefix_below(d, k - 1);
        assert forall|i: int| 0 <= i < placed_prefix(d, k).len() implies #[trigger] placed_prefix(d, k)[i] < k by {
            if i < placed_prefix(d, k - 1).len() {
                assert(placed_prefix(d, k)[i] == placed_prefix(d, k - 1)[i]);
            }
        }
    }
}

/// Child correctness depends only on the children walked so far.
pub proof fn lemma_occ_children_congruent(
    m: SceneModel,
    d: usize,
    path: Seq<usize>,
    w1: Walk,
    w2: Walk,
    frames: Seq<Frame>,
    n1: Seq<Node>,
    n2: Seq<Node>,
    j: int,
)
    requires
        occ_children_ok(m, d, path, w1, frames, n1, j),
        w1.frame == w2.frame,
        j <= w1.children.len(),
        j <= w2.children.len(),
        forall|i: int| 0 <= i < j ==> #[trigger] w2.children[i] == w1.children[i],
        m.defs@[d as int].solids@.len() + j <= n1.len(),
        m.defs@[d as int].solids@.len() + j <= n2.len(),
        forall|i: int|
            0 <= i < m.defs@[d as int].solids@.len() + j ==> #[trigger] n2[i] == n1[i],
    ensures
        occ_children_ok(m, d, path, w2, frames, n2, j),
    decreases j,
{
    if j > 0 {
        lemma_occ_children_congruent(m, d, path, w1, w2, frames, n1, n2, j - 1);
        assert(w2.children[j - 1] == w1.children[j - 1]);
        assert(n2[m.defs@[d as int].solids@.len() + j - 1] == n1[m.defs@[d as int].solids@.len() + j - 1]);
    }
}

impl Builder {
    /// Walks one product-definition instance placed at frame `frame`: its own
    /// solids at that frame, then its placed children with their frames
    /// composed onto it. `visited` holds the definitions on the current path;
    /// a definition already on it is shown without children. `emitted`
    /// collects the keys of the solids placed.
    pub fn emit_def(
        &mut self,
        m: &SceneModel,
        d: usize,
        frame: usize,
        is_root: bool,
        placement: &Option<PlacementData>,
        visited: &mut Vec<usize>,
        emitted: &mut HashSet<u64>,
    ) -> (r: (Node, Ghost<Walk>))
        requires
            m.well_formed(),
            d < m.defs@.len(),
            frame < old(self).frames@.len(),
            frames_valid(*m, old(self).frames@),
            geom_valid(*m, old(self).geom@, old(self).frames@.len()),
            old(visited)@.no_duplicates(),
            forall|i: int| 0 <= i < old(visited)@.len() ==> #[trigger] old(visited)@[i] < m.defs@.len(),
        ensures
            final(visited)@ == old(visited)@,
            frames_valid(*m, final(self).frames@),
            frames_prefix(old(self).frames@, final(self).frames@),
            geom_valid(*m, final(self).geom@, final(self).frames@.len()),
            final(emitted)@ == old(emitted)@.union(def_emits(*m, d, old(visited)@)),
            r.0.id == old(self).next,
            r.1@.frame == frame,
            final(self).state(Map::empty()) == proj(
                run(old(self).state(Map::empty()), def_steps(*m, d, old(visited)@, r.1@)),
            ),
            def_node_ok(*m, d, old(visited)@, is_root, *placement, r.1@, final(self).frames@, r.0),
            walk_ok(*m, d, old(visited)@, r.1@, old(self).state(Map::empty())),
        decreases m.defs@.len() - old(visited)@.len(),
    {
        let ghost path = visited@;
        let ghost frames0 = self.frames@;
        let ghost s0 = self.state(Map::empty());
        let ghost emitted0 = emitted@;
        let cyclic = on_path(visited, d);
        proof {
            if !cyclic {
                let p2 = path.push(d);
                assert forall|i: int, j: int|
                    0 <= i < p2.len() && 0 <= j < p2.len() && i != j implies p2[i] != p2[j] by {
                    if i < path.len() && j < path.len() {
                    } else if i == path.len() {
                        assert(!path.contains(d));
                        assert(p2[j] == path[j]);
                    } else {
                        assert(!path.contains(d));
                        assert(p2[i] == path[i]);
                    }
                }
                assert forall|i: int| 0 <= i < p2.len() implies #[trigger] p2[i] < m.defs@.len() by {
                    if i < path.len() {
                        assert(p2[i] == path[i]);
                    }
                }
                lemma_distinct_below(p2, m.defs@.len());
            }
        }
        visited.push(d);
        let node_id = self.next();
        proof {
            lemma_run_push(s0, Seq::empty(), Step::Fresh);
            assert(seq![Step::Fresh] =~= Seq::<Step>::empty().push(Step::Fresh));
            assert(self.state(Map::empty()) == run(s0, seq![Step::Fresh]));
        }
        let def = &m.defs[d];
        let ghost sols = def.solids@;
        let mut children: Vec<Node> = Vec::new();
        let ghost mut wc: Seq<Walk> = Seq::empty();
        let ghost mut imap_s: Map<u64, u32> = Map::empty();
        assert(m.defs@[d as int].refs_in(m.defs@.len(), m.solids@.len()));
        if !cyclic {
            let mut imap: HashMap<u64, u32> = HashMap::new();
            let mut i: usize = 0;
            let ghost head = seq![Step::Fresh, Step::NewInstance];
            proof {
                lemma_run_push(s0, seq![Step::Fresh], Step::NewInstance);
                assert(seq![Step::Fresh].push(Step::NewInstance) =~= head);
                assert(self.state(imap@) == run(s0, head));
                assert(head + solids_steps(*m, sols.take(0), frame) =~= head);
                assert(solid_keys(*m, sols.take(0)) =~= Set::<u64>::empty());
                assert(emitted@ =~= emitted0.union(solid_keys(*m, sols.take(0))));
            }
            while i < def.solids.len()
                invariant
                    m.well_formed(),
                    *def == m.defs@[d as int],
                    sols == def.solids@,
                    def.refs_in(m.defs@.len(), m.solids@.len()),
                    i <= sols.len(),
                    frame < self.frames@.len(),
                    self.frames@ == frames0,
                    geom_valid(*m, self.geom@, self.frames@.len()),
                    visited@ == path.push(d),
                    emitted@ == emitted0.union(solid_keys(*m, sols.take(i as int))),
                    self.state(imap@) == run(s0, head + solids_steps(*m, sols.take(i as int), frame)),
                    children@.len() == i,
                    solids_ok(*m, sols.take(i as int), imap@, children@),
                decreases sols.len() - i,
            {
                let si = def.solids[i];
                emitted.insert(m.solids[si].key);
                let ghost i0 = imap@;
                let ghost st0 = self.state(imap@);
                let sn = self.solid_node(m, si, frame, &mut imap);
                proof {
                    lemma_solid_keys_step(*m, sols, i as int);
                    assert(sols.take(i + 1).drop_last() =~= sols.take(i as int));
                    lemma_run_append(
                        s0,
                        head + solids_steps(*m, sols.take(i as int), frame),
                        solid_steps(*m, si, frame),
                    );
                    assert(head + solids_steps(*m, sols.take(i + 1), frame) =~= head + solids_steps(
                        *m,
                        sols.take(i as int),
                        frame,
                    ) + solid_steps(*m, si, frame));
                }
                children.push(sn);
                proof {
                    assert forall|t: int| 0 <= t < sols.take(i + 1).len() implies solid_node_ok(
                        *m,
                        sols.take(i + 1)[t],
                        imap@,
                        #[trigger] children@[t],
                    ) by {
                        if t < i {
                            assert(sols.take(i + 1)[t] == sols.take(i as int)[t]);
                            crate::builder::lemma_solid_ok_grow(*m, sols[t], i0, imap@, children@[t]);
                        }
                    }
                    assert(emitted@ =~= emitted0.union(solid_keys(*m, sols.take(i + 1))));
                }
                i = i + 1;
            }
            proof {
                imap_s = imap@;
            }
            proof {
                assert(sols.take(i as int) =~= sols);
                assert(self.state(imap@) == run(s0, head + solids_steps(*m, sols, frame)));
            }
            let mut k: usize = 0;
            let ghost pre = head + solids_steps(*m, sols, frame);
            proof {
                assert(emitted@ =~= emitted0.union(solid_keys(*m, sols).union(occs_emits(*m, d, path, 0))));
                assert(pre + occ_steps(*m, d, path, Walk { frame, id: node_id, imap: imap_s, children: wc }, 0) =~= pre);
                assert(self.state(Map::empty()) == proj(self.state(imap@)));
            }
            while k < def.occurrences.len()
                invariant
                    m.well_formed(),
                    d < m.defs@.len(),
                    *def == m.defs@[d as int],
                    sols == def.solids@,
                    def.refs_in(m.defs@.len(), m.solids@.len()),
                    path == old(visited)@,
                    !path.contains(d),
                    path.len() < m.defs@.len(),
                    path.push(d).no_duplicates(),
                    path.push(d).len() <= m.defs@.len(),
                    forall|t: int| 0 <= t < path.push(d).len() ==> #[trigger] path.push(d)[t] < m.defs@.len(),
                    k <= def.occurrences@.len(),
                    frame < self.frames@.len(),
                    frames_valid(*m, self.frames@),
                    frames_prefix(frames0, self.frames@),
                    geom_valid(*m, self.geom@, self.frames@.len()),
                    visited@ == path.push(d),
                    emitted@ == emitted0.union(solid_keys(*m, sols).union(occs_emits(*m, d, path, k as int))),
                    children@.len() == sols.len() + placed_prefix(*def, k as int).len(),
                    solids_ok(*m, sols, imap_s, children@),
                    wc.len() == placed_prefix(*def, k as int).len(),
                    self.state(Map::empty()) == proj(
                        run(
                            s0,
                            pre + occ_steps(
                                *m,
                                d,
                                path,
                                Walk { frame, id: node_id, imap: imap_s, children: wc },
                                placed_prefix(*def, k as int).len() as int,
                            ),
                        ),
                    ),
                    occ_children_ok(
                        *m,
                        d,
                        path,
                        Walk { frame, id: node_id, imap: imap_s, children: wc },
                        self.frames@,
                        children@,
                        placed_prefix(*def, k as int).len() as int,
                    ),
                    occ_walks_ok(
                        *m,
                        d,
                        path,
                        Walk { frame, id: node_id, imap: imap_s, children: wc },
                        run(s0, pre),
                        placed_prefix(*def, k as int).len() as int,
                    ),
                decreases def.occurrences@.len() - k,
            {
                let occ = &def.occurrences[k];
                let ghost j = placed_prefix(*def, k as int).len();
                match occ.definition {
                    Some(c) => {
                        let ghost fr0 = self.frames@;
                        self.frames.push(Frame::Placed { parent: frame, def: d, occurrence: k });
                        let cf = self.frames.len() - 1;
                        proof {
                            assert(frames_prefix(fr0, self.frames@));
                            assert(frames_valid(*m, self.frames@)) by {
                                assert forall|t: int| 0 <= t < self.frames@.len() implies match #[trigger] self.frames@[t] {
                                    Frame::Origin => true,
                                    Frame::Placed { parent, def, occurrence } => {
                                        &&& parent < t
                                        &&& def < m.defs@.len()
                                        &&& occurrence < m.defs@[def as int].occurrences@.len()
                                    },
                                } by {
                                    if t < fr0.len() {
                                        assert(self.frames@[t] == fr0[t]);
                                    }
                                }
                            }
                            assert(c < m.defs@.len());
                        }
                        let ghost fr1 = self.frames@;
                        let ghost nodes0 = children@;
                        let ghost st_before = self.state(Map::empty());
                        let (cn, Ghost(cw)) = self.emit_def(m, c, cf, false, &occ.placement, visited, emitted);
                        children.push(cn);
                        proof {
                            let w0 = Walk { frame, id: node_id, imap: imap_s, children: wc };
                            let w1 = Walk { frame, id: node_id, imap: imap_s, children: wc.push(cw) };
                            lemma_placed_prefix_grows(*def, k + 1, def.occurrences@.len() as int);
                            lemma_placed_prefix_below(*def, k as int);
                            assert(placed_prefix(*def, k + 1) == placed_prefix(*def, k as int).push(k));
                            // frames grew during the call
                            assert(frames_prefix(fr0, self.frames@)) by {
                                assert forall|t: int| 0 <= t < fr0.len() implies #[trigger] self.frames@[t] == fr0[t] by {
                                    assert(fr1[t] == fr0[t]);
                                }
                            }
                            lemma_occ_children_frames_grow(*m, d, path, w0, fr0, self.frames@, nodes0, j as int);
                            lemma_occ_children_congruent(*m, d, path, w0, w1, self.frames@, nodes0, children@, j as int);
                            assert(placed_occurrences(*def)[j as int] == k);
                            assert(self.frames@[cf as int] == fr1[cf as int]);
                            assert(children@[sols.len() + j as int] == cn);
                            assert(w1.children[j as int] == cw);
                            assert(occ_children_ok(*m, d, path, w1, self.frames@, children@, j as int + 1));
                            assert forall|t: int| 0 <= t < sols.len() implies solid_node_ok(
                                *m,
                                sols[t],
                                imap_s,
                                #[trigger] children@[t],
                            ) by {
                                assert(children@[t] == nodes0[t]);
                            }
                            assert(frames_prefix(frames0, self.frames@)) by {
                                assert forall|t: int| 0 <= t < frames0.len() implies #[trigger] self.frames@[t] == frames0[t] by {
                                    assert(fr0[t] == frames0[t]);
                                    assert(self.frames@[t] == fr0[t]);
                                }
                            }
                            assert(occs_emits(*m, d, path, k + 1) == occs_emits(*m, d, path, k as int).union(
                                def_emits(*m, c, path.push(d)),
                            ));
                            // the builder's state follows the child's steps
                            let p_old = pre + occ_steps(*m, d, path, w0, j as int);
                            let dsteps = def_steps(*m, c, path.push(d), cw);
                            lemma_def_steps_proj(*m, c, path.push(d), cw, st_before, run(s0, p_old));
                            lemma_run_append(s0, p_old, dsteps);
                            lemma_occ_steps_congruent(*m, d, path, w0, w1, j as int);
                            lemma_occ_walks_congruent(*m, d, path, w0, w1, run(s0, pre), j as int);
                            lemma_run_append(s0, pre, occ_steps(*m, d, path, w1, j as int));
                            assert(walk_ok(
                                *m,
                                c,
                                path.push(d),
                                cw,
                                proj(run(run(s0, pre), occ_steps(*m, d, path, w1, j as int))),
                            ));
                            assert(occ_walks_ok(*m, d, path, w1, run(s0, pre), j as int + 1));
                            assert(occ_steps(*m, d, path, w1, j as int + 1) == occ_steps(*m, d, path, w1, j as int)
                                + dsteps);
                            assert(pre + occ_steps(*m, d, path, w1, j as int + 1) =~= p_old + dsteps);
                            assert(emitted@ =~= emitted0.union(
                                solid_keys(*m, sols).union(occs_emits(*m, d, path, k + 1)),
                            ));
                            wc = wc.push(cw);
                        }
                    },
                    None => {
                        proof {
                            assert(placed_prefix(*def, k + 1) == placed_prefix(*def, k as int));
                            assert(occs_emits(*m, d, path, k + 1) == occs_emits(*m, d, path, k as int));
                        }
                    },
                }
                k = k + 1;
            }
            proof {
                assert(placed_occurrences(*def) == placed_prefix(*def, def.occurrences@.len() as int));
                assert(solids_ok(*m, sols, imap_s, children@));
                assert(pre == seq![Step::Fresh, Step::NewInstance] + solids_steps(
                    *m,
                    m.defs@[d as int].solids@,
                    frame,
                ));
                assert(walk_ok(*m, d, path, Walk { frame, id: node_id, imap: imap_s, children: wc }, s0));
            }
        }
        let popped = visited.pop();
        proof {
            assert(visited@ =~= path);
        }
        let (label, mut meta) = def_label_meta(def);
        push_filled_row(&mut meta, "description", &def.description);
        push_placement_rows(&mut meta, placement, frame);
        push_plm_rows(&mut meta, def);
        let n = Node {
            id: node_id,
            kind: if is_root {
                NodeKind::Part
            } else {
                NodeKind::Component
            },
            label,
            meta,
            children,
        };
        proof {
            let w = Walk { frame, id: node_id, imap: imap_s, children: wc };
            assert(metas_view(n.meta@) =~= def_meta(*def, *placement, frame));
            if !cyclic {
                assert(def_steps(*m, d, path, w) =~= seq![Step::Fresh, Step::NewInstance] + solids_steps(
                    *m,
                    sols,
                    frame,
                ) + occ_steps(*m, d, path, w, placed_occurrences(*def).len() as int));
            } else {
                assert(def_steps(*m, d, path, w) =~= seq![Step::Fresh]);
            }
            if cyclic {
                assert(def_emits(*m, d, path) =~= Set::<u64>::empty());
                assert(emitted@ =~= emitted0.union(def_emits(*m, d, path)));
            } else {
                assert(emitted@ =~= emitted0.union(def_emits(*m, d, path)));
                assert(solids_ok(*m, sols, imap_s, n.children@));
            }
        }
        (n, Ghost(Walk { frame, id: node_id, imap: imap_s, children: wc }))
    }
}

/// Whether `d` is on the path.
fn on_path(visited: &Vec<usize>, d: usize) -> (b: bool)
    ensures
        b == visited@.contains(d),
{
    let mut i: usize = 0;
    while i < visited.len()
        invariant
            i <= visited.len(),
            forall|j: int| 0 <= j < i ==> visited@[j] != d,
        decreases visited.len() - i,
    {
        if visited[i] == d {
            return true;
        }
        i = i + 1;
    }
    false
}

} // verus!
