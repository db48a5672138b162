//! The scene as plain values: what the viewer logic reads of a STEP file.
//!
//! Entity keys are integers (one per distinct entity of the file); entities that
//! several others refer to (definitions, solids, edges, vertices) sit in arenas
//! and are referred to by index. Numbers that the file stores as floating point
//! arrive already rendered as text.
use vstd::prelude::*;

verus! {

/// A colour quantised to one byte per channel.
pub struct Rgb8 {
    pub red: u8,
    pub green: u8,
    pub blue: u8,
}

/// A cartesian point: its key and its coordinates, each as `f64` `Display`
/// renders it.
pub struct PointData {
    pub key: u64,
    pub x: String,
    pub y: String,
    pub z: String,
}

pub struct VertexData {
    pub key: u64,
    pub point: Option<PointData>,
}

pub struct EdgeData {
    pub key: u64,
    /// The `Debug` rendering of the curve's kind.
    pub curve_kind: String,
    pub color: Option<Rgb8>,
    /// The curve width, rendered.
    pub width: Option<String>,
    pub line_font: Option<String>,
    pub same_sense: bool,
    /// Index into `SceneModel::vertices`.
    pub start: Option<usize>,
    /// Index into `SceneModel::vertices`.
    pub end: Option<usize>,
}

pub struct BoundData {
    pub key: u64,
    /// Indices into `SceneModel::edges`, in the bound's order.
    pub edges: Vec<usize>,
}

pub struct FaceData {
    pub key: u64,
    /// The `Debug` rendering of the surface's kind.
    pub surface_kind: String,
    pub color: Option<Rgb8>,
    /// The transparency, rendered.
    pub transparency: Option<String>,
    pub layer: Option<String>,
    pub visible: bool,
    pub same_sense: bool,
    pub bounds: Vec<BoundData>,
}

pub struct SolidData {
    pub key: u64,
    pub name: String,
    pub color: Option<Rgb8>,
    /// The transparency, rendered.
    pub transparency: Option<String>,
    pub layer: Option<String>,
    pub visible: bool,
    /// The faces of the outer shell.
    pub faces: Vec<FaceData>,
    /// The internal cavities (void shells).
    pub voids: Vec<VoidData>,
}

/// An internal cavity of a solid: the key of its shell, and its faces.
pub struct VoidData {
    pub key: u64,
    pub faces: Vec<FaceData>,
}

/// Three coordinates, each rendered with four decimals (`{:.4}`).
pub struct Fixed3 {
    pub x: String,
    pub y: String,
    pub z: String,
}

/// The target frame an occurrence places its component at.
pub struct PlacementData {
    pub origin: Fixed3,
    pub axis: Fixed3,
    pub ref_direction: Fixed3,
}

pub struct OccurrenceData {
    /// Index into `SceneModel::defs`.
    pub definition: Option<usize>,
    pub placement: Option<PlacementData>,
}

pub struct PersonData {
    pub id: String,
    pub first_name: Option<String>,
    pub last_name: Option<String>,
}

/// An approval date; fields the file omits are `None`.
pub struct DateParts {
    pub year: Option<i64>,
    pub month: Option<i64>,
    pub day: Option<i64>,
}

pub struct ApproverData {
    pub person: Option<PersonData>,
    pub organization: Option<String>,
    pub role: String,
}

pub struct ApprovalData {
    pub status: String,
    pub level: String,
    pub date: Option<DateParts>,
    pub approvers: Vec<ApproverData>,
}

pub struct DocumentData {
    pub id: String,
    pub name: String,
    pub kind: String,
}

pub struct ContributorData {
    pub person: PersonData,
    pub role: String,
}

pub struct SecurityData {
    pub name: String,
    pub level: String,
    pub purpose: String,
}

pub struct ProductData {
    pub id: String,
    pub name: String,
    /// The ids of the product's versions, in order.
    pub versions: Vec<String>,
}

/// A product definition (a part or an assembly).
pub struct DefData {
    pub id: String,
    pub description: Option<String>,
    pub version: Option<String>,
    pub product: Option<ProductData>,
    /// Indices into `SceneModel::solids`: the definition's own b-rep.
    pub solids: Vec<usize>,
    pub occurrences: Vec<OccurrenceData>,
    pub approvals: Vec<ApprovalData>,
    pub documents: Vec<DocumentData>,
    pub contributors: Vec<ContributorData>,
    pub security: Vec<SecurityData>,
}

/// What a feature's geometry reference designates.
pub enum GeometryRefKind {
    Face,
    Edge,
    Point,
    Solid,
    Curve,
    Other,
}

pub struct GeometryRef {
    pub kind: GeometryRefKind,
    pub key: u64,
    /// The `Debug` rendering of the entity key.
    pub key_text: String,
}

/// A feature as PMI refers to it.
pub struct FeatureInfo {
    pub key: u64,
    pub name: String,
    /// The `Debug` rendering of the feature's kind.
    pub kind: String,
}

pub struct FeatureData {
    pub info: FeatureInfo,
    pub description: Option<String>,
    pub geometry: Vec<GeometryRef>,
}

pub struct DatumData {
    pub key: u64,
    pub letter: String,
    pub name: String,
    /// Key of the datum's physical feature.
    pub feature: Option<u64>,
}

pub struct DatumRef {
    pub key: u64,
    pub letter: String,
}

pub struct DimensionData {
    /// The `Debug` rendering of the dimension's kind.
    pub kind: String,
    /// The value, rendered.
    pub value: Option<String>,
    pub features: Vec<FeatureInfo>,
}

pub struct ToleranceData {
    /// The `Debug` rendering of the tolerance's kind.
    pub kind: String,
    /// The magnitude, rendered.
    pub magnitude: Option<String>,
    pub datums: Vec<DatumRef>,
    pub feature: Option<FeatureInfo>,
}

pub struct UnitData {
    pub name: String,
    /// The factor to SI, rendered.
    pub to_si: String,
}

pub struct UnitsData {
    pub length: Option<UnitData>,
    pub angle: Option<UnitData>,
    /// The modelling precision in scientific notation (`{:e}`).
    pub precision: Option<String>,
}

pub struct MeshData {
    pub triangles: u64,
}

/// The Part 21 header.
pub struct HeaderData {
    pub file_name: String,
    pub time_stamp: String,
    pub authors: Vec<String>,
    pub organizations: Vec<String>,
    pub preprocessor_version: String,
    pub originating_system: String,
    pub authorisation: String,
    pub description: String,
    /// Whether the schema's family is unrecognized.
    pub schema_unrecognized: bool,
    /// The schema's `Display` rendering.
    pub schema_label: String,
    /// The raw `FILE_SCHEMA` tokens, where the file had them.
    pub schema_raw: Option<Vec<String>>,
}

pub struct DroppedData {
    pub id: u64,
    /// The `Debug` rendering of the drop kind.
    pub kind: String,
    /// The entity's type keyword.
    pub key: String,
}

/// The reader's account of what was kept, normalized, and dropped.
pub struct ReadReport {
    pub n_in: usize,
    pub validated: usize,
    pub n_synth: usize,
    pub dropped: Vec<DroppedData>,
    pub norm: Vec<String>,
}

/// A read STEP file, as plain values.
pub struct SceneModel {
    pub header: HeaderData,
    pub report: ReadReport,
    pub defs: Vec<DefData>,
    /// Indices into `defs`: the top of the assembly tree.
    pub roots: Vec<usize>,
    pub solids: Vec<SolidData>,
    /// Indices into `solids`: every solid of the file, in file order.
    pub all_solids: Vec<usize>,
    pub edges: Vec<EdgeData>,
    pub vertices: Vec<VertexData>,
    pub features: Vec<FeatureData>,
    pub datums: Vec<DatumData>,
    pub dimensions: Vec<DimensionData>,
    pub tolerances: Vec<ToleranceData>,
    pub units: UnitsData,
    pub meshes: Vec<MeshData>,
    pub warnings: Vec<String>,
}

impl EdgeData {
    pub open spec fn ends_in(&self, n: nat) -> bool {
        &&& (self.start matches Some(v) ==> v < n)
        &&& (self.end matches Some(v) ==> v < n)
    }
}

impl BoundData {
    /// Every edge index of the bound is below `n`.
    pub open spec fn edges_in(&self, n: nat) -> bool {
        forall|e: int| 0 <= e < self.edges@.len() ==> #[trigger] self.edges@[e] < n
    }
}

impl FaceData {
    pub open spec fn edges_in(&self, n: nat) -> bool {
        forall|b: int| 0 <= b < self.bounds@.len() ==> #[trigger] self.bounds@[b].edges_in(n)
    }
}

/// Every face of the list has its edge indices below `n`.
pub open spec fn faces_edges_in(fs: Seq<FaceData>, n: nat) -> bool {
    forall|f: int| 0 <= f < fs.len() ==> #[trigger] fs[f].edges_in(n)
}

impl SolidData {
    pub open spec fn edges_in(&self, n: nat) -> bool {
        &&& faces_edges_in(self.faces@, n)
        &&& forall|c: int| 0 <= c < self.voids@.len() ==> faces_edges_in(#[trigger] self.voids@[c].faces@, n)
    }
}

impl DefData {
    pub open spec fn refs_in(&self, n_defs: nat, n_solids: nat) -> bool {
        &&& forall|i: int| 0 <= i < self.solids@.len() ==> #[trigger] self.solids@[i] < n_solids
        &&& forall|i: int|
            0 <= i < self.occurrences@.len() ==> (#[trigger] self.occurrences@[i].definition matches Some(d) ==> d
                < n_defs)
    }
}

impl SceneModel {
    /// Every index the model holds points into its arena.
    pub open spec fn well_formed(&self) -> bool {
        &&& forall|i: int| 0 <= i < self.edges@.len() ==> #[trigger] self.edges@[i].ends_in(self.vertices@.len())
        &&& forall|i: int| 0 <= i < self.solids@.len() ==> #[trigger] self.solids@[i].edges_in(self.edges@.len())
        &&& forall|i: int| 0 <= i < self.defs@.len() ==> #[trigger] self.defs@[i].refs_in(self.defs@.len(), self.solids@.len())
        &&& forall|i: int| 0 <= i < self.roots@.len() ==> #[trigger] self.roots@[i] < self.defs@.len()
        &&& forall|i: int| 0 <= i < self.all_solids@.len() ==> #[trigger] self.all_solids@[i] < self.solids@.len()
    }
}


fn bound_ok(b: &BoundData, n: usize) -> (r: bool)
    ensures
        r == b.edges_in(n as nat),
{
    let mut i: usize = 0;
    while i < b.edges.len()
        invariant
            i <= b.edges@.len(),
            forall|e: int| 0 <= e < i ==> #[trigger] b.edges@[e] < n,
        decreases b.edges@.len() - i,
    {
        if b.edges[i] >= n {
            return false;
        }
        i = i + 1;
    }
    true
}

fn faces_ok(fs: &Vec<FaceData>, n: usize) -> (r: bool)
    ensures
        r == faces_edges_in(fs@, n as nat),
{
    let mut i: usize = 0;
    while i < fs.len()
        invariant
            i <= fs@.len(),
            forall|f: int| 0 <= f < i ==> #[trigger] fs@[f].edges_in(n as nat),
        decreases fs@.len() - i,
    {
        let f = &fs[i];
        let mut j: usize = 0;
        while j < f.bounds.len()
            invariant
                i < fs@.len(),
                *f == fs@[i as int],
                j <= f.bounds@.len(),
                forall|b: int| 0 <= b < j ==> #[trigger] f.bounds@[b].edges_in(n as nat),
            decreases f.bounds@.len() - j,
        {
            if !bound_ok(&f.bounds[j], n) {
                assert(!fs@[i as int].bounds@[j as int].edges_in(n as nat));
                assert(!fs@[i as int].edges_in(n as nat));
                return false;
            }
            j = j + 1;
        }
        i = i + 1;
    }
    true
}

fn solid_ok(s: &SolidData, n: usize) -> (r: bool)
    ensures
        r == s.edges_in(n as nat),
{
    if !faces_ok(&s.faces, n) {
        return false;
    }
    let mut c: usize = 0;
    while c < s.voids.len()
        invariant
            c <= s.voids@.len(),
            forall|t: int| 0 <= t < c ==> faces_edges_in(#[trigger] s.voids@[t].faces@, n as nat),
        decreases s.voids@.len() - c,
    {
        if !faces_ok(&s.voids[c].faces, n) {
            assert(!faces_edges_in(s.voids@[c as int].faces@, n as nat));
            return false;
        }
        c = c + 1;
    }
    true
}

fn def_ok(d: &DefData, n_defs: usize, n_solids: usize) -> (r: bool)
    ensures
        r == d.refs_in(n_defs as nat, n_solids as nat),
{
    let mut i: usize = 0;
    while i < d.solids.len()
        invariant
            i <= d.solids@.len(),
            forall|t: int| 0 <= t < i ==> #[trigger] d.solids@[t] < n_solids,
        decreases d.solids@.len() - i,
    {
        if d.solids[i] >= n_solids {
            return false;
        }
        i = i + 1;
    }
    let mut k: usize = 0;
    while k < d.occurrences.len()
        invariant
            k <= d.occurrences@.len(),
            forall|t: int| 0 <= t < d.solids@.len() ==> #[trigger] d.solids@[t] < n_solids,
            forall|t: int|
                0 <= t < k ==> (#[trigger] d.occurrences@[t].definition matches Some(x) ==> x < n_defs),
        decreases d.occurrences@.len() - k,
    {
        match d.occurrences[k].definition {
            Some(x) => {
                if x >= n_defs {
                    assert(d.occurrences@[k as int].definition matches Some(y) && y >= n_defs);
                    return false;
                }
            },
            None => {},
        }
        k = k + 1;
    }
    true
}

fn indices_below(v: &Vec<usize>, n: usize) -> (r: bool)
    ensures
        r == forall|i: int| 0 <= i < v@.len() ==> #[trigger] v@[i] < n,
{
    let mut i: usize = 0;
    while i < v.len()
        invariant
            i <= v@.len(),
            forall|t: int| 0 <= t < i ==> #[trigger] v@[t] < n,
        decreases v@.len() - i,
    {
        if v[i] >= n {
            return false;
        }
        i = i + 1;
    }
    true
}

/// Whether every index the model holds points into its arena.
pub fn model_well_formed(m: &SceneModel) -> (r: bool)
    ensures
        r == m.well_formed(),
{
    let nv = m.vertices.len();
    let ne = m.edges.len();
    let ns = m.solids.len();
    let nd = m.defs.len();
    let mut i: usize = 0;
    while i < ne
        invariant
            i <= ne,
            ne == m.edges@.len(),
            nv == m.vertices@.len(),
            forall|t: int| 0 <= t < i ==> #[trigger] m.edges@[t].ends_in(nv as nat),
        decreases ne - i,
    {
        let e = &m.edges[i];
        match e.start {
            Some(v) => {
                if v >= nv {
                    assert(!m.edges@[i as int].ends_in(nv as nat));
                    return false;
                }
            },
            None => {},
        }
        match e.end {
            Some(v) => {
                if v >= nv {
                    assert(!m.edges@[i as int].ends_in(nv as nat));
                    return false;
                }
            },
            None => {},
        }
        i = i + 1;
    }
    let mut i: usize = 0;
    while i < ns
        invariant
            i <= ns,
            ns == m.solids@.len(),
            ne == m.edges@.len(),
            forall|t: int| 0 <= t < i ==> #[trigger] m.solids@[t].edges_in(ne as nat),
        decreases ns - i,
    {
        if !solid_ok(&m.solids[i], ne) {
            assert(!m.solids@[i as int].edges_in(ne as nat));
            return false;
        }
        i = i + 1;
    }
    let mut i: usize = 0;
    while i < nd
        invariant
            i <= nd,
            nd == m.defs@.len(),
            ns == m.solids@.len(),
            forall|t: int| 0 <= t < i ==> #[trigger] m.defs@[t].refs_in(nd as nat, ns as nat),
        decreases nd - i,
    {
        if !def_ok(&m.defs[i], nd, ns) {
            assert(!m.defs@[i as int].refs_in(nd as nat, ns as nat));
            return false;
        }
        i = i + 1;
    }
    indices_below(&m.roots, nd) && indices_below(&m.all_solids, ns)
}

} // verus!
