//! What the viewer receives: the scene tree, detail-pane metadata, and the
//! geometry each rendered id stands for.
use vstd::prelude::*;

verus! {

/// The group id: top-level groups are not selectable objects.
pub const GROUP_ID: u32 = 0xffff_ffffu32;

#[derive(PartialEq, Eq, Structural, Clone, Copy, Debug)]
pub enum NodeKind {
    Group,
    Part,
    Component,
    Solid,
    Void,
    Face,
    Bound,
    Edge,
    Vertex,
    Feature,
    Datum,
    Dimension,
    Tolerance,
    Mesh,
}

/// A detail-pane value: text, or the world position of a placed instance
/// (which the renderer computes from the instance's frame).
pub enum MetaValue {
    Text(String),
    WorldOrigin(usize),
}

pub enum MetaValueView {
    Text(Seq<char>),
    WorldOrigin(usize),
}

/// One detail-pane row.
pub struct Meta {
    pub key: String,
    pub value: MetaValue,
}

pub struct MetaView {
    pub key: Seq<char>,
    pub value: MetaValueView,
}

impl View for MetaValue {
    type V = MetaValueView;

    open spec fn view(&self) -> MetaValueView {
        match self {
            MetaValue::Text(s) => MetaValueView::Text(s@),
            MetaValue::WorldOrigin(i) => MetaValueView::WorldOrigin(*i),
        }
    }
}

impl View for Meta {
    type V = MetaView;

    open spec fn view(&self) -> MetaView {
        MetaView { key: self.key@, value: self.value@ }
    }
}

/// A text row, as a spec value.
pub open spec fn text_row(key: Seq<char>, value: Seq<char>) -> MetaView {
    MetaView { key, value: MetaValueView::Text(value) }
}

pub open spec fn metas_view(m: Seq<Meta>) -> Seq<MetaView> {
    m.map_values(|x: Meta| x@)
}

/// A text row (`[key, value]`).
pub fn kv(key: &str, value: &str) -> (m: Meta)
    ensures
        m@ == text_row(key@, value@),
{
    Meta { key: key.to_string(), value: MetaValue::Text(value.to_string()) }
}

/// A node of the scene tree.
pub struct Node {
    pub id: u32,
    pub kind: NodeKind,
    pub label: String,
    pub meta: Vec<Meta>,
    pub children: Vec<Node>,
}

/// A leaf node.
pub fn leaf(id: u32, kind: NodeKind, label: String, meta: Vec<Meta>) -> (n: Node)
    ensures
        n.id == id,
        n.kind == kind,
        n.label@ == label@,
        n.meta@ == meta@,
        n.children@.len() == 0,
{
    Node { id, kind, label, meta, children: Vec::new() }
}

/// A top-level group: id `GROUP_ID`, no metadata.
pub fn group(label: &str, children: Vec<Node>) -> (n: Node)
    ensures
        n.id == GROUP_ID,
        n.kind == NodeKind::Group,
        n.label@ == label@,
        n.meta@.len() == 0,
        n.children@ == children@,
{
    Node { id: GROUP_ID, kind: NodeKind::Group, label: label.to_string(), meta: Vec::new(), children }
}

/// Where a placed instance sits: at the origin, or at the frame of `parent`
/// composed with the transform of occurrence `occurrence` of definition `def`.
#[derive(PartialEq, Eq, Structural, Clone, Copy, Debug)]
pub enum Frame {
    Origin,
    Placed { parent: usize, def: usize, occurrence: usize },
}

/// The geometry a rendered id stands for.
#[derive(PartialEq, Eq, Structural, Clone, Copy, Debug)]
pub enum GeomRequest {
    /// Edge `edge` sampled as a polyline in frame `frame`.
    Line { edge: usize, frame: usize },
    /// The point of vertex `vertex`, in frame `frame`.
    Point { vertex: usize, frame: usize },
    /// Display mesh `mesh`.
    Mesh { mesh: usize },
}

} // verus!
