use std::collections::{HashMap, HashSet};

use vstd::prelude::*;

use crate::text::{chars_eq, str_chars};

verus! {

/// The position and size of a shape, relative to its parent, as its `mxGeometry` element
/// writes them: the texts of `x` and `y` (`None` where missing or no number, which counts as
/// zero) and of `width` and `height`. Every text held is a number as `str::parse::<f64>`
/// reads it (see `numbers::is_float_text`); the arithmetic on them is left to the caller.
#[derive(Debug, Clone)]
pub struct RectGeometry {
    pub x: Option<String>,
    pub y: Option<String>,
    pub width: String,
    pub height: String,
}

/// A geometry as plain values.
pub struct GeometryView {
    pub x: Option<Seq<char>>,
    pub y: Option<Seq<char>>,
    pub width: Seq<char>,
    pub height: Seq<char>,
}

impl View for RectGeometry {
    type V = GeometryView;

    open spec fn view(&self) -> GeometryView {
        GeometryView {
            x: opt_text(self.x),
            y: opt_text(self.y),
            width: self.width@,
            height: self.height@,
        }
    }
}

/// An optional geometry as plain values.
pub open spec fn opt_geometry(g: Option<RectGeometry>) -> Option<GeometryView> {
    match g {
        Some(r) => Some(r@),
        None => None,
    }
}

/// A copy of a geometry.
pub fn copy_geometry(g: &RectGeometry) -> (r: RectGeometry)
    ensures
        r@ == g@,
{
    RectGeometry {
        x: copy_opt_string(&g.x),
        y: copy_opt_string(&g.y),
        width: copy_string(&g.width),
        height: copy_string(&g.height),
    }
}

/// What the floating-point geometry of a diagram says of its cells, worked out by the caller
/// from the texts of their geometries: for each cell with a geometry, the ids of the sections
/// whose rectangle overlaps its own; and for each shape, a key that orders the areas, zero
/// where the area is not positive (or no number), otherwise growing with the area and equal
/// for equal areas. A cell missing from either map counts as lying in no section and as
/// having no positive area.
pub struct Layout {
    pub sections_of: HashMap<u32, HashSet<u32>>,
    pub area_keys: HashMap<u32, u64>,
}

/// The sections that the layout places a cell in.
pub open spec fn placed_in(layout: Layout, id: u32) -> Set<u32> {
    if layout.sections_of@.contains_key(id) {
        layout.sections_of@[id]@
    } else {
        Set::empty()
    }
}

/// The area key that the layout gives a cell.
pub open spec fn area_key(layout: Layout, id: u32) -> nat {
    if layout.area_keys@.contains_key(id) {
        layout.area_keys@[id] as nat
    } else {
        0
    }
}

/// What a drawio cell is: a shape, a connecting line, or neither.
#[derive(Debug, Clone, Copy, PartialEq, Eq, Structural, PartialOrd)]
pub enum VertexOrEdge {
    Vertex,
    Edge,
    Other,
}

/// The attributes of a drawio `object` element, which carries the key-value properties of
/// the cell inside it (e.g. `section_marker="recovery" id="2"`), in the order they were read.
/// A key read twice keeps its later value.
#[derive(Debug, Clone)]
pub struct ObjectAttributes {
    pub entries: Vec<(String, String)>,
}

/// The value that the last entry with the given key holds.
pub open spec fn lookup(entries: Seq<(Seq<char>, Seq<char>)>, key: Seq<char>) -> Option<
    Seq<char>,
>
    decreases entries.len(),
{
    if entries.len() == 0 {
        None
    } else if entries.last().0 == key {
        Some(entries.last().1)
    } else {
        lookup(entries.drop_last(), key)
    }
}

impl View for ObjectAttributes {
    type V = Seq<(Seq<char>, Seq<char>)>;

    open spec fn view(&self) -> Seq<(Seq<char>, Seq<char>)> {
        self.entries@.map_values(|e: (String, String)| (e.0@, e.1@))
    }
}

/// The text of an optional string.
pub open spec fn opt_text(s: Option<String>) -> Option<Seq<char>> {
    match s {
        Some(t) => Some(t@),
        None => None,
    }
}

/// The text of an optional string slice.
pub open spec fn opt_str_text(s: Option<&str>) -> Option<Seq<char>> {
    match s {
        Some(t) => Some(t@),
        None => None,
    }
}

/// An optional string, borrowed as a string slice.
pub fn as_opt_str(s: &Option<String>) -> (r: Option<&str>)
    ensures
        opt_str_text(r) == opt_text(*s),
{
    match s {
        Some(t) => Some(t.as_str()),
        None => None,
    }
}

/// A copy of an optional string.
pub fn copy_opt_string(s: &Option<String>) -> (r: Option<String>)
    ensures
        opt_text(r) == opt_text(*s),
{
    match s {
        Some(t) => Some(t.clone()),
        None => None,
    }
}

/// A copy of a string.
pub fn copy_string(s: &String) -> (r: String)
    ensures
        r@ == s@,
{
    s.clone()
}

impl ObjectAttributes {
    /// The value of the attribute `key`: that of its last entry.
    pub fn get(&self, key: &str) -> (r: Option<&String>)
        ensures
            opt_text(
                match r {
                    Some(v) => Some(*v),
                    None => None,
                },
            ) == lookup(self@, key@),
    {
        let k = str_chars(key);
        let mut i = self.entries.len();
        assert(self@.take(i as int) =~= self@);
        while i > 0
            invariant
                i <= self.entries.len(),
                k@ == key@,
                lookup(self@, key@) == lookup(self@.take(i as int), key@),
            decreases i,
        {
            let ek = str_chars(self.entries[i - 1].0.as_str());
            let ghost prefix = self@.take(i as int);
            assert(prefix.last() == (self.entries@[i - 1].0@, self.entries@[i - 1].1@));
            assert(prefix.drop_last() =~= self@.take(i - 1));
            if chars_eq(&ek, &k) {
                return Some(&self.entries[i - 1].1);
            }
            i = i - 1;
        }
        assert(self@.take(0) =~= Seq::<(Seq<char>, Seq<char>)>::empty());
        None
    }

    /// A copy of the attributes.
    pub fn copy(&self) -> (r: ObjectAttributes)
        ensures
            r@ == self@,
    {
        let mut entries: Vec<(String, String)> = Vec::new();
        for i in 0..self.entries.len()
            invariant
                entries@.len() == i,
                forall|j: int|
                    0 <= j < i ==> (#[trigger] entries@[j]).0@ == self.entries@[j].0@
                        && entries@[j].1@ == self.entries@[j].1@,
        {
            let (k, v) = &self.entries[i];
            entries.push((k.clone(), v.clone()));
        }
        let r = ObjectAttributes { entries };
        assert(r@ =~= self@);
        r
    }
}

/// The attributes of an optional `object` element.
pub open spec fn opt_attrs(o: Option<ObjectAttributes>) -> Option<Seq<(Seq<char>, Seq<char>)>> {
    match o {
        Some(a) => Some(a@),
        None => None,
    }
}

/// The value of `key` among optional attributes.
pub open spec fn attr_of(o: Option<ObjectAttributes>, key: Seq<char>) -> Option<Seq<char>> {
    match o {
        Some(a) => lookup(a@, key),
        None => None,
    }
}

/// A copy of optional attributes.
pub fn copy_opt_attrs(o: &Option<ObjectAttributes>) -> (r: Option<ObjectAttributes>)
    ensures
        opt_attrs(r) == opt_attrs(*o),
{
    match o {
        Some(a) => Some(a.copy()),
        None => None,
    }
}

/// The value of `key` among optional attributes.
pub fn get_attr<'a>(o: &'a Option<ObjectAttributes>, key: &str) -> (r: Option<&'a String>)
    ensures
        opt_text(
            match r {
                Some(v) => Some(*v),
                None => None,
            },
        ) == attr_of(*o, key@),
{
    match o {
        Some(a) => a.get(key),
        None => None,
    }
}

/// One `mxCell` element of the diagram.
#[derive(Debug, Clone)]
pub struct Cell {
    /// unique id of the drawio element
    pub id: u32,
    /// html that renders to the text visible in drawio
    pub value: Option<String>,
    pub oneline_name: Option<String>,
    pub style: Option<String>,
    pub vertex_or_edge: VertexOrEdge,
    /// an edge connects to the cell with source_id
    pub source_id: Option<u32>,
    /// an edge connects to the cell with target_id
    pub target_id: Option<u32>,
    pub parent_id: Option<u32>,
    pub geometry: Option<RectGeometry>,
    /// attributes of the surrounding object element
    pub object: Option<ObjectAttributes>,
}

/// A cell as plain values.
pub struct CellView {
    pub id: u32,
    pub value: Option<Seq<char>>,
    pub oneline_name: Option<Seq<char>>,
    pub style: Option<Seq<char>>,
    pub vertex_or_edge: VertexOrEdge,
    pub source_id: Option<u32>,
    pub target_id: Option<u32>,
    pub parent_id: Option<u32>,
    pub geometry: Option<GeometryView>,
    pub object: Option<Seq<(Seq<char>, Seq<char>)>>,
}

impl View for Cell {
    type V = CellView;

    open spec fn view(&self) -> CellView {
        CellView {
            id: self.id,
            value: opt_text(self.value),
            oneline_name: opt_text(self.oneline_name),
            style: opt_text(self.style),
            vertex_or_edge: self.vertex_or_edge,
            source_id: self.source_id,
            target_id: self.target_id,
            parent_id: self.parent_id,
            geometry: opt_geometry(self.geometry),
            object: opt_attrs(self.object),
        }
    }
}

/// The value of `key` on the object of a cell.
pub open spec fn cell_attr(c: Cell, key: Seq<char>) -> Option<Seq<char>> {
    attr_of(c.object, key)
}

/// A board: a group whose largest shape is the board itself and whose other shapes are its
/// connectors.
#[derive(Debug)]
pub struct Board {
    /// unique id of the drawio element that draws the board
    pub main_cell_id: Option<u32>,
    /// visible text without line breaks
    pub oneline_name: String,
    /// ids of the connector cells
    pub connectors_id: HashSet<u32>,
    pub in_sections: HashSet<u32>,
}

/// A section of the diagram, marked by a shape with the property `section_marker`.
pub struct Section {
    /// unique id of the drawio element
    pub id: u32,
    pub name: String,
    pub geom: RectGeometry,
}

/// A connector on a board.
pub struct Connector {
    /// unique id of the drawio element
    pub id: u32,
    /// visible text without line breaks
    pub oneline_name: String,
    pub kind: Option<String>,
    pub board_id: u32,
}

/// A wire: an edge that connects two parts.
pub struct Harness {
    /// unique id of the drawio element
    pub id: u32,
    /// length in mm
    pub length: Option<u32>,
    /// harness_kind
    pub kind: Option<String>,
}

/// A single rectangle connecting harnesses.
pub struct Interconnect {
    /// unique id of the drawio element
    pub id: u32,
    /// visible text without line breaks
    pub oneline_name: String,
    pub in_sections: HashSet<u32>,
}

/// A sensor.
pub struct Sensor {
    /// unique id of the drawio element
    pub id: u32,
    /// visible text without line breaks
    pub oneline_name: String,
    pub in_section: HashSet<u32>,
}

/// An actor.
pub struct Actor {
    /// unique id of the drawio element
    pub id: u32,
    /// visible text without line breaks
    pub oneline_name: String,
    pub in_section: HashSet<u32>,
}

} // verus!
