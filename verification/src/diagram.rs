use std::collections::HashMap;

use vstd::prelude::*;
use vstd::utf8::{decode_utf8, encode_utf8, valid_utf8};

use crate::gather::stored_name;
use crate::numbers::{is_float_text, parse_u32, parse_u32_spec, parses_as_float};
use crate::text::{nice_string, str_chars, str_eq, to_nice_string};
use crate::types::{
    copy_opt_attrs, get_attr, lookup, opt_attrs, opt_text, Cell, CellView, ObjectAttributes,
    GeometryView, RectGeometry, VertexOrEdge,
};
use crate::xml::{
    attribute_view, tag_attributes, utf8_lossy, utf8_lossy_text, utf8_text, xml_attributes,
    xml_events, xml_unescape, xml_unescaped, XmlAttribute, XmlEvent, XmlEventReader, XmlEventView,
    XmlTag, XmlTagView,
};

verus! {

broadcast use vstd::std_specs::hash::group_hash_axioms;

/// Why a diagram could not be read.
#[derive(Debug, Clone, Copy, PartialEq, Eq, Structural)]
pub enum DiagramError {
    /// the XML itself is ill-formed (the reader's message: `xml_error_message`)
    XmlError,
    /// an `object` element opens inside another
    ObjectAlreadyOpen,
    /// an `mxCell` element opens inside another
    CellAlreadyOpen,
    /// the `id` of an `object` is no number
    ObjectIdNotNumber,
    /// the `id` of an `mxCell` is no number
    CellIdNotNumber,
    /// a cell has neither an `id` nor an enclosing `object` with one
    MissingCellId,
    /// a cell has an `id` and an enclosing `object` with one too
    ConflictingCellIds,
    /// the `source` of a cell is no number
    SourceNotNumber,
    /// the `target` of a cell is no number
    TargetNotNumber,
    /// the `parent` of a cell is no number
    ParentNotNumber,
    /// an empty `mxCell` element other than those with id 0 and 1
    UnexpectedEmptyCell,
    /// two cells with one id
    DuplicateCellId,
    /// an `mxGeometry` element outside a cell
    GeometryOutsideCell,
    /// the `width` of a geometry is missing or no number (as `str::parse::<f64>` reads one)
    BadGeometryWidth,
    /// the `height` of a geometry is missing or no number (as `str::parse::<f64>` reads one)
    BadGeometryHeight,
}

// ---------------------------------------------------------------------------
// Names and attributes
// ---------------------------------------------------------------------------
/// The name of an element start.
pub open spec fn tag_name(t: XmlTagView) -> Seq<u8> {
    t.content.take(t.name_len as int)
}

/// Whether the first `n` bytes are the UTF-8 encoding of `lit`.
fn prefix_is(b: &Vec<u8>, n: usize, lit: &str) -> (r: bool)
    requires
        n <= b.len(),
    ensures
        r == (b@.take(n as int) == encode_utf8(lit@)),
{
    let lb = lit.as_bytes();
    if n != lb.len() {
        assert(b@.take(n as int).len() != encode_utf8(lit@).len());
        return false;
    }
    for i in 0..n
        invariant
            n <= b@.len(),
            n == lb@.len(),
            lb@ == encode_utf8(lit@),
            forall|j: int| 0 <= j < i ==> b@[j] == lb@[j],
    {
        if b[i] != lb[i] {
            assert(b@.take(n as int)[i as int] != encode_utf8(lit@)[i as int]);
            return false;
        }
    }
    assert(b@.take(n as int) =~= encode_utf8(lit@));
    true
}

/// Whether some bytes are the UTF-8 encoding of `lit`.
fn bytes_are(b: &Vec<u8>, lit: &str) -> (r: bool)
    ensures
        r == (b@ == encode_utf8(lit@)),
{
    assert(b@.take(b.len() as int) =~= b@);
    prefix_is(b, b.len(), lit)
}

/// Whether the element start is named `lit`.
fn tag_is(t: &XmlTag, lit: &str) -> (r: bool)
    requires
        t.name_len <= t.content.len(),
    ensures
        r == (tag_name(t@) == encode_utf8(lit@)),
{
    prefix_is(&t.content, t.name_len, lit)
}

/// The raw value of the first well-formed attribute whose key is `key`.
pub open spec fn first_raw(attrs: Seq<Option<(Seq<u8>, Seq<u8>)>>, key: Seq<u8>) -> Option<
    Seq<u8>,
>
    decreases attrs.len(),
{
    if attrs.len() == 0 {
        None
    } else {
        match attrs[0] {
            Some((k, v)) => if k == key {
                Some(v)
            } else {
                first_raw(attrs.skip(1), key)
            },
            None => first_raw(attrs.skip(1), key),
        }
    }
}

/// The value of the attribute `key` of an element start, as text: that of its first
/// well-formed occurrence (keys compared as bytes with the UTF-8 encoding of `key`), where
/// it is valid UTF-8.
pub open spec fn attr_text(t: XmlTagView, key: Seq<char>) -> Option<Seq<char>> {
    match first_raw(xml_attributes(t.content, t.name_len), encode_utf8(key)) {
        Some(v) => if valid_utf8(v) {
            Some(decode_utf8(v))
        } else {
            None
        },
        None => None,
    }
}

/// The value of the attribute `key` of an element start, as text.
pub fn attr_value(e: &XmlTag, key: &str) -> (r: Option<String>)
    requires
        e.name_len <= e.content.len(),
    ensures
        opt_text(r) == attr_text(e@, key@),
{
    let attrs = tag_attributes(e);
    let ghost av = attrs@.map_values(|a: Option<XmlAttribute>| attribute_view(a));
    let ghost kb = encode_utf8(key@);
    assert(av.skip(0) =~= av);
    let mut i: usize = 0;
    while i < attrs.len()
        invariant
            i <= attrs.len(),
            av == attrs@.map_values(|a: Option<XmlAttribute>| attribute_view(a)),
            av == xml_attributes(e@.content, e@.name_len),
            kb == encode_utf8(key@),
            first_raw(av, kb) == first_raw(av.skip(i as int), kb),
        decreases attrs.len() - i,
    {
        assert(av.skip(i as int)[0] == attribute_view(attrs@[i as int]));
        assert(av.skip(i as int).skip(1) =~= av.skip(i + 1));
        match &attrs[i] {
            Some(a) => {
                if bytes_are(&a.key, key) {
                    return utf8_text(&a.value);
                }
            },
            None => {},
        }
        i = i + 1;
    }
    None
}

/// The value of an object attribute as its reader unescapes it: the raw value decoded as
/// UTF-8 and its references resolved; empty where either fails.
pub open spec fn unescaped_value(v: Seq<u8>) -> Seq<char> {
    if valid_utf8(v) {
        match xml_unescaped(decode_utf8(v)) {
            Some(u) => u,
            None => seq![],
        }
    } else {
        seq![]
    }
}

/// The entries of an `object` element: its well-formed attributes in order, each key as
/// (lossy) UTF-8 text and each value unescaped.
pub open spec fn object_entries(attrs: Seq<Option<(Seq<u8>, Seq<u8>)>>) -> Seq<
    (Seq<char>, Seq<char>),
>
    decreases attrs.len(),
{
    if attrs.len() == 0 {
        seq![]
    } else {
        let rest = object_entries(attrs.drop_last());
        match attrs.last() {
            Some((k, v)) => rest.push((utf8_lossy_text(k), unescaped_value(v))),
            None => rest,
        }
    }
}

/// The attributes of an `object` element start.
pub open spec fn object_attributes(t: XmlTagView) -> Seq<(Seq<char>, Seq<char>)> {
    object_entries(xml_attributes(t.content, t.name_len))
}

/// An attribute value unescaped (see `unescaped_value`).
fn unescape_value(raw: &Vec<u8>) -> (r: String)
    ensures
        r@ == unescaped_value(raw@),
{
    match utf8_text(raw) {
        Some(text) => match xml_unescape(text.as_str()) {
            Some(u) => u,
            None => String::new(),
        },
        None => String::new(),
    }
}

/// Reads the attributes of an `object` element.
pub fn object_of(e: &XmlTag) -> (r: ObjectAttributes)
    requires
        e.name_len <= e.content.len(),
    ensures
        r@ == object_attributes(e@),
{
    let attrs = tag_attributes(e);
    let ghost av = attrs@.map_values(|a: Option<XmlAttribute>| attribute_view(a));
    let mut entries: Vec<(String, String)> = Vec::new();
    assert(av.take(0) =~= Seq::<Option<(Seq<u8>, Seq<u8>)>>::empty());
    for i in 0..attrs.len()
        invariant
            av == attrs@.map_values(|a: Option<XmlAttribute>| attribute_view(a)),
            entries@.map_values(|p: (String, String)| (p.0@, p.1@)) == object_entries(
                av.take(i as int),
            ),
    {
        assert(av.take(i + 1).drop_last() =~= av.take(i as int));
        assert(av.take(i + 1).last() == attribute_view(attrs@[i as int]));
        match &attrs[i] {
            Some(a) => {
                let key = utf8_lossy(&a.key);
                let value = unescape_value(&a.value);
                let ghost before = entries@;
                entries.push((key, value));
                assert(entries@.map_values(|p: (String, String)| (p.0@, p.1@)) =~= before.map_values(
                    |p: (String, String)| (p.0@, p.1@),
                ).push((utf8_lossy_text(a.key@), unescaped_value(a.value@))));
            },
            None => {},
        }
    }
    assert(av.take(attrs.len() as int) =~= av);
    let r = ObjectAttributes { entries };
    r
}

// ---------------------------------------------------------------------------
// Geometry and cells
// ---------------------------------------------------------------------------
/// The text of the attribute `key`, where it is a number as `str::parse::<f64>` reads one.
pub open spec fn number_text(t: XmlTagView, key: Seq<char>) -> Option<Seq<char>> {
    match attr_text(t, key) {
        Some(s) => if is_float_text(s) {
            Some(s)
        } else {
            None
        },
        None => None,
    }
}

/// The geometry an `mxGeometry` element gives: the texts of its `x` and `y` where they are
/// numbers (otherwise `None`, which counts as zero); `width` and `height` must be numbers.
pub open spec fn geometry_spec(t: XmlTagView) -> Result<GeometryView, DiagramError> {
    match number_text(t, "width"@) {
        None => Err(DiagramError::BadGeometryWidth),
        Some(w) => match number_text(t, "height"@) {
            None => Err(DiagramError::BadGeometryHeight),
            Some(h) => Ok(
                GeometryView {
                    x: number_text(t, "x"@),
                    y: number_text(t, "y"@),
                    width: w,
                    height: h,
                },
            ),
        },
    }
}

/// A geometry result as plain values.
pub open spec fn geometry_result(r: Result<RectGeometry, DiagramError>) -> Result<
    GeometryView,
    DiagramError,
> {
    match r {
        Ok(g) => Ok(g@),
        Err(e) => Err(e),
    }
}

/// The text of the attribute `key`, where it is a number (see `number_text`).
fn number_text_of(e: &XmlTag, key: &str) -> (r: Option<String>)
    requires
        e.name_len <= e.content.len(),
    ensures
        opt_text(r) == number_text(e@, key@),
{
    match attr_value(e, key) {
        Some(s) => if parses_as_float(s.as_str()) {
            Some(s)
        } else {
            None
        },
        None => None,
    }
}

/// Reads an `mxGeometry` element.
pub fn parse_geometry(e: &XmlTag) -> (r: Result<RectGeometry, DiagramError>)
    requires
        e.name_len <= e.content.len(),
    ensures
        geometry_result(r) == geometry_spec(e@),
{
    let x = number_text_of(e, "x");
    let y = number_text_of(e, "y");
    let width = match number_text_of(e, "width") {
        Some(w) => w,
        None => {
            return Err(DiagramError::BadGeometryWidth);
        },
    };
    let height = match number_text_of(e, "height") {
        Some(h) => h,
        None => {
            return Err(DiagramError::BadGeometryHeight);
        },
    };
    Ok(RectGeometry { x, y, width, height })
}

/// The number an attribute gives: `Ok(None)` where it is missing, `err` where it is no
/// `u32`.
pub open spec fn number_attr(t: XmlTagView, key: Seq<char>, err: DiagramError) -> Result<
    Option<u32>,
    DiagramError,
> {
    match attr_text(t, key) {
        None => Ok(None),
        Some(s) => match parse_u32_spec(s) {
            Some(n) => Ok(Some(n)),
            None => Err(err),
        },
    }
}

/// Reads the number an attribute gives (see `number_attr`).
fn number_of(e: &XmlTag, key: &str, err: DiagramError) -> (r: Result<Option<u32>, DiagramError>)
    requires
        e.name_len <= e.content.len(),
    ensures
        r == number_attr(e@, key@, err),
{
    match attr_value(e, key) {
        None => Ok(None),
        Some(s) => match parse_u32(s.as_str()) {
            Some(n) => Ok(Some(n)),
            None => Err(err),
        },
    }
}

/// The id of a cell from its own `id` and that of its enclosing object: exactly one of the
/// two must be there.
pub open spec fn chosen_id(own: Option<u32>, fallback: Option<u32>) -> Result<u32, DiagramError> {
    match (own, fallback) {
        (None, None) => Err(DiagramError::MissingCellId),
        (Some(id), None) => Ok(id),
        (None, Some(id)) => Ok(id),
        (Some(_), Some(_)) => Err(DiagramError::ConflictingCellIds),
    }
}

/// Whether the attribute `key` is `"1"`.
pub open spec fn flag_set(t: XmlTagView, key: Seq<char>) -> bool {
    attr_text(t, key) == Some("1"@)
}

/// The kind of cell its `vertex` and `edge` flags make.
pub open spec fn cell_kind(vertex: bool, edge: bool) -> VertexOrEdge {
    if vertex {
        VertexOrEdge::Vertex
    } else if edge {
        VertexOrEdge::Edge
    } else {
        VertexOrEdge::Other
    }
}

/// The cell an `mxCell` element gives, without geometry and object; `fallback_id` is the id
/// of the enclosing object. Errors come in this order: the cell's `id`, the choice of id,
/// then `source`, `target`, `parent`.
pub open spec fn cell_spec(t: XmlTagView, fallback_id: Option<u32>) -> Result<
    CellView,
    DiagramError,
> {
    match number_attr(t, "id"@, DiagramError::CellIdNotNumber) {
        Err(e) => Err(e),
        Ok(own) => match chosen_id(own, fallback_id) {
            Err(e) => Err(e),
            Ok(id) => match number_attr(t, "source"@, DiagramError::SourceNotNumber) {
                Err(e) => Err(e),
                Ok(source_id) => match number_attr(t, "target"@, DiagramError::TargetNotNumber) {
                    Err(e) => Err(e),
                    Ok(target_id) => match number_attr(
                        t,
                        "parent"@,
                        DiagramError::ParentNotNumber,
                    ) {
                        Err(e) => Err(e),
                        Ok(parent_id) => {
                            let value = attr_text(t, "value"@);
                            Ok(
                                CellView {
                                    id,
                                    value,
                                    oneline_name: match value {
                                        Some(v) => Some(nice_string(Some(v))),
                                        None => None,
                                    },
                                    style: attr_text(t, "style"@),
                                    vertex_or_edge: cell_kind(
                                        flag_set(t, "vertex"@),
                                        flag_set(t, "edge"@),
                                    ),
                                    source_id,
                                    target_id,
                                    parent_id,
                                    geometry: None,
                                    object: None,
                                },
                            )
                        },
                    },
                },
            },
        },
    }
}

/// A cell result as plain values.
pub open spec fn cell_result(r: Result<Cell, DiagramError>) -> Result<CellView, DiagramError> {
    match r {
        Ok(c) => Ok(c@),
        Err(e) => Err(e),
    }
}

/// Whether the attribute `key` is `"1"`.
fn flag_of(e: &XmlTag, key: &str) -> (b: bool)
    requires
        e.name_len <= e.content.len(),
    ensures
        b == flag_set(e@, key@),
{
    proof {
        reveal_strlit("1");
    }
    match attr_value(e, key) {
        Some(v) => str_eq(v.as_str(), "1"),
        None => false,
    }
}

/// Reads an `mxCell` element; `fallback_id` is the id of the enclosing object, if any.
pub fn parse_cell(e: &XmlTag, fallback_id: Option<u32>) -> (r: Result<Cell, DiagramError>)
    requires
        e.name_len <= e.content.len(),
    ensures
        cell_result(r) == cell_spec(e@, fallback_id),
        r matches Ok(c) ==> {
            &&& opt_text(c.value) == attr_text(e@, "value"@)
            &&& opt_text(c.style) == attr_text(e@, "style"@)
            &&& opt_text(c.oneline_name) == match attr_text(e@, "value"@) {
                Some(v) => Some(nice_string(Some(v))),
                None => None,
            }
            &&& (c.vertex_or_edge == VertexOrEdge::Vertex) == (attr_text(e@, "vertex"@) == Some(
                "1"@,
            ))
            &&& (c.vertex_or_edge == VertexOrEdge::Edge) == (attr_text(e@, "vertex"@) != Some(
                "1"@,
            ) && attr_text(e@, "edge"@) == Some("1"@))
            &&& (attr_text(e@, "source"@) is None ==> c.source_id is None)
            &&& (attr_text(e@, "target"@) is None ==> c.target_id is None)
            &&& (attr_text(e@, "parent"@) is None ==> c.parent_id is None)
            &&& (c.source_id matches Some(n) ==> attr_text(e@, "source"@) matches Some(t)
                && parse_u32_spec(t) == Some(n))
            &&& (c.target_id matches Some(n) ==> attr_text(e@, "target"@) matches Some(t)
                && parse_u32_spec(t) == Some(n))
            &&& (c.parent_id matches Some(n) ==> attr_text(e@, "parent"@) matches Some(t)
                && parse_u32_spec(t) == Some(n))
            &&& (attr_text(e@, "id"@) is Some ==> fallback_id is None)
            &&& (fallback_id matches Some(f) ==> c.id == f)
            &&& (attr_text(e@, "id"@) is None ==> fallback_id is Some)
            &&& c.geometry is None
            &&& c.object is None
        },
{
    let vertex = flag_of(e, "vertex");
    let edge = flag_of(e, "edge");
    let maybe_id = match number_of(e, "id", DiagramError::CellIdNotNumber) {
        Ok(v) => v,
        Err(err) => {
            return Err(err);
        },
    };
    let id: u32 = match (maybe_id, fallback_id) {
        (None, None) => {
            return Err(DiagramError::MissingCellId);
        },
        (Some(id), None) => id,
        (None, Some(id)) => id,
        (Some(..), Some(..)) => {
            return Err(DiagramError::ConflictingCellIds);
        },
    };
    let value = attr_value(e, "value");
    let oneline_name = match &value {
        Some(v) => Some(to_nice_string(Some(v.as_str()))),
        None => None,
    };
    let style = attr_value(e, "style");
    let vertex_or_edge = match (vertex, edge) {
        (true, _) => VertexOrEdge::Vertex,
        (_, true) => VertexOrEdge::Edge,
        _ => VertexOrEdge::Other,
    };
    let source_id = match number_of(e, "source", DiagramError::SourceNotNumber) {
        Ok(v) => v,
        Err(err) => {
            return Err(err);
        },
    };
    let target_id = match number_of(e, "target", DiagramError::TargetNotNumber) {
        Ok(v) => v,
        Err(err) => {
            return Err(err);
        },
    };
    let parent_id = match number_of(e, "parent", DiagramError::ParentNotNumber) {
        Ok(v) => v,
        Err(err) => {
            return Err(err);
        },
    };
    Ok(
        Cell {
            id,
            value,
            oneline_name,
            style,
            vertex_or_edge,
            source_id,
            target_id,
            parent_id,
            geometry: None,
            object: None,
        },
    )
}

// ---------------------------------------------------------------------------
// Reading the events of a diagram
// ---------------------------------------------------------------------------
/// Where reading a diagram stands: the cells read so far, the cell whose element is open,
/// and the attributes of the open `object` element.
pub struct ParseState {
    pub cells: HashMap<u32, Cell>,
    pub current_cell: Option<Cell>,
    pub current_object: Option<ObjectAttributes>,
}

/// A reading state as plain values.
pub struct ParseStateView {
    pub cells: Map<u32, CellView>,
    pub current_cell: Option<CellView>,
    pub current_object: Option<Seq<(Seq<char>, Seq<char>)>>,
}

/// Cells as plain values.
pub open spec fn cells_view(m: Map<u32, Cell>) -> Map<u32, CellView> {
    m.map_values(|c: Cell| c@)
}

/// An optional cell as plain values.
pub open spec fn opt_cell(c: Option<Cell>) -> Option<CellView> {
    match c {
        Some(cell) => Some(cell@),
        None => None,
    }
}

impl View for ParseState {
    type V = ParseStateView;

    open spec fn view(&self) -> ParseStateView {
        ParseStateView {
            cells: cells_view(self.cells@),
            current_cell: opt_cell(self.current_cell),
            current_object: opt_attrs(self.current_object),
        }
    }
}

/// The state before the first event.
pub open spec fn initial_state() -> ParseStateView {
    ParseStateView { cells: Map::empty(), current_cell: None, current_object: None }
}

impl ParseState {
    /// The state before the first event.
    pub fn new() -> (s: ParseState)
        ensures
            s@ == initial_state(),
    {
        let s = ParseState { cells: HashMap::new(), current_cell: None, current_object: None };
        assert(s@.cells =~= Map::<u32, CellView>::empty());
        s
    }
}

/// The id that the open object gives a cell inside it: `Ok(None)` where there is no object
/// or it has no `id`.
pub open spec fn object_id(object: Option<Seq<(Seq<char>, Seq<char>)>>) -> Result<
    Option<u32>,
    DiagramError,
> {
    match object {
        None => Ok(None),
        Some(o) => match lookup(o, "id"@) {
            None => Ok(None),
            Some(s) => match parse_u32_spec(s) {
                Some(n) => Ok(Some(n)),
                None => Err(DiagramError::ObjectIdNotNumber),
            },
        },
    }
}

/// A cell given the attributes of the object around it.
pub open spec fn with_object(c: CellView, object: Option<Seq<(Seq<char>, Seq<char>)>>) -> CellView {
    CellView { object, ..c }
}

/// What one event does to the reading state, or the error it raises:
/// - `<object ...>` opens an object (one may not be open yet);
/// - `<mxCell ...>` opens a cell (one may not be open yet), with the open object's id and
///   attributes;
/// - `<mxCell .../>` adds a cell at once; only the cells with id 0 and 1 may be written so;
/// - `<mxGeometry .../>` sets the geometry of the open cell where it is a vertex; it may not
///   stand outside a cell;
/// - `</mxCell>` adds the open cell, if any; `</object>` closes the open object;
/// - ill-formed XML is an error; any other event changes nothing.
/// A cell id may be added once only.
#[verifier::opaque]
pub open spec fn event_step(st: ParseStateView, ev: XmlEventView) -> Result<
    ParseStateView,
    DiagramError,
> {
    match ev {
        XmlEventView::Start(t) => if tag_name(t) == encode_utf8("object"@) {
            if st.current_object is Some {
                Err(DiagramError::ObjectAlreadyOpen)
            } else {
                Ok(ParseStateView { current_object: Some(object_attributes(t)), ..st })
            }
        } else if tag_name(t) == encode_utf8("mxCell"@) {
            if st.current_cell is Some {
                Err(DiagramError::CellAlreadyOpen)
            } else {
                match object_id(st.current_object) {
                    Err(e) => Err(e),
                    Ok(fallback) => match cell_spec(t, fallback) {
                        Err(e) => Err(e),
                        Ok(c) => Ok(
                            ParseStateView {
                                current_cell: Some(with_object(c, st.current_object)),
                                ..st
                            },
                        ),
                    },
                }
            }
        } else {
            Ok(st)
        },
        XmlEventView::Empty(t) => if tag_name(t) == encode_utf8("mxCell"@) {
            match object_id(st.current_object) {
                Err(e) => Err(e),
                Ok(fallback) => match cell_spec(t, fallback) {
                    Err(e) => Err(e),
                    Ok(c) => if c.id != 0 && c.id != 1 {
                        Err(DiagramError::UnexpectedEmptyCell)
                    } else if st.cells.contains_key(c.id) {
                        Err(DiagramError::DuplicateCellId)
                    } else {
                        Ok(
                            ParseStateView {
                                cells: st.cells.insert(c.id, with_object(c, st.current_object)),
                                ..st
                            },
                        )
                    },
                },
            }
        } else if tag_name(t) == encode_utf8("mxGeometry"@) {
            match st.current_cell {
                None => Err(DiagramError::GeometryOutsideCell),
                Some(c) => if c.vertex_or_edge == VertexOrEdge::Vertex {
                    match geometry_spec(t) {
                        Err(e) => Err(e),
                        Ok(g) => Ok(
                            ParseStateView {
                                current_cell: Some(CellView { geometry: Some(g), ..c }),
                                ..st
                            },
                        ),
                    }
                } else {
                    Ok(st)
                },
            }
        } else {
            Ok(st)
        },
        XmlEventView::End(name) => if name == encode_utf8("mxCell"@) {
            match st.current_cell {
                Some(c) => if st.cells.contains_key(c.id) {
                    Err(DiagramError::DuplicateCellId)
                } else {
                    Ok(ParseStateView { cells: st.cells.insert(c.id, c), current_cell: None, ..st })
                },
                None => Ok(st),
            }
        } else if name == encode_utf8("object"@) {
            Ok(ParseStateView { current_object: None, ..st })
        } else {
            Ok(st)
        },
        XmlEventView::Error(_) => Err(DiagramError::XmlError),
        _ => Ok(st),
    }
}

/// Whether the element starts of an event name themselves within their content.
pub open spec fn event_is_well_formed(ev: XmlEventView) -> bool {
    match ev {
        XmlEventView::Start(t) => t.name_len <= t.content.len(),
        XmlEventView::Empty(t) => t.name_len <= t.content.len(),
        _ => true,
    }
}

/// Adds a cell under an id that is not taken yet.
fn insert_unique_cell(map: &mut HashMap<u32, Cell>, id: u32, cell: Cell)
    requires
        !old(map)@.contains_key(id),
    ensures
        final(map)@ == old(map)@.insert(id, cell),
{
    map.insert(id, cell);
}

/// The id the open object gives a cell inside it (see `object_id`).
fn object_id_of(object: &Option<ObjectAttributes>) -> (r: Result<Option<u32>, DiagramError>)
    ensures
        r == object_id(opt_attrs(*object)),
{
    match get_attr(object, "id") {
        None => Ok(None),
        Some(s) => match parse_u32(s.as_str()) {
            Some(n) => Ok(Some(n)),
            None => Err(DiagramError::ObjectIdNotNumber),
        },
    }
}

/// What an element start does (see `event_step`).
fn apply_start(state: &mut ParseState, e: &XmlTag) -> (r: Result<(), DiagramError>)
    requires
        e.name_len <= e.content.len(),
    ensures
        match event_step(old(state)@, XmlEventView::Start(e@)) {
            Ok(s) => r is Ok && final(state)@ == s,
            Err(err) => r == Err::<(), DiagramError>(err),
        },
{
    reveal(event_step);
    if tag_is(e, "object") {
        if state.current_object.is_some() {
            return Err(DiagramError::ObjectAlreadyOpen);
        }
        state.current_object = Some(object_of(e));
        Ok(())
    } else if tag_is(e, "mxCell") {
        if state.current_cell.is_some() {
            return Err(DiagramError::CellAlreadyOpen);
        }
        let fallback = match object_id_of(&state.current_object) {
            Ok(f) => f,
            Err(err) => {
                return Err(err);
            },
        };
        let mut cell = match parse_cell(e, fallback) {
            Ok(c) => c,
            Err(err) => {
                return Err(err);
            },
        };
        cell.object = copy_opt_attrs(&state.current_object);
        state.current_cell = Some(cell);
        Ok(())
    } else {
        Ok(())
    }
}

/// What an empty element does (see `event_step`).
fn apply_empty(state: &mut ParseState, e: &XmlTag) -> (r: Result<(), DiagramError>)
    requires
        e.name_len <= e.content.len(),
    ensures
        match event_step(old(state)@, XmlEventView::Empty(e@)) {
            Ok(s) => r is Ok && final(state)@ == s,
            Err(err) => r == Err::<(), DiagramError>(err),
        },
{
    reveal(event_step);
    if tag_is(e, "mxCell") {
        let fallback = match object_id_of(&state.current_object) {
            Ok(f) => f,
            Err(err) => {
                return Err(err);
            },
        };
        let mut cell = match parse_cell(e, fallback) {
            Ok(c) => c,
            Err(err) => {
                return Err(err);
            },
        };
        cell.object = copy_opt_attrs(&state.current_object);
        if cell.id != 0 && cell.id != 1 {
            return Err(DiagramError::UnexpectedEmptyCell);
        }
        let id = cell.id;
        if state.cells.contains_key(&id) {
            return Err(DiagramError::DuplicateCellId);
        }
        let ghost before = state.cells@;
        insert_unique_cell(&mut state.cells, id, cell);
        assert(cells_view(state.cells@) =~= cells_view(before).insert(id, cell@));
        Ok(())
    } else if tag_is(e, "mxGeometry") {
        set_geometry(state, e)
    } else {
        Ok(())
    }
}

/// What an `mxGeometry` element does (see `event_step`).
fn set_geometry(state: &mut ParseState, e: &XmlTag) -> (r: Result<(), DiagramError>)
    requires
        e.name_len <= e.content.len(),
    ensures
        match old(state)@.current_cell {
            None => r == Err::<(), DiagramError>(DiagramError::GeometryOutsideCell),
            Some(c) => if c.vertex_or_edge == VertexOrEdge::Vertex {
                match geometry_spec(e@) {
                    Err(err) => r == Err::<(), DiagramError>(err),
                    Ok(g) => r is Ok && final(state)@ == ParseStateView {
                        current_cell: Some(CellView { geometry: Some(g), ..c }),
                        ..old(state)@
                    },
                }
            } else {
                r is Ok && final(state)@ == old(state)@
            },
        },
{
    match state.current_cell.take() {
        Some(mut cell) => {
            if cell.vertex_or_edge == VertexOrEdge::Vertex {
                match parse_geometry(e) {
                    Ok(g) => {
                        cell.geometry = Some(g);
                    },
                    Err(err) => {
                        return Err(err);
                    },
                }
            }
            state.current_cell = Some(cell);
            Ok(())
        },
        None => Err(DiagramError::GeometryOutsideCell),
    }
}

/// What an element end does (see `event_step`).
fn apply_end(state: &mut ParseState, name: &Vec<u8>) -> (r: Result<(), DiagramError>)
    ensures
        match event_step(old(state)@, XmlEventView::End(name@)) {
            Ok(s) => r is Ok && final(state)@ == s,
            Err(err) => r == Err::<(), DiagramError>(err),
        },
{
    reveal(event_step);
    if bytes_are(name, "mxCell") {
        match state.current_cell.take() {
            Some(cell) => {
                let id = cell.id;
                if state.cells.contains_key(&id) {
                    return Err(DiagramError::DuplicateCellId);
                }
                let ghost before = state.cells@;
                insert_unique_cell(&mut state.cells, id, cell);
                assert(cells_view(state.cells@) =~= cells_view(before).insert(id, cell@));
                Ok(())
            },
            None => Ok(()),
        }
    } else if bytes_are(name, "object") {
        state.current_object = None;
        Ok(())
    } else {
        Ok(())
    }
}

/// Applies one event to the reading state (see `event_step`); on an error the state is left
/// in an unspecified condition and should be dropped.
pub fn apply_event(state: &mut ParseState, ev: &XmlEvent) -> (r: Result<(), DiagramError>)
    requires
        event_is_well_formed(ev@),
    ensures
        match event_step(old(state)@, ev@) {
            Ok(s) => r is Ok && final(state)@ == s,
            Err(e) => r == Err::<(), DiagramError>(e),
        },
        ev is Error ==> r is Err,
{
    reveal(event_step);
    match ev {
        XmlEvent::Start(e) => apply_start(state, e),
        XmlEvent::Empty(e) => apply_empty(state, e),
        XmlEvent::End(name) => apply_end(state, name),
        XmlEvent::Error(_) => Err(DiagramError::XmlError),
        _ => Ok(()),
    }
}

/// The cells that reading a sequence of events from state `st` gives: events are applied in
/// order until the end of input (or the sequence) is reached, and the first error stops it.
pub open spec fn run_events(events: Seq<XmlEventView>, st: ParseStateView) -> Result<
    Map<u32, CellView>,
    DiagramError,
>
    decreases events.len(),
{
    if events.len() == 0 {
        Ok(st.cells)
    } else if events[0] is Eof {
        Ok(st.cells)
    } else {
        match event_step(st, events[0]) {
            Err(e) => Err(e),
            Ok(next) => run_events(events.skip(1), next),
        }
    }
}

/// The cells of a diagram written in drawio's XML, or why they cannot be read.
pub open spec fn diagram_cells(xml: Seq<char>) -> Result<Map<u32, CellView>, DiagramError> {
    run_events(xml_events(xml), initial_state())
}

/// A result of reading cells, as plain values.
pub open spec fn cells_result(r: Result<HashMap<u32, Cell>, DiagramError>) -> Result<
    Map<u32, CellView>,
    DiagramError,
> {
    match r {
        Ok(m) => Ok(cells_view(m@)),
        Err(e) => Err(e),
    }
}

/// Reads the cells of a diagram written in drawio's (uncompressed) XML.
pub fn parse_diagram_cells(xml_str: &str) -> (r: Result<HashMap<u32, Cell>, DiagramError>)
    ensures
        cells_result(r) == diagram_cells(xml_str@),
        r matches Ok(m) ==> cells_are_consistent(cells_view(m@)),
        r matches Ok(m) ==> forall|id: u32|
            #[trigger] m@.contains_key(id) ==> exists|i: int|
                0 <= i < xml_events(xml_str@).len() && #[trigger] labels_cell(
                    xml_events(xml_str@)[i],
                    m@[id]@,
                ),
{
    let mut reader = XmlEventReader::new(xml_str);
    let mut state = ParseState::new();
    assert(xml_events(xml_str@).skip(0) =~= xml_events(xml_str@));
    loop
        invariant
            reader.input() == xml_str@,
            reader.read() < xml_events(xml_str@).len(),
            run_events(xml_events(xml_str@).skip(reader.read() as int), state@) == diagram_cells(
                xml_str@,
            ),
        decreases xml_events(xml_str@).len() - reader.read(),
    {
        let ghost k = reader.read();
        let ghost events = xml_events(xml_str@);
        let ev = reader.next_event();
        assert(events.skip(k as int)[0] == ev@);
        assert(events.skip(k as int).skip(1) =~= events.skip(k as int + 1));
        if let XmlEvent::Eof = ev {
            proof {
                lemma_diagram_cells_consistent(xml_str@);
                lemma_cells_keep_their_labels(xml_str@);
                assert forall|id: u32| #[trigger] state.cells@.contains_key(id) implies exists|
                    i: int,
                |
                    0 <= i < xml_events(xml_str@).len() && #[trigger] labels_cell(
                        xml_events(xml_str@)[i],
                        state.cells@[id]@,
                    ) by {
                    assert(cells_view(state.cells@).contains_key(id));
                    assert(cells_view(state.cells@)[id] == state.cells@[id]@);
                }
            }
            return Ok(state.cells);
        }
        match apply_event(&mut state, &ev) {
            Ok(()) => {},
            Err(e) => {
                return Err(e);
            },
        }
    }
}

/// The reader's message where reading `xml_str` ends in an error rather than at the end of
/// the input (the last of `xml_events`); `None` where it reaches the end of the input.
pub fn xml_error_message(xml_str: &str) -> (r: Option<String>)
    ensures
        match xml_events(xml_str@).last() {
            XmlEventView::Error(m) => r matches Some(s) && s@ == m,
            _ => r is None,
        },
{
    let mut reader = XmlEventReader::new(xml_str);
    loop
        invariant
            reader.input() == xml_str@,
            reader.read() < xml_events(xml_str@).len(),
        decreases xml_events(xml_str@).len() - reader.read(),
    {
        let ev = reader.next_event();
        match ev {
            XmlEvent::Eof => {
                return None;
            },
            XmlEvent::Error(m) => {
                return Some(m);
            },
            _ => {},
        }
    }
}

// ---------------------------------------------------------------------------
// Laws
// ---------------------------------------------------------------------------
/// A cell as its element describes it: only a vertex has a geometry, and its one-line name
/// is the name of its label.
pub open spec fn cell_is_consistent(c: CellView) -> bool {
    &&& c.geometry is Some ==> c.vertex_or_edge == VertexOrEdge::Vertex
    &&& c.oneline_name == match c.value {
        Some(v) => Some(nice_string(Some(v))),
        None => None,
    }
}

/// Cells, each under its own id and as its element describes it.
pub open spec fn cells_are_consistent(m: Map<u32, CellView>) -> bool {
    forall|id: u32| #[trigger] m.contains_key(id) ==> m[id].id == id && cell_is_consistent(m[id])
}

/// A reading state whose cells, the open one included, are consistent.
pub open spec fn state_is_consistent(st: ParseStateView) -> bool {
    &&& cells_are_consistent(st.cells)
    &&& st.current_cell matches Some(c) ==> cell_is_consistent(c)
}

/// Every event keeps the reading state consistent.
pub proof fn lemma_event_keeps_consistency(st: ParseStateView, ev: XmlEventView)
    requires
        state_is_consistent(st),
    ensures
        event_step(st, ev) matches Ok(next) ==> state_is_consistent(next),
{
    reveal(event_step);
    match event_step(st, ev) {
        Ok(next) => {
            assert forall|id: u32| #[trigger] next.cells.contains_key(id) implies next.cells[id].id
                == id && cell_is_consistent(next.cells[id]) by {
                if st.cells.contains_key(id) && next.cells[id] == st.cells[id] {
                } else {
                }
            }
        },
        Err(_) => {},
    }
}

proof fn lemma_run_consistent(events: Seq<XmlEventView>, st: ParseStateView)
    requires
        state_is_consistent(st),
    ensures
        run_events(events, st) matches Ok(m) ==> cells_are_consistent(m),
    decreases events.len(),
{
    if events.len() > 0 && !(events[0] is Eof) {
        lemma_event_keeps_consistency(st, events[0]);
        match event_step(st, events[0]) {
            Ok(next) => lemma_run_consistent(events.skip(1), next),
            Err(_) => {},
        }
    }
}

/// The cells read from any diagram are consistent: each is stored under its own id, only
/// vertices have a geometry, and each one-line name is the name of the cell's label.
pub proof fn lemma_diagram_cells_consistent(xml: Seq<char>)
    ensures
        diagram_cells(xml) matches Ok(m) ==> cells_are_consistent(m),
{
    lemma_run_consistent(xml_events(xml), initial_state());
}

/// Every cell read from a diagram names itself alike both ways: the stored one-line name that
/// sensors and actors take (or "Unnamed") is the name of the cell's label that boards,
/// connectors and interconnects take.
pub proof fn lemma_stored_names_are_label_names(cells: Map<u32, Cell>)
    requires
        cells_are_consistent(cells_view(cells)),
    ensures
        forall|id: u32|
            #[trigger] cells.contains_key(id) ==> stored_name(cells[id]) == nice_string(
                opt_text(cells[id].value),
            ),
{
    assert forall|id: u32| #[trigger] cells.contains_key(id) implies stored_name(cells[id])
        == nice_string(opt_text(cells[id].value)) by {
        assert(cells_view(cells).contains_key(id));
        assert(cell_is_consistent(cells[id]@));
    }
}

/// Whether an event is the start (or empty element) of an `mxCell` that carries the label
/// and style of the cell `c`.
pub open spec fn labels_cell(ev: XmlEventView, c: CellView) -> bool {
    match ev {
        XmlEventView::Start(t) => tag_name(t) == encode_utf8("mxCell"@) && c.value == attr_text(
            t,
            "value"@,
        ) && c.style == attr_text(t, "style"@),
        XmlEventView::Empty(t) => tag_name(t) == encode_utf8("mxCell"@) && c.value == attr_text(
            t,
            "value"@,
        ) && c.style == attr_text(t, "style"@),
        _ => false,
    }
}

/// Whether one of the first `n` events is an `mxCell` element that labels the cell `c`.
pub open spec fn labelled_within(events: Seq<XmlEventView>, n: int, c: CellView) -> bool {
    exists|i: int| 0 <= i < n && #[trigger] labels_cell(events[i], c)
}

proof fn lemma_run_labels(all: Seq<XmlEventView>, k: int, st: ParseStateView)
    requires
        0 <= k <= all.len(),
        forall|id: u32| #[trigger] st.cells.contains_key(id) ==> labelled_within(all, k, st.cells[id]),
        st.current_cell matches Some(c) ==> labelled_within(all, k, c),
    ensures
        run_events(all.skip(k), st) matches Ok(m) ==> forall|id: u32|
            #[trigger] m.contains_key(id) ==> labelled_within(all, all.len() as int, m[id]),
    decreases all.len() - k,
{
    let rest = all.skip(k);
    assert forall|id: u32| #[trigger] st.cells.contains_key(id) implies labelled_within(
        all,
        all.len() as int,
        st.cells[id],
    ) by {
        let i = choose|i: int| 0 <= i < k && #[trigger] labels_cell(all[i], st.cells[id]);
        assert(labels_cell(all[i], st.cells[id]));
    }
    if rest.len() > 0 && !(rest[0] is Eof) {
        let ev = all[k];
        assert(rest[0] == ev);
        match event_step(st, ev) {
            Ok(next) => {
                reveal(event_step);
                assert(rest.skip(1) =~= all.skip(k + 1));
                assert forall|id: u32| #[trigger] next.cells.contains_key(id) implies labelled_within(
                    all,
                    k + 1,
                    next.cells[id],
                ) by {
                    if st.cells.contains_key(id) && next.cells[id] == st.cells[id] {
                        let i = choose|i: int| 0 <= i < k && #[trigger] labels_cell(all[i], st.cells[id]);
                        assert(labels_cell(all[i], next.cells[id]));
                    } else if labels_cell(ev, next.cells[id]) {
                        assert(labels_cell(all[k], next.cells[id]));
                    } else {
                        let c = st.current_cell.unwrap();
                        assert(next.cells[id] == c);
                        let i = choose|i: int| 0 <= i < k && #[trigger] labels_cell(all[i], c);
                        assert(labels_cell(all[i], next.cells[id]));
                    }
                }
                if next.current_cell is Some {
                    let c = next.current_cell.unwrap();
                    if labels_cell(ev, c) {
                        assert(labels_cell(all[k], c));
                    } else {
                        let old_c = st.current_cell.unwrap();
                        assert(c.value == old_c.value && c.style == old_c.style);
                        let i = choose|i: int| 0 <= i < k && #[trigger] labels_cell(all[i], old_c);
                        assert(labels_cell(all[i], c));
                    }
                }
                lemma_run_labels(all, k + 1, next);
            },
            Err(_) => {},
        }
    }
}

/// Every cell read from a diagram carries the label (`value`) and style of an `mxCell`
/// element of the diagram, whatever its vertex and edge flags.
pub proof fn lemma_cells_keep_their_labels(xml: Seq<char>)
    ensures
        diagram_cells(xml) matches Ok(m) ==> forall|id: u32|
            #[trigger] m.contains_key(id) ==> exists|i: int|
                0 <= i < xml_events(xml).len() && #[trigger] labels_cell(xml_events(xml)[i], m[id]),
{
    assert(xml_events(xml).skip(0) =~= xml_events(xml));
    lemma_run_labels(xml_events(xml), 0, initial_state());
}

} // verus!
