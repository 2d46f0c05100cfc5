use drawio_parser::diagram::{
    apply_event, attr_value, object_of, parse_cell, parse_diagram_cells, parse_geometry,
    xml_error_message, DiagramError, ParseState,
};
use drawio_parser::types::{RectGeometry, VertexOrEdge};
use drawio_parser::xml::{XmlEvent, XmlTag};

const SAMPLE: &str = r#"<mxfile host="app.diagrams.net">
  <diagram id="d" name="Page-1">
    <mxGraphModel dx="1000" dy="800">
      <root>
        <mxCell id="0" />
        <mxCell id="1" parent="0" />
        <object label="" section_marker="recovery" id="2">
          <mxCell style="rounded=0;" vertex="1" parent="1">
            <mxGeometry x="0" y="0" width="1000" height="1000" as="geometry" />
          </mxCell>
        </object>
        <object label="" board_group="1" id="10">
          <mxCell style="group" vertex="1" connectable="0" parent="1">
            <mxGeometry x="100" y="100" width="200" height="100" as="geometry" />
          </mxCell>
        </object>
        <mxCell id="11" value="Main&lt;br&gt;Board" style="rounded=0;" vertex="1" parent="10">
          <mxGeometry width="200" height="100" as="geometry" />
        </mxCell>
        <object label="" connector_kind="JST" id="12">
          <mxCell value="J1" style="rounded=0;" vertex="1" parent="10">
            <mxGeometry x="10" y="10" width="20" height="10" as="geometry" />
          </mxCell>
        </object>
        <object label="" type="sensor" id="20">
          <mxCell value="Temp&amp;nbsp;Sensor" style="ellipse;" vertex="1" parent="1">
            <mxGeometry x="400" y="400" width="50" height="50" as="geometry" />
          </mxCell>
        </object>
        <object label="" type="interconnect" id="30">
          <mxCell value="IC" vertex="1" parent="1">
            <mxGeometry x="600.5" y="100" width="40" height="40" as="geometry" />
          </mxCell>
        </object>
        <object label="" type="actor" id="40">
          <mxCell value="Pump" vertex="1" parent="1">
            <mxGeometry x="1500" y="1500" width="40" height="40" as="geometry" />
          </mxCell>
        </object>
        <object label="" harness_kind="CAN" length="250" id="50">
          <mxCell style="endArrow=none;" edge="1" parent="1" source="12" target="20">
            <mxGeometry relative="1" as="geometry" />
          </mxCell>
        </object>
        <mxCell id="51" edge="1" parent="1" source="30" target="20">
          <mxGeometry relative="1" as="geometry">
            <mxPoint x="1" y="2" as="sourcePoint" />
          </mxGeometry>
        </mxCell>
        <mxCell id="52" edge="1" parent="1" source="12" target="30">
          <mxGeometry relative="1" as="geometry" />
        </mxCell>
        <mxCell id="60" edge="1" parent="1" source="12">
          <mxGeometry relative="1" as="geometry" />
        </mxCell>
      </root>
    </mxGraphModel>
  </diagram>
</mxfile>
"#;

fn texts(g: &RectGeometry) -> (Option<&str>, Option<&str>, &str, &str) {
    (g.x.as_deref(), g.y.as_deref(), g.width.as_str(), g.height.as_str())
}

fn tag(content: &str, name_len: usize) -> XmlTag {
    XmlTag { content: content.as_bytes().to_vec(), name_len }
}

fn err_of(xml: &str) -> DiagramError {
    match parse_diagram_cells(xml) {
        Ok(_) => panic!("expected an error for {xml:?}"),
        Err(e) => e,
    }
}

#[test]
fn sample_diagram_has_all_cells() {
    let cells = parse_diagram_cells(SAMPLE).unwrap();
    let mut ids: Vec<u32> = cells.keys().copied().collect();
    ids.sort();
    assert_eq!(ids, vec![0, 1, 2, 10, 11, 12, 20, 30, 40, 50, 51, 52, 60]);
    for (id, cell) in &cells {
        assert_eq!(cell.id, *id);
    }
}

#[test]
fn sample_cells_carry_their_attributes() {
    let cells = parse_diagram_cells(SAMPLE).unwrap();

    let main = &cells[&11];
    assert_eq!(main.value.as_deref(), Some("Main&lt;br&gt;Board"));
    assert_eq!(main.oneline_name.as_deref(), Some("Main Board"));
    assert_eq!(main.vertex_or_edge, VertexOrEdge::Vertex);
    assert_eq!(main.parent_id, Some(10));
    assert_eq!(texts(main.geometry.as_ref().unwrap()), (None, None, "200", "100"));
    assert!(main.object.is_none());

    let group = &cells[&10];
    assert_eq!(group.style.as_deref(), Some("group"));
    let obj = group.object.as_ref().unwrap();
    assert_eq!(obj.get("board_group").map(|s| s.as_str()), Some("1"));
    assert_eq!(obj.get("id").map(|s| s.as_str()), Some("10"));

    let sensor = &cells[&20];
    assert_eq!(sensor.oneline_name.as_deref(), Some("Temp Sensor"));

    let ic = &cells[&30];
    assert_eq!(ic.geometry.as_ref().unwrap().x.as_deref(), Some("600.5"));

    let wire = &cells[&50];
    assert_eq!(wire.vertex_or_edge, VertexOrEdge::Edge);
    assert_eq!(wire.source_id, Some(12));
    assert_eq!(wire.target_id, Some(20));
    assert!(wire.geometry.is_none());
    assert_eq!(
        wire.object.as_ref().unwrap().get("length").map(|s| s.as_str()),
        Some("250")
    );

    let root = &cells[&0];
    assert_eq!(root.vertex_or_edge, VertexOrEdge::Other);
    assert_eq!(root.value, None);
    assert_eq!(root.oneline_name, None);
    assert_eq!(cells[&1].parent_id, Some(0));
}

#[test]
fn cells_read_are_consistent() {
    let cells = parse_diagram_cells(SAMPLE).unwrap();
    for cell in cells.values() {
        if cell.geometry.is_some() {
            assert_eq!(cell.vertex_or_edge, VertexOrEdge::Vertex);
        }
        match &cell.value {
            Some(v) => assert_eq!(
                cell.oneline_name.as_deref(),
                Some(drawio_parser::text::to_nice_string(Some(v.as_str())).as_str())
            ),
            None => assert!(cell.oneline_name.is_none()),
        }
    }
}

#[test]
fn empty_input_has_no_cells() {
    assert!(parse_diagram_cells("").unwrap().is_empty());
    assert!(parse_diagram_cells("<root></root>").unwrap().is_empty());
}

#[test]
fn ill_formed_xml_is_an_error() {
    assert_eq!(err_of("<root></wrong>"), DiagramError::XmlError);
}

#[test]
fn nested_objects_are_an_error() {
    assert_eq!(
        err_of(r#"<object id="2"><object id="3"></object></object>"#),
        DiagramError::ObjectAlreadyOpen
    );
}

#[test]
fn nested_cells_are_an_error() {
    assert_eq!(
        err_of(r#"<mxCell id="2"><mxCell id="3"></mxCell></mxCell>"#),
        DiagramError::CellAlreadyOpen
    );
}

#[test]
fn object_id_must_be_a_number() {
    assert_eq!(
        err_of(r#"<object id="x"><mxCell vertex="1"></mxCell></object>"#),
        DiagramError::ObjectIdNotNumber
    );
    assert_eq!(
        err_of(r#"<object id="x"><mxCell vertex="1"/></object>"#),
        DiagramError::ObjectIdNotNumber
    );
}

#[test]
fn cell_id_errors() {
    assert_eq!(err_of(r#"<mxCell id="abc"></mxCell>"#), DiagramError::CellIdNotNumber);
    assert_eq!(err_of(r#"<mxCell id="-3"></mxCell>"#), DiagramError::CellIdNotNumber);
    assert_eq!(err_of(r#"<mxCell vertex="1"></mxCell>"#), DiagramError::MissingCellId);
    assert_eq!(
        err_of(r#"<object id="5"><mxCell id="6"></mxCell></object>"#),
        DiagramError::ConflictingCellIds
    );
}

#[test]
fn link_ids_must_be_numbers() {
    assert_eq!(err_of(r#"<mxCell id="5" source="a"></mxCell>"#), DiagramError::SourceNotNumber);
    assert_eq!(err_of(r#"<mxCell id="5" target="b"></mxCell>"#), DiagramError::TargetNotNumber);
    assert_eq!(err_of(r#"<mxCell id="5" parent=""></mxCell>"#), DiagramError::ParentNotNumber);
}

#[test]
fn only_root_cells_may_be_empty() {
    assert_eq!(err_of(r#"<mxCell id="5"/>"#), DiagramError::UnexpectedEmptyCell);
    let cells = parse_diagram_cells(r#"<mxCell id="0"/><mxCell id="1" parent="0"/>"#).unwrap();
    assert_eq!(cells.len(), 2);
}

#[test]
fn duplicate_ids_are_an_error() {
    assert_eq!(err_of(r#"<mxCell id="0"/><mxCell id="0"/>"#), DiagramError::DuplicateCellId);
    assert_eq!(
        err_of(r#"<mxCell id="7"></mxCell><mxCell id="7"></mxCell>"#),
        DiagramError::DuplicateCellId
    );
    assert_eq!(
        err_of(r#"<mxCell id="1"/><object id="1"><mxCell></mxCell></object>"#),
        DiagramError::DuplicateCellId
    );
}

#[test]
fn geometry_errors() {
    assert_eq!(err_of(r#"<mxGeometry width="1" height="1"/>"#), DiagramError::GeometryOutsideCell);
    assert_eq!(
        err_of(r#"<mxCell id="5" vertex="1"><mxGeometry height="1"/></mxCell>"#),
        DiagramError::BadGeometryWidth
    );
    assert_eq!(
        err_of(r#"<mxCell id="5" vertex="1"><mxGeometry width="abc" height="1"/></mxCell>"#),
        DiagramError::BadGeometryWidth
    );
    assert_eq!(
        err_of(r#"<mxCell id="5" vertex="1"><mxGeometry width="4"/></mxCell>"#),
        DiagramError::BadGeometryHeight
    );
}

#[test]
fn geometry_of_an_edge_is_ignored() {
    let cells =
        parse_diagram_cells(r#"<mxCell id="5" edge="1"><mxGeometry relative="1"/></mxCell>"#)
            .unwrap();
    assert!(cells[&5].geometry.is_none());
}

#[test]
fn cell_inside_object_takes_its_id_and_attributes() {
    let cells = parse_diagram_cells(
        r#"<object id="8" label="Tom &amp; Jerry" type="sensor"><mxCell vertex="1"></mxCell></object>"#,
    )
    .unwrap();
    let cell = &cells[&8];
    let obj = cell.object.as_ref().unwrap();
    assert_eq!(obj.get("label").map(|s| s.as_str()), Some("Tom & Jerry"));
    assert_eq!(obj.get("type").map(|s| s.as_str()), Some("sensor"));
    assert_eq!(obj.entries.len(), 3);
}

#[test]
fn closed_object_does_not_reach_later_cells() {
    let cells = parse_diagram_cells(
        r#"<object id="8" type="x"><mxCell vertex="1"></mxCell></object><mxCell id="9"></mxCell>"#,
    )
    .unwrap();
    assert!(cells[&9].object.is_none());
}

#[test]
fn attr_value_gives_raw_text() {
    let t = tag(r#"mxCell id="3" value="a&amp;b" value="second""#, 6);
    assert_eq!(attr_value(&t, "id").as_deref(), Some("3"));
    assert_eq!(attr_value(&t, "value").as_deref(), Some("a&amp;b"));
    assert_eq!(attr_value(&t, "style"), None);
    assert_eq!(attr_value(&t, "mxCell"), None);
}

#[test]
fn object_of_unescapes_values() {
    let t = tag(r#"object id="2" label="a&amp;b &lt;c&gt;" bad="&unknown;""#, 6);
    let o = object_of(&t);
    let pairs: Vec<(&str, &str)> =
        o.entries.iter().map(|(k, v)| (k.as_str(), v.as_str())).collect();
    assert_eq!(pairs, vec![("id", "2"), ("label", "a&b <c>"), ("bad", "")]);
}

#[test]
fn object_drops_repeated_key() {
    let t = tag(r#"object k="1" k="2""#, 6);
    let o = object_of(&t);
    assert_eq!(o.entries.len(), 1);
    assert_eq!(o.get("k").map(|s| s.as_str()), Some("1"));
    assert_eq!(o.get("missing"), None);
}

#[test]
fn parse_geometry_values() {
    let g = parse_geometry(&tag(r#"mxGeometry x="-5.5" width="10" height="0.25""#, 10)).unwrap();
    assert_eq!(texts(&g), (Some("-5.5"), None, "10", "0.25"));
    let g = parse_geometry(&tag(r#"mxGeometry x="oops" y="2" width="1" height="1""#, 10))
        .unwrap();
    assert_eq!(texts(&g), (None, Some("2"), "1", "1"));
    assert_eq!(
        parse_geometry(&tag(r#"mxGeometry height="1""#, 10)).err(),
        Some(DiagramError::BadGeometryWidth)
    );
    assert_eq!(
        parse_geometry(&tag(r#"mxGeometry width="1" height="x""#, 10)).err(),
        Some(DiagramError::BadGeometryHeight)
    );
}

#[test]
fn parse_cell_fields() {
    let t = tag(
        r#"mxCell id="6" parent="1" style="text;html=1;" value="VB" vertex="1" edge="1""#,
        6,
    );
    let c = parse_cell(&t, None).unwrap();
    assert_eq!(c.id, 6);
    assert_eq!(c.parent_id, Some(1));
    assert_eq!(c.style.as_deref(), Some("text;html=1;"));
    assert_eq!(c.value.as_deref(), Some("VB"));
    assert_eq!(c.oneline_name.as_deref(), Some("VB"));
    assert_eq!(c.vertex_or_edge, VertexOrEdge::Vertex);
    assert_eq!(c.source_id, None);
    assert!(c.geometry.is_none());
    assert!(c.object.is_none());

    let e = parse_cell(&tag(r#"mxCell edge="1" vertex="0" source="3" target="4""#, 6), Some(9))
        .unwrap();
    assert_eq!(e.id, 9);
    assert_eq!(e.vertex_or_edge, VertexOrEdge::Edge);
    assert_eq!((e.source_id, e.target_id), (Some(3), Some(4)));

    let o = parse_cell(&tag(r#"mxCell vertex="true""#, 6), Some(2)).unwrap();
    assert_eq!(o.vertex_or_edge, VertexOrEdge::Other);
}

#[test]
fn parse_cell_errors_in_order() {
    assert_eq!(
        parse_cell(&tag(r#"mxCell id="x" source="y""#, 6), None).err(),
        Some(DiagramError::CellIdNotNumber)
    );
    assert_eq!(
        parse_cell(&tag(r#"mxCell source="y""#, 6), None).err(),
        Some(DiagramError::MissingCellId)
    );
    assert_eq!(
        parse_cell(&tag(r#"mxCell id="1""#, 6), Some(1)).err(),
        Some(DiagramError::ConflictingCellIds)
    );
    assert_eq!(
        parse_cell(&tag(r#"mxCell id="1" parent="p" target="t""#, 6), None).err(),
        Some(DiagramError::TargetNotNumber)
    );
}

#[test]
fn apply_event_steps() {
    let mut st = ParseState::new();
    assert!(apply_event(&mut st, &XmlEvent::Start(tag(r#"object id="4" type="sensor""#, 6))).is_ok());
    assert!(st.current_object.is_some());
    assert!(apply_event(&mut st, &XmlEvent::Start(tag(r#"mxCell vertex="1""#, 6))).is_ok());
    assert_eq!(st.current_cell.as_ref().map(|c| c.id), Some(4));
    assert!(apply_event(
        &mut st,
        &XmlEvent::Empty(tag(r#"mxGeometry width="2" height="3""#, 10))
    )
    .is_ok());
    assert!(apply_event(&mut st, &XmlEvent::Other).is_ok());
    assert!(apply_event(&mut st, &XmlEvent::End(b"mxCell".to_vec())).is_ok());
    assert!(st.current_cell.is_none());
    assert!(apply_event(&mut st, &XmlEvent::End(b"object".to_vec())).is_ok());
    assert!(st.current_object.is_none());
    let c = &st.cells[&4];
    assert_eq!(c.geometry.as_ref().unwrap().height, "3");
    assert!(c.object.is_some());

    assert_eq!(
        apply_event(&mut st, &XmlEvent::Error("boom".to_string())),
        Err(DiagramError::XmlError)
    );
}

#[test]
fn end_of_cell_without_open_cell_is_ignored() {
    let mut st = ParseState::new();
    assert!(apply_event(&mut st, &XmlEvent::End(b"mxCell".to_vec())).is_ok());
    assert!(apply_event(&mut st, &XmlEvent::Eof).is_ok());
    assert!(st.cells.is_empty());
}

#[test]
fn attr_value_compares_keys_as_utf8_bytes() {
    let t = tag(r#"a )="x" ĩ="y""#, 1);
    assert_eq!(attr_value(&t, ")").as_deref(), Some("x"));
    assert_eq!(attr_value(&t, "ĩ").as_deref(), Some("y"));
    let only_paren = tag(r#"a )="x""#, 1);
    assert_eq!(attr_value(&only_paren, "ĩ"), None);
}

#[test]
fn geometry_in_exponent_notation() {
    let g = parse_geometry(&tag(r#"mxGeometry x="1.5e1" width="1e2" height="2E-1""#, 10))
        .unwrap();
    assert_eq!(texts(&g), (Some("1.5e1"), None, "1e2", "2E-1"));
    let cells = parse_diagram_cells(
        r#"<mxCell id="5" vertex="1"><mxGeometry width="1e2" height="5"/></mxCell>"#,
    )
    .unwrap();
    assert_eq!(cells[&5].geometry.as_ref().unwrap().width, "1e2");
}

#[test]
fn geometry_takes_every_float_text() {
    let g = parse_geometry(&tag(
        r#"mxGeometry x="NaN" y="-1e400" width="inf" height="123456789.123456789123""#,
        10,
    ))
    .unwrap();
    assert_eq!(texts(&g), (Some("NaN"), Some("-1e400"), "inf", "123456789.123456789123"));
    assert_eq!(
        parse_geometry(&tag(r#"mxGeometry width="Infinity" height="1 ""#, 10)).err(),
        Some(DiagramError::BadGeometryHeight)
    );
    assert_eq!(
        parse_geometry(&tag(r#"mxGeometry width="1e" height="1""#, 10)).err(),
        Some(DiagramError::BadGeometryWidth)
    );
}

#[test]
fn xml_error_message_of_ill_formed_input() {
    let m = xml_error_message("<root></wrong>").unwrap();
    assert!(m.contains("wrong"), "message {m:?}");
    assert_eq!(xml_error_message(SAMPLE), None);
    assert_eq!(xml_error_message(""), None);
}
