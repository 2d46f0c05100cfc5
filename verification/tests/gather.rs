use std::collections::{HashMap, HashSet};

use drawio_parser::diagram::parse_diagram_cells;
use drawio_parser::gather::{
    boards_placed, gather_all_actors, gather_all_sensors, gather_boards, gather_connectors,
    gather_harnesses, gather_interconnects, gather_one_type_in_section, gather_sections,
    harness_lengths_valid, section_markers_placed, typed_cells_placed,
};
use drawio_parser::helpers::insert_unique;
use drawio_parser::types::{Cell, Layout, ObjectAttributes, RectGeometry, Section, VertexOrEdge};

const DIAGRAM: &str = r#"<mxGraphModel><root>
  <mxCell id="0" />
  <mxCell id="1" parent="0" />
  <object label="" section_marker="recovery" id="2">
    <mxCell style="rounded=0;" vertex="1" parent="1">
      <mxGeometry x="0" y="0" width="1000" height="1000" as="geometry" />
    </mxCell>
  </object>
  <object label="" section_marker="drive" id="3">
    <mxCell style="rounded=0;" vertex="1" parent="1">
      <mxGeometry x="250" y="0" width="1000" height="300" as="geometry" />
    </mxCell>
  </object>
  <object label="" board_group="1" id="10">
    <mxCell style="group" vertex="1" connectable="0" parent="1">
      <mxGeometry x="100" y="100" width="200" height="100" as="geometry" />
    </mxCell>
  </object>
  <mxCell id="11" value="Main&lt;br&gt;Board" style="rounded=0;" vertex="1" parent="10">
    <mxGeometry width="200" height="100" as="geometry" />
  </mxCell>
  <object label="" connector_kind="JST" id="12">
    <mxCell value="J1" style="rounded=0;" vertex="1" parent="10">
      <mxGeometry x="10" y="10" width="20" height="10" as="geometry" />
    </mxCell>
  </object>
  <mxCell id="13" value="&lt;b&gt;J2&lt;/b&gt;" vertex="1" parent="10">
    <mxGeometry x="50" y="10" width="20" height="10" as="geometry" />
  </mxCell>
  <object label="" type="board" id="15">
    <mxCell value="&lt;div&gt;Power&lt;/div&gt;&lt;div&gt;Supply&lt;/div&gt;" vertex="1" parent="1">
      <mxGeometry x="2000" y="2000" width="50" height="50" as="geometry" />
    </mxCell>
  </object>
  <object label="" type="sensor" id="20">
    <mxCell value="Temp&amp;nbsp;Sensor" style="ellipse;" vertex="1" parent="1">
      <mxGeometry x="400" y="400" width="50" height="50" as="geometry" />
    </mxCell>
  </object>
  <object label="" type="sensor" id="21">
    <mxCell vertex="1" parent="1">
      <mxGeometry x="900" y="900" width="10" height="10" as="geometry" />
    </mxCell>
  </object>
  <object label="" type="interconnect" id="30">
    <mxCell value="IC" vertex="1" parent="1">
      <mxGeometry x="600" y="100" width="40" height="40" as="geometry" />
    </mxCell>
  </object>
  <object label="" type="actor" id="40">
    <mxCell value="Pump" vertex="1" parent="1">
      <mxGeometry x="1500" y="1500" width="40" height="40" as="geometry" />
    </mxCell>
  </object>
  <object label="" harness_kind="CAN" length="250" id="50">
    <mxCell style="endArrow=none;" edge="1" parent="1" source="12" target="20">
      <mxGeometry relative="1" as="geometry" />
    </mxCell>
  </object>
  <mxCell id="51" edge="1" parent="1" source="30" target="40">
    <mxGeometry relative="1" as="geometry" />
  </mxCell>
  <mxCell id="52" edge="1" parent="1" source="13" target="30">
    <mxGeometry relative="1" as="geometry" />
  </mxCell>
  <mxCell id="53" edge="1" parent="1" source="10" target="15">
    <mxGeometry relative="1" as="geometry" />
  </mxCell>
  <mxCell id="60" edge="1" parent="1" source="12">
    <mxGeometry relative="1" as="geometry" />
  </mxCell>
  <mxCell id="61" edge="1" parent="1" source="12" target="11">
    <mxGeometry relative="1" as="geometry" />
  </mxCell>
  <mxCell id="62" vertex="1" parent="1" source="12" target="30">
    <mxGeometry width="1" height="1" as="geometry" />
  </mxCell>
</root></mxGraphModel>"#;

fn cells() -> HashMap<u32, Cell> {
    parse_diagram_cells(DIAGRAM).unwrap()
}

fn set(ids: &[u32]) -> HashSet<u32> {
    ids.iter().copied().collect()
}

fn keys<V>(m: &HashMap<u32, V>) -> Vec<u32> {
    let mut k: Vec<u32> = m.keys().copied().collect();
    k.sort();
    k
}

fn rect(x: &str, y: &str, width: &str, height: &str) -> RectGeometry {
    RectGeometry {
        x: Some(x.to_string()),
        y: Some(y.to_string()),
        width: width.to_string(),
        height: height.to_string(),
    }
}

/// The floating-point layout of the cells, worked out as the program does it.
fn layout(all: &HashMap<u32, Cell>, sections: &HashMap<u32, Section>) -> Layout {
    fn num(t: &Option<String>) -> f64 {
        t.as_deref().and_then(|v| v.parse::<f64>().ok()).unwrap_or_default()
    }
    fn coords(g: &RectGeometry) -> (f64, f64, f64, f64) {
        (num(&g.x), num(&g.y), g.width.parse().unwrap(), g.height.parse().unwrap())
    }
    let mut sections_of = HashMap::new();
    let mut area_keys = HashMap::new();
    for (id, cell) in all {
        if let Some(g) = &cell.geometry {
            let (x, y, w, h) = coords(g);
            let mut in_sections = HashSet::new();
            for (sid, section) in sections {
                let (sx, sy, sw, sh) = coords(&section.geom);
                if sx < x + w && sx + sw > x && sy < y + h && sy + sh > y {
                    in_sections.insert(*sid);
                }
            }
            sections_of.insert(*id, in_sections);
            let area = w * h;
            area_keys.insert(*id, if area > 0.0 { area.to_bits() } else { 0 });
        }
    }
    Layout { sections_of, area_keys }
}

fn plain_cell(id: u32) -> Cell {
    Cell {
        id,
        value: None,
        oneline_name: None,
        style: None,
        vertex_or_edge: VertexOrEdge::Vertex,
        source_id: None,
        target_id: None,
        parent_id: None,
        geometry: None,
        object: None,
    }
}

fn object(pairs: &[(&str, &str)]) -> Option<ObjectAttributes> {
    Some(ObjectAttributes {
        entries: pairs.iter().map(|(k, v)| (k.to_string(), v.to_string())).collect(),
    })
}

#[test]
fn sections_are_gathered() {
    let all = cells();
    assert!(section_markers_placed(&all));
    let sections = gather_sections(&all);
    let lay = layout(&all, &sections);
    assert_eq!(keys(&sections), vec![2, 3]);
    assert_eq!(sections[&2].name, "recovery");
    assert_eq!(sections[&2].id, 2);
    assert_eq!(sections[&3].name, "drive");
    let g = &sections[&3].geom;
    assert_eq!(
        (g.x.as_deref(), g.y.as_deref(), g.width.as_str(), g.height.as_str()),
        (Some("250"), Some("0"), "1000", "300")
    );
}

#[test]
fn boards_are_gathered() {
    let all = cells();
    assert!(boards_placed(&all));
    let sections = gather_sections(&all);
    let lay = layout(&all, &sections);
    let boards = gather_boards(&all, &lay);
    assert_eq!(keys(&boards), vec![10, 15]);

    let main = &boards[&10];
    assert_eq!(main.main_cell_id, Some(11));
    assert_eq!(main.oneline_name, "Main Board");
    assert_eq!(main.connectors_id, set(&[12, 13]));
    assert_eq!(main.in_sections, set(&[2, 3]));

    let supply = &boards[&15];
    assert_eq!(supply.main_cell_id, Some(15));
    assert_eq!(supply.oneline_name, "Power Supply");
    assert!(supply.connectors_id.is_empty());
    assert!(supply.in_sections.is_empty());
}

#[test]
fn connectors_are_gathered() {
    let all = cells();
    let sections = gather_sections(&all);
    let lay = layout(&all, &sections);
    let boards = gather_boards(&all, &lay);
    let connectors = gather_connectors(&boards, &all);
    assert_eq!(keys(&connectors), vec![12, 13]);
    assert_eq!(connectors[&12].oneline_name, "J1");
    assert_eq!(connectors[&12].kind.as_deref(), Some("JST"));
    assert_eq!(connectors[&12].board_id, 11);
    assert_eq!(connectors[&12].id, 12);
    assert_eq!(connectors[&13].oneline_name, "J2");
    assert_eq!(connectors[&13].kind, None);
}

#[test]
fn typed_parts_are_gathered() {
    let all = cells();
    let sections = gather_sections(&all);
    let lay = layout(&all, &sections);
    for t in ["sensor", "actor", "interconnect"] {
        assert!(typed_cells_placed(&all, t));
    }

    let ics = gather_interconnects(&all, &lay);
    assert_eq!(keys(&ics), vec![30]);
    assert_eq!(ics[&30].oneline_name, "IC");
    assert_eq!(ics[&30].in_sections, set(&[2, 3]));

    let sensors = gather_all_sensors(&all, &lay);
    assert_eq!(keys(&sensors), vec![20, 21]);
    assert_eq!(sensors[&20].oneline_name, "Temp Sensor");
    assert_eq!(sensors[&20].in_section, set(&[2]));
    assert_eq!(sensors[&21].oneline_name, "Unnamed");

    let actors = gather_all_actors(&all, &lay);
    assert_eq!(keys(&actors), vec![40]);
    assert_eq!(actors[&40].oneline_name, "Pump");
    assert!(actors[&40].in_section.is_empty());

    let found = gather_one_type_in_section("sensor", &all, &lay);
    assert_eq!(keys(&found), vec![20, 21]);
    assert_eq!(found[&21], set(&[2]));
    assert!(gather_one_type_in_section("nothing", &all, &lay).is_empty());
}

#[test]
fn harnesses_are_gathered() {
    let all = cells();
    let sections = gather_sections(&all);
    let lay = layout(&all, &sections);
    let boards = gather_boards(&all, &lay);
    let connectors = gather_connectors(&boards, &all);
    let ics = gather_interconnects(&all, &lay);
    let sensors = gather_all_sensors(&all, &lay);
    let actors = gather_all_actors(&all, &lay);
    assert!(harness_lengths_valid(&all, &connectors, &ics, &boards, &sensors, &actors));
    let harnesses = gather_harnesses(&all, &connectors, &ics, &boards, &sensors, &actors);
    // 60 has no target, 61 ends on a board's own shape, 62 is no edge
    assert_eq!(keys(&harnesses), vec![50, 51, 52, 53]);
    assert_eq!(harnesses[&50].length, Some(250));
    assert_eq!(harnesses[&50].kind.as_deref(), Some("CAN"));
    assert_eq!(harnesses[&50].id, 50);
    assert_eq!(harnesses[&51].length, None);
    assert_eq!(harnesses[&51].kind, None);
}

#[test]
fn harness_length_must_be_a_number() {
    let mut all = cells();
    let wire = all.get_mut(&50).unwrap();
    wire.object = object(&[("id", "50"), ("length", "25cm")]);
    let sections = gather_sections(&all);
    let lay = layout(&all, &sections);
    let boards = gather_boards(&all, &lay);
    let connectors = gather_connectors(&boards, &all);
    let ics = gather_interconnects(&all, &lay);
    let sensors = gather_all_sensors(&all, &lay);
    let actors = gather_all_actors(&all, &lay);
    assert!(!harness_lengths_valid(&all, &connectors, &ics, &boards, &sensors, &actors));
}

#[test]
fn placement_checks_fail_without_geometry() {
    let mut all: HashMap<u32, Cell> = HashMap::new();
    let mut marker = plain_cell(2);
    marker.object = object(&[("section_marker", "a")]);
    all.insert(2, marker);
    assert!(!section_markers_placed(&all));

    let mut sensor = plain_cell(3);
    sensor.object = object(&[("type", "sensor")]);
    all.insert(3, sensor);
    assert!(!typed_cells_placed(&all, "sensor"));
    assert!(typed_cells_placed(&all, "actor"));

    let mut group = plain_cell(4);
    group.style = Some("group".to_string());
    group.object = object(&[("board_group", "1")]);
    group.geometry = Some(rect("0", "0", "1", "1"));
    all.insert(4, group);
    // a board group needs at least one shape
    assert!(!boards_placed(&all));
    let mut shape = plain_cell(5);
    shape.parent_id = Some(4);
    all.insert(5, shape);
    assert!(boards_placed(&all));
}

#[test]
fn board_group_without_positive_area_keeps_a_shape() {
    let mut all: HashMap<u32, Cell> = HashMap::new();
    let mut group = plain_cell(4);
    group.style = Some("group".to_string());
    group.object = object(&[("board_group", "1")]);
    group.geometry = Some(rect("0", "0", "1", "1"));
    all.insert(4, group);
    let mut shape = plain_cell(5);
    shape.parent_id = Some(4);
    shape.value = Some("Only".to_string());
    all.insert(5, shape);
    let boards = gather_boards(&all, &empty_layout());
    assert_eq!(boards[&4].main_cell_id, Some(5));
    assert_eq!(boards[&4].oneline_name, "Only");
    assert!(boards[&4].connectors_id.is_empty());
}

#[test]
fn group_flag_must_be_one() {
    let mut all: HashMap<u32, Cell> = HashMap::new();
    let mut group = plain_cell(4);
    group.style = Some("group".to_string());
    group.object = object(&[("board_group", "0")]);
    all.insert(4, group);
    let mut other = plain_cell(6);
    other.style = Some("rounded=1;group".to_string());
    other.object = object(&[("board_group", "1")]);
    all.insert(6, other);
    assert!(gather_boards(&all, &empty_layout()).is_empty());
}

fn empty_layout() -> Layout {
    Layout { sections_of: HashMap::new(), area_keys: HashMap::new() }
}

#[test]
fn sections_and_main_shape_come_from_the_layout() {
    let mut all: HashMap<u32, Cell> = HashMap::new();
    let mut group = plain_cell(4);
    group.style = Some("group".to_string());
    group.object = object(&[("board_group", "1")]);
    group.geometry = Some(rect("0", "0", "1", "1"));
    all.insert(4, group);
    for (id, name) in [(5, "small"), (6, "large"), (7, "flat")] {
        let mut shape = plain_cell(id);
        shape.parent_id = Some(4);
        shape.value = Some(name.to_string());
        all.insert(id, shape);
    }
    let mut lay = empty_layout();
    lay.sections_of.insert(4, set(&[8, 9]));
    lay.area_keys.insert(5, 3);
    lay.area_keys.insert(6, 10);
    lay.area_keys.insert(7, 0);
    let boards = gather_boards(&all, &lay);
    assert_eq!(boards[&4].main_cell_id, Some(6));
    assert_eq!(boards[&4].oneline_name, "large");
    assert_eq!(boards[&4].connectors_id, set(&[5, 7]));
    assert_eq!(boards[&4].in_sections, set(&[8, 9]));
}

#[test]
fn board_area_can_be_infinite() {
    let mut all: HashMap<u32, Cell> = HashMap::new();
    let mut group = plain_cell(4);
    group.style = Some("group".to_string());
    group.object = object(&[("board_group", "1")]);
    group.geometry = Some(rect("0", "0", "1", "1"));
    all.insert(4, group);
    let mut huge = plain_cell(5);
    huge.parent_id = Some(4);
    huge.geometry = Some(rect("0", "0", "inf", "1"));
    all.insert(5, huge);
    let mut odd = plain_cell(6);
    odd.parent_id = Some(4);
    odd.geometry = Some(rect("0", "0", "NaN", "1"));
    all.insert(6, odd);
    let mut fine = plain_cell(7);
    fine.parent_id = Some(4);
    fine.geometry = Some(rect("0", "0", "1e100", "1"));
    all.insert(7, fine);
    let boards = gather_boards(&all, &layout(&all, &HashMap::new()));
    assert_eq!(boards[&4].main_cell_id, Some(5));
    assert_eq!(boards[&4].connectors_id, set(&[6, 7]));
}

#[test]
fn insert_unique_adds_new_key() {
    let mut m: HashMap<u32, &str> = HashMap::new();
    insert_unique(&mut m, 3, "three");
    insert_unique(&mut m, 4, "four");
    assert_eq!(m.len(), 2);
    assert_eq!(m[&3], "three");
}

#[test]
fn stored_names_match_label_names() {
    let all = cells();
    let sections = gather_sections(&all);
    let lay = layout(&all, &sections);
    let sensors = gather_all_sensors(&all, &lay);
    for (id, sensor) in &sensors {
        let label = drawio_parser::text::to_nice_string(all[id].value.as_deref());
        assert_eq!(sensor.oneline_name, label);
    }
    for cell in all.values() {
        let stored = cell.oneline_name.clone().unwrap_or_else(|| "Unnamed".to_string());
        assert_eq!(stored, drawio_parser::text::to_nice_string(cell.value.as_deref()));
    }
}
