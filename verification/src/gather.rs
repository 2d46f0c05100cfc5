use std::collections::{HashMap, HashSet};

use vstd::prelude::*;

use crate::helpers::{
    copy_set, insert_unique, lemma_collect_step, lemma_not_in_prefix, lemma_take_push_contains,
    map_keys, set_elements,
};
use crate::numbers::{parse_u32, parse_u32_spec};
use crate::text::{str_eq, to_nice_string, nice_string, unnamed, unnamed_string};
use crate::types::{
    as_opt_str, cell_attr, copy_string, get_attr, opt_text, Actor, Board, Cell, Connector, Harness,
    Interconnect, Section, Sensor, VertexOrEdge, area_key, copy_geometry, opt_geometry, placed_in,
    Layout,
};

verus! {

broadcast use vstd::std_specs::hash::group_hash_axioms;

/// The ids of the cells whose object has the property `type` set to `t`.
pub open spec fn cells_of_type(cells: Map<u32, Cell>, t: Seq<char>) -> Set<u32> {
    Set::new(|id: u32| cells.contains_key(id) && cell_attr(cells[id], "type"@) == Some(t))
}

/// Every cell whose object has the property `type` set to `t` has a geometry.
pub open spec fn typed_cells_have_geometry(cells: Map<u32, Cell>, t: Seq<char>) -> bool {
    forall|id: u32| #[trigger] cells_of_type(cells, t).contains(id) ==> cells[id].geometry is Some
}

/// The ids of the cells that mark a section (property `section_marker`).
pub open spec fn section_marker_cells(cells: Map<u32, Cell>) -> Set<u32> {
    Set::new(|id: u32| cells.contains_key(id) && cell_attr(cells[id], "section_marker"@) is Some)
}

/// Whether the object of a cell has the property `type` set to `t`.
fn has_type(cell: &Cell, t: &str) -> (b: bool)
    ensures
        b == (cell_attr(*cell, "type"@) == Some(t@)),
{
    match get_attr(&cell.object, "type") {
        Some(type_n) => str_eq(type_n.as_str(), t),
        None => false,
    }
}

/// Gathers the cells whose object has the property `type` set to `type_str`, each with the
/// sections that the layout places it in.
pub fn gather_one_type_in_section(
    type_str: &str,
    all_cells: &HashMap<u32, Cell>,
    layout: &Layout,
) -> (found: HashMap<u32, HashSet<u32>>)
    requires
        typed_cells_have_geometry(all_cells@, type_str@),
    ensures
        found@.dom() == cells_of_type(all_cells@, type_str@),
        forall|id: u32|
            #[trigger] found@.contains_key(id) ==> found@[id]@ == placed_in(*layout, id),
{
    let mut found: HashMap<u32, HashSet<u32>> = HashMap::new();
    let ids = map_keys(all_cells);
    for i in 0..ids.len()
        invariant
            ids@.no_duplicates(),
            forall|k: u32| ids@.contains(k) <==> all_cells@.contains_key(k),
            typed_cells_have_geometry(all_cells@, type_str@),
            forall|k: u32|
                found@.contains_key(k) <==> (ids@.take(i as int).contains(k)
                    && cells_of_type(all_cells@, type_str@).contains(k)),
            forall|k: u32|
                #[trigger] found@.contains_key(k) ==> found@[k]@ == placed_in(*layout, k),
    {
        let id = ids[i];
        assert(ids@.contains(id));
        proof {
            lemma_not_in_prefix(ids@, i as int);
        }
        let ghost before = found@;
        let cell = all_cells.get(&id).unwrap();
        if has_type(cell, type_str) {
            match &cell.geometry {
                Some(geom) => {
                    let in_sections = sections_of(layout, id);
                    found.insert(id, in_sections);
                },
                None => {
                    assert(cells_of_type(all_cells@, type_str@).contains(id));
                },
            }
        }
        proof {
            lemma_collect_step(ids@, i as int, cells_of_type(all_cells@, type_str@), before.dom(), found@.dom());
        }
    }
    assert(ids@.take(ids.len() as int) =~= ids@);
    assert(found@.dom() =~= cells_of_type(all_cells@, type_str@));
    found
}

/// Every cell that marks a section has a geometry.
pub open spec fn section_markers_have_geometry(cells: Map<u32, Cell>) -> bool {
    forall|id: u32| #[trigger] section_marker_cells(cells).contains(id) ==> cells[id].geometry is Some
}

/// Gathers the cells marked with `section_marker="<name>"` as sections.
pub fn gather_sections(all_cells: &HashMap<u32, Cell>) -> (all_sections: HashMap<u32, Section>)
    requires
        section_markers_have_geometry(all_cells@),
    ensures
        all_sections@.dom() == section_marker_cells(all_cells@),
        forall|id: u32|
            #[trigger] all_sections@.contains_key(id) ==> {
                &&& all_sections@[id].id == id
                &&& Some(all_sections@[id].name@) == cell_attr(all_cells@[id], "section_marker"@)
                &&& Some(all_sections@[id].geom@) == opt_geometry(all_cells@[id].geometry)
            },
{
    let mut all_sections: HashMap<u32, Section> = HashMap::new();
    let ids = map_keys(all_cells);
    for i in 0..ids.len()
        invariant
            ids@.no_duplicates(),
            forall|k: u32| ids@.contains(k) <==> all_cells@.contains_key(k),
            section_markers_have_geometry(all_cells@),
            forall|k: u32|
                all_sections@.contains_key(k) <==> (ids@.take(i as int).contains(k)
                    && section_marker_cells(all_cells@).contains(k)),
            forall|id: u32|
                #[trigger] all_sections@.contains_key(id) ==> {
                    &&& all_sections@[id].id == id
                    &&& Some(all_sections@[id].name@) == cell_attr(
                        all_cells@[id],
                        "section_marker"@,
                    )
                    &&& Some(all_sections@[id].geom@) == opt_geometry(all_cells@[id].geometry)
                },
    {
        let id = ids[i];
        assert(ids@.contains(id));
        proof {
            lemma_not_in_prefix(ids@, i as int);
        }
        let ghost before = all_sections@;
        let cell = all_cells.get(&id).unwrap();
        match get_attr(&cell.object, "section_marker") {
            Some(name) => {
                assert(section_marker_cells(all_cells@).contains(id));
                match &cell.geometry {
                    Some(geom) => {
                        insert_unique(
                            &mut all_sections,
                            id,
                            Section { id, name: copy_string(name), geom: copy_geometry(geom) },
                        );
                    },
                    None => {},
                }
            },
            None => {},
        }
        proof {
            lemma_collect_step(ids@, i as int, section_marker_cells(all_cells@), before.dom(), all_sections@.dom());
        }
    }
    assert(ids@.take(ids.len() as int) =~= ids@);
    assert(all_sections@.dom() =~= section_marker_cells(all_cells@));
    all_sections
}

/// The sections that the layout places cell `id` in.
fn sections_of(layout: &Layout, id: u32) -> (r: HashSet<u32>)
    ensures
        r@ == placed_in(*layout, id),
{
    match layout.sections_of.get(&id) {
        Some(set) => copy_set(set),
        None => HashSet::new(),
    }
}

/// The area key that the layout gives cell `id`.
fn area_key_of(layout: &Layout, id: u32) -> (k: u64)
    ensures
        k == area_key(*layout, id),
{
    match layout.area_keys.get(&id) {
        Some(k) => *k,
        None => 0,
    }
}

/// Gathers the interconnects: the cells whose object has `type="interconnect"`, each named by
/// its label and with the sections that the layout places it in.
pub fn gather_interconnects(
    all_cells: &HashMap<u32, Cell>,
    layout: &Layout,
) -> (all_interconnects: HashMap<u32, Interconnect>)
    requires
        typed_cells_have_geometry(all_cells@, "interconnect"@),
    ensures
        all_interconnects@.dom() == cells_of_type(all_cells@, "interconnect"@),
        forall|id: u32|
            #[trigger] all_interconnects@.contains_key(id) ==> {
                &&& all_interconnects@[id].id == id
                &&& all_interconnects@[id].oneline_name@ == nice_string(opt_text(all_cells@[id].value))
                &&& all_interconnects@[id].in_sections@ == placed_in(*layout, id)
            },
{
    let mut all_interconnects: HashMap<u32, Interconnect> = HashMap::new();
    let ids = map_keys(all_cells);
    for i in 0..ids.len()
        invariant
            ids@.no_duplicates(),
            forall|k: u32| ids@.contains(k) <==> all_cells@.contains_key(k),
            typed_cells_have_geometry(all_cells@, "interconnect"@),
            forall|k: u32|
                all_interconnects@.contains_key(k) <==> (ids@.take(i as int).contains(k)
                    && cells_of_type(all_cells@, "interconnect"@).contains(k)),
            forall|id: u32|
                #[trigger] all_interconnects@.contains_key(id) ==> {
                    &&& all_interconnects@[id].id == id
                    &&& all_interconnects@[id].oneline_name@ == nice_string(opt_text(all_cells@[id].value))
                    &&& all_interconnects@[id].in_sections@ == placed_in(*layout, id)
                },
    {
        let id = ids[i];
        assert(ids@.contains(id));
        proof {
            lemma_not_in_prefix(ids@, i as int);
        }
        let ghost before = all_interconnects@;
        let cell = all_cells.get(&id).unwrap();
        if has_type(cell, "interconnect") {
            assert(cells_of_type(all_cells@, "interconnect"@).contains(id));
            let oneline_name = to_nice_string(as_opt_str(&cell.value));
            match &cell.geometry {
                Some(geom) => {
                    let in_sections = sections_of(layout, id);
                    all_interconnects.insert(id, Interconnect { id, oneline_name, in_sections });
                },
                None => {},
            }
        }
        proof {
            lemma_collect_step(ids@, i as int, cells_of_type(all_cells@, "interconnect"@), before.dom(), all_interconnects@.dom());
        }
    }
    assert(ids@.take(ids.len() as int) =~= ids@);
    assert(all_interconnects@.dom() =~= cells_of_type(all_cells@, "interconnect"@));
    all_interconnects
}

/// The one-line name stored on a cell, or "Unnamed".
pub open spec fn stored_name(c: Cell) -> Seq<char> {
    match opt_text(c.oneline_name) {
        Some(n) => n,
        None => unnamed(),
    }
}

/// A copy of the one-line name stored on a cell, or "Unnamed".
fn stored_name_of(c: &Cell) -> (r: String)
    ensures
        r@ == stored_name(*c),
{
    match &c.oneline_name {
        Some(n) => copy_string(n),
        None => unnamed_string(),
    }
}

/// The sensors: the cells whose object has `type="sensor"`, each with its stored name and the
/// sections that the layout places it in.
pub fn gather_all_sensors(
    all_cells: &HashMap<u32, Cell>,
    layout: &Layout,
) -> (sensors: HashMap<u32, Sensor>)
    requires
        typed_cells_have_geometry(all_cells@, "sensor"@),
    ensures
        sensors@.dom() == cells_of_type(all_cells@, "sensor"@),
        forall|id: u32|
            #[trigger] sensors@.contains_key(id) ==> {
                &&& sensors@[id].id == id
                &&& sensors@[id].oneline_name@ == stored_name(all_cells@[id])
                &&& sensors@[id].in_section@ == placed_in(*layout, id)
            },
{
    let sensor_cells = gather_one_type_in_section("sensor", all_cells, layout);
    let mut sensors: HashMap<u32, Sensor> = HashMap::new();
    let ids = map_keys(&sensor_cells);
    for i in 0..ids.len()
        invariant
            ids@.no_duplicates(),
            forall|k: u32| ids@.contains(k) <==> sensor_cells@.contains_key(k),
            sensor_cells@.dom() == cells_of_type(all_cells@, "sensor"@),
            forall|id: u32|
                #[trigger] sensor_cells@.contains_key(id) ==> sensor_cells@[id]@
                    == placed_in(*layout, id),
            forall|k: u32|
                sensors@.contains_key(k) <==> ids@.take(i as int).contains(k),
            forall|id: u32|
                #[trigger] sensors@.contains_key(id) ==> {
                    &&& sensors@[id].id == id
                    &&& sensors@[id].oneline_name@ == stored_name(all_cells@[id])
                    &&& sensors@[id].in_section@ == placed_in(*layout, id)
                },
    {
        let id = ids[i];
        assert(ids@.contains(id));
        assert(sensor_cells@.contains_key(id));
        assert(cells_of_type(all_cells@, "sensor"@).contains(id));
        proof {
            lemma_not_in_prefix(ids@, i as int);
        }
        let in_section = copy_set(sensor_cells.get(&id).unwrap());
        let oneline_name = stored_name_of(all_cells.get(&id).unwrap());
        insert_unique(&mut sensors, id, Sensor { id, oneline_name, in_section });
        assert forall|k: u32| sensors@.contains_key(k) <==> ids@.take(i + 1).contains(k) by {
            lemma_take_push_contains(ids@, i as int, k);
        }
    }
    assert(ids@.take(ids.len() as int) =~= ids@);
    assert(sensors@.dom() =~= cells_of_type(all_cells@, "sensor"@));
    sensors
}

/// The actors: the cells whose object has `type="actor"`, each with its stored name and the
/// sections that the layout places it in.
pub fn gather_all_actors(
    all_cells: &HashMap<u32, Cell>,
    layout: &Layout,
) -> (actors: HashMap<u32, Actor>)
    requires
        typed_cells_have_geometry(all_cells@, "actor"@),
    ensures
        actors@.dom() == cells_of_type(all_cells@, "actor"@),
        forall|id: u32|
            #[trigger] actors@.contains_key(id) ==> {
                &&& actors@[id].id == id
                &&& actors@[id].oneline_name@ == stored_name(all_cells@[id])
                &&& actors@[id].in_section@ == placed_in(*layout, id)
            },
{
    let actor_cells = gather_one_type_in_section("actor", all_cells, layout);
    let mut actors: HashMap<u32, Actor> = HashMap::new();
    let ids = map_keys(&actor_cells);
    for i in 0..ids.len()
        invariant
            ids@.no_duplicates(),
            forall|k: u32| ids@.contains(k) <==> actor_cells@.contains_key(k),
            actor_cells@.dom() == cells_of_type(all_cells@, "actor"@),
            forall|id: u32|
                #[trigger] actor_cells@.contains_key(id) ==> actor_cells@[id]@
                    == placed_in(*layout, id),
            forall|k: u32| actors@.contains_key(k) <==> ids@.take(i as int).contains(k),
            forall|id: u32|
                #[trigger] actors@.contains_key(id) ==> {
                    &&& actors@[id].id == id
                    &&& actors@[id].oneline_name@ == stored_name(all_cells@[id])
                    &&& actors@[id].in_section@ == placed_in(*layout, id)
                },
    {
        let id = ids[i];
        assert(ids@.contains(id));
        assert(actor_cells@.contains_key(id));
        assert(cells_of_type(all_cells@, "actor"@).contains(id));
        proof {
            lemma_not_in_prefix(ids@, i as int);
        }
        let in_section = copy_set(actor_cells.get(&id).unwrap());
        let oneline_name = stored_name_of(all_cells.get(&id).unwrap());
        insert_unique(&mut actors, id, Actor { id, oneline_name, in_section });
        assert forall|k: u32| actors@.contains_key(k) <==> ids@.take(i + 1).contains(k) by {
            lemma_take_push_contains(ids@, i as int, k);
        }
    }
    assert(ids@.take(ids.len() as int) =~= ids@);
    assert(actors@.dom() =~= cells_of_type(all_cells@, "actor"@));
    actors
}

/// The ids of all connectors of all boards.
pub open spec fn all_board_connectors(boards: Map<u32, Board>) -> Set<u32> {
    Set::new(
        |c: u32| exists|b: u32| boards.contains_key(b) && #[trigger] boards[b].connectors_id@.contains(c),
    )
}

/// What connectors need of the boards and cells they come from: every connector is a cell, a
/// board with connectors has a main cell, and no connector belongs to two boards.
pub open spec fn boards_fit_cells(boards: Map<u32, Board>, cells: Map<u32, Cell>) -> bool {
    &&& forall|b: u32, c: u32|
        boards.contains_key(b) && #[trigger] boards[b].connectors_id@.contains(c)
            ==> cells.contains_key(c) && boards[b].main_cell_id is Some
    &&& forall|b1: u32, b2: u32, c: u32|
        boards.contains_key(b1) && boards.contains_key(b2) && b1 != b2
            && #[trigger] boards[b1].connectors_id@.contains(c) ==> !#[trigger] boards[b2].connectors_id@.contains(c)
}

/// Whether `conn` is the connector `c` of board `b`, named by its label and carrying its
/// `connector_kind` property.
pub open spec fn is_connector_of(
    conn: Connector,
    c: u32,
    b: Board,
    cells: Map<u32, Cell>,
) -> bool {
    &&& conn.id == c
    &&& conn.board_id == b.main_cell_id.unwrap()
    &&& conn.oneline_name@ == nice_string(opt_text(cells[c].value))
    &&& opt_text(conn.kind) == cell_attr(cells[c], "connector_kind"@)
}

/// Gathers the connectors of all boards, each tied to the main cell of its board.
pub fn gather_connectors(
    all_boards: &HashMap<u32, Board>,
    all_cells: &HashMap<u32, Cell>,
) -> (all_connectors: HashMap<u32, Connector>)
    requires
        boards_fit_cells(all_boards@, all_cells@),
    ensures
        all_connectors@.dom() == all_board_connectors(all_boards@),
        forall|b: u32, c: u32|
            all_boards@.contains_key(b) && #[trigger] all_boards@[b].connectors_id@.contains(c)
                ==> is_connector_of(all_connectors@[c], c, all_boards@[b], all_cells@),
{
    let mut all_connectors: HashMap<u32, Connector> = HashMap::new();
    let bids = map_keys(all_boards);
    for i in 0..bids.len()
        invariant
            bids@.no_duplicates(),
            forall|k: u32| bids@.contains(k) <==> all_boards@.contains_key(k),
            boards_fit_cells(all_boards@, all_cells@),
            forall|c: u32|
                all_connectors@.contains_key(c) <==> exists|j: int|
                    0 <= j < i && #[trigger] all_boards@[bids@[j]].connectors_id@.contains(c),
            forall|j: int, c: u32|
                0 <= j < i && #[trigger] all_boards@[bids@[j]].connectors_id@.contains(c)
                    ==> is_connector_of(all_connectors@[c], c, all_boards@[bids@[j]], all_cells@),
    {
        let bid = bids[i];
        assert(bids@.contains(bid));
        let board = all_boards.get(&bid).unwrap();
        let cids = set_elements(&board.connectors_id);
        assert(cids@.take(0) =~= Seq::<u32>::empty());
        let ghost mut done: Set<u32> = Set::empty();
        let ghost prev: Set<u32> = all_connectors@.dom();
        for k in 0..cids.len()
            invariant
                bids@.no_duplicates(),
                forall|k: u32| bids@.contains(k) <==> all_boards@.contains_key(k),
                boards_fit_cells(all_boards@, all_cells@),
                0 <= i < bids@.len(),
                bid == bids@[i as int],
                *board == all_boards@[bid],
                all_boards@.contains_key(bid),
                cids@.no_duplicates(),
                forall|c: u32| cids@.contains(c) <==> board.connectors_id@.contains(c),
                forall|c: u32| done.contains(c) <==> cids@.take(k as int).contains(c),
                forall|c: u32|
                    prev.contains(c) <==> exists|j: int|
                        0 <= j < i && #[trigger] all_boards@[bids@[j]].connectors_id@.contains(c),
                forall|c: u32| all_connectors@.contains_key(c) <==> prev.contains(c) || done.contains(c),
                forall|j: int, c: u32|
                    0 <= j < i && #[trigger] all_boards@[bids@[j]].connectors_id@.contains(c)
                        ==> is_connector_of(
                        all_connectors@[c],
                        c,
                        all_boards@[bids@[j]],
                        all_cells@,
                    ),
                forall|c: u32|
                    #[trigger] done.contains(c) ==> is_connector_of(
                        all_connectors@[c],
                        c,
                        *board,
                        all_cells@,
                    ),
        {
            let cid = cids[k];
            assert(cids@.contains(cid));
            assert(board.connectors_id@.contains(cid));
            proof {
                lemma_not_in_prefix(cids@, k as int);
                assert forall|j: int|
                    0 <= j < i implies !#[trigger] all_boards@[bids@[j]].connectors_id@.contains(
                    cid,
                ) by {
                    assert(bids@[j] != bids@[i as int]);
                    assert(bids@.contains(bids@[j]));
                }
            }
            let cell = all_cells.get(&cid).unwrap();
            let oneline_name = to_nice_string(as_opt_str(&cell.value));
            let kind = match get_attr(&cell.object, "connector_kind") {
                Some(kd) => Some(copy_string(kd)),
                None => None,
            };
            let board_id = board.main_cell_id.unwrap();
            let ghost before = all_connectors@;
            proof {
                assert(!done.contains(cid));
                if prev.contains(cid) {
                    let j = choose|j: int|
                        0 <= j < i && #[trigger] all_boards@[bids@[j]].connectors_id@.contains(cid);
                    assert(false);
                }
            }
            insert_unique(
                &mut all_connectors,
                cid,
                Connector { id: cid, oneline_name, kind, board_id },
            );
            assert(all_connectors@[cid].id == cid);
            assert(all_connectors@[cid].board_id == board.main_cell_id.unwrap());
            assert(all_connectors@[cid].oneline_name@ == nice_string(opt_text(all_cells@[cid].value)));
            assert(opt_text(all_connectors@[cid].kind) == cell_attr(all_cells@[cid], "connector_kind"@));
            proof {
                assert forall|c: u32|
                    done.insert(cid).contains(c) <==> cids@.take(k + 1).contains(c) by {
                    lemma_take_push_contains(cids@, k as int, c);
                }
                assert forall|c: u32| #[trigger] done.insert(cid).contains(c) implies is_connector_of(
                    all_connectors@[c],
                    c,
                    *board,
                    all_cells@,
                ) by {
                    if c != cid {
                        assert(done.contains(c));
                        assert(all_connectors@[c] == before[c]);
                    }
                }
                assert forall|c: u32|
                    all_connectors@.contains_key(c) <==> prev.contains(c) || done.insert(
                        cid,
                    ).contains(c) by {
                    if c != cid {
                        assert(all_connectors@.contains_key(c) == before.contains_key(c));
                    }
                }
                done = done.insert(cid);
            }
        }
        assert(cids@.take(cids.len() as int) =~= cids@);
        assert forall|c: u32|
            all_connectors@.contains_key(c) <==> exists|j: int|
                0 <= j < i + 1 && #[trigger] all_boards@[bids@[j]].connectors_id@.contains(c) by {
            if done.contains(c) {
                assert(cids@.take(cids@.len() as int).contains(c));
                assert(all_boards@[bids@[i as int]].connectors_id@.contains(c));
            }
            if prev.contains(c) {
                let j = choose|j: int|
                    0 <= j < i && #[trigger] all_boards@[bids@[j]].connectors_id@.contains(c);
                assert(0 <= j < i + 1 && all_boards@[bids@[j]].connectors_id@.contains(c));
            }
            if exists|j: int|
                0 <= j < i + 1 && #[trigger] all_boards@[bids@[j]].connectors_id@.contains(c) {
                let j = choose|j: int|
                    0 <= j < i + 1 && #[trigger] all_boards@[bids@[j]].connectors_id@.contains(c);
                if j == i {
                    assert(cids@.contains(c));
                    assert(cids@.take(cids@.len() as int).contains(c));
                }
            }
        }
        assert forall|j: int, c: u32|
            0 <= j < i + 1 && #[trigger] all_boards@[bids@[j]].connectors_id@.contains(c)
                implies is_connector_of(
                all_connectors@[c],
                c,
                all_boards@[bids@[j]],
                all_cells@,
            ) by {
            if j == i {
                assert(cids@.contains(c));
                assert(cids@.take(cids@.len() as int).contains(c));
                assert(done.contains(c));
            }
        }
    }
    assert forall|c: u32|
        all_connectors@.contains_key(c) <==> all_board_connectors(all_boards@).contains(c) by {
        if all_board_connectors(all_boards@).contains(c) {
            let b = choose|b: u32|
                all_boards@.contains_key(b) && #[trigger] all_boards@[b].connectors_id@.contains(c);
            assert(bids@.contains(b));
            let j = choose|j: int| 0 <= j < bids@.len() && bids@[j] == b;
            assert(all_boards@[bids@[j]].connectors_id@.contains(c));
        }
        if all_connectors@.contains_key(c) {
            let j = choose|j: int|
                0 <= j < bids@.len() && #[trigger] all_boards@[bids@[j]].connectors_id@.contains(c);
            assert(bids@.contains(bids@[j]));
        }
    }
    assert(all_connectors@.dom() =~= all_board_connectors(all_boards@));
    assert forall|b: u32, c: u32|
        all_boards@.contains_key(b) && #[trigger] all_boards@[b].connectors_id@.contains(c)
            implies is_connector_of(all_connectors@[c], c, all_boards@[b], all_cells@) by {
        assert(bids@.contains(b));
        let j = choose|j: int| 0 <= j < bids@.len() && bids@[j] == b;
        assert(all_boards@[bids@[j]].connectors_id@.contains(c));
    }
    all_connectors
}

/// Whether an id names a part that a wire can end at: a connector, interconnect, sensor,
/// actor or board.
pub open spec fn is_part(
    id: u32,
    connectors: Set<u32>,
    interconnects: Set<u32>,
    boards: Set<u32>,
    sensors: Set<u32>,
    actors: Set<u32>,
) -> bool {
    connectors.contains(id) || interconnects.contains(id) || sensors.contains(id)
        || actors.contains(id) || boards.contains(id)
}

/// Whether an edge cell is a wire: both its ends are set and both are parts; an edge with a
/// dangling end is none.
pub open spec fn is_harness_cell(
    c: Cell,
    connectors: Set<u32>,
    interconnects: Set<u32>,
    boards: Set<u32>,
    sensors: Set<u32>,
    actors: Set<u32>,
) -> bool {
    &&& c.vertex_or_edge == VertexOrEdge::Edge
    &&& c.source_id is Some
    &&& c.target_id is Some
    &&& {
        let s = c.source_id.unwrap();
        let t = c.target_id.unwrap();
        &&& is_part(s, connectors, interconnects, boards, sensors, actors)
        &&& is_part(t, connectors, interconnects, boards, sensors, actors)
    }
}

/// The length a wire's `length` property gives, where it has one.
pub open spec fn harness_length(c: Cell) -> Option<u32> {
    match cell_attr(c, "length"@) {
        Some(l) => parse_u32_spec(l),
        None => None,
    }
}

/// Every wire with a `length` property gives a number that fits in `u32`.
pub open spec fn harness_lengths_are_numbers(
    cells: Map<u32, Cell>,
    connectors: Set<u32>,
    interconnects: Set<u32>,
    boards: Set<u32>,
    sensors: Set<u32>,
    actors: Set<u32>,
) -> bool {
    forall|id: u32|
        cells.contains_key(id) && #[trigger] is_harness_cell(
            cells[id],
            connectors,
            interconnects,
            boards,
            sensors,
            actors,
        ) && cell_attr(cells[id], "length"@) is Some ==> harness_length(cells[id]) is Some
}

/// The ids of the wires among the cells.
pub open spec fn harness_cells(
    cells: Map<u32, Cell>,
    connectors: Set<u32>,
    interconnects: Set<u32>,
    boards: Set<u32>,
    sensors: Set<u32>,
    actors: Set<u32>,
) -> Set<u32> {
    Set::new(
        |id: u32|
            cells.contains_key(id) && is_harness_cell(
                cells[id],
                connectors,
                interconnects,
                boards,
                sensors,
                actors,
            ),
    )
}

/// Whether an edge cell is a wire (see `is_harness_cell`).
fn harness_cell(
    cell: &Cell,
    all_connectors: &HashMap<u32, Connector>,
    all_interconnects: &HashMap<u32, Interconnect>,
    all_boards: &HashMap<u32, Board>,
    all_sensors: &HashMap<u32, Sensor>,
    all_actors: &HashMap<u32, Actor>,
) -> (b: bool)
    ensures
        b == is_harness_cell(
            *cell,
            all_connectors@.dom(),
            all_interconnects@.dom(),
            all_boards@.dom(),
            all_sensors@.dom(),
            all_actors@.dom(),
        ),
{
    if cell.vertex_or_edge != VertexOrEdge::Edge {
        return false;
    }
    match (cell.source_id, cell.target_id) {
        (Some(source_id), Some(target_id)) => {
            let source_known = all_connectors.contains_key(&source_id)
                || all_interconnects.contains_key(&source_id) || all_sensors.contains_key(
                &source_id,
            ) || all_actors.contains_key(&source_id) || all_boards.contains_key(&source_id);
            let target_known = all_connectors.contains_key(&target_id)
                || all_interconnects.contains_key(&target_id) || all_sensors.contains_key(
                &target_id,
            ) || all_actors.contains_key(&target_id) || all_boards.contains_key(&target_id);
            source_known && target_known
        },
        _ => false,
    }
}

/// Gathers the wires: the edges whose two ends are parts of the diagram, each with its
/// `length` (in mm) and `harness_kind` properties.
pub fn gather_harnesses(
    all_cells: &HashMap<u32, Cell>,
    all_connectors: &HashMap<u32, Connector>,
    all_interconnects: &HashMap<u32, Interconnect>,
    all_boards: &HashMap<u32, Board>,
    all_sensors: &HashMap<u32, Sensor>,
    all_actors: &HashMap<u32, Actor>,
) -> (all_harnesses: HashMap<u32, Harness>)
    requires
        harness_lengths_are_numbers(
            all_cells@,
            all_connectors@.dom(),
            all_interconnects@.dom(),
            all_boards@.dom(),
            all_sensors@.dom(),
            all_actors@.dom(),
        ),
    ensures
        all_harnesses@.dom() == harness_cells(
            all_cells@,
            all_connectors@.dom(),
            all_interconnects@.dom(),
            all_boards@.dom(),
            all_sensors@.dom(),
            all_actors@.dom(),
        ),
        forall|id: u32|
            #[trigger] all_harnesses@.contains_key(id) <==> {
                &&& all_cells@.contains_key(id)
                &&& all_cells@[id].vertex_or_edge == VertexOrEdge::Edge
                &&& all_cells@[id].source_id is Some
                &&& all_cells@[id].target_id is Some
                &&& {
                    let s = all_cells@[id].source_id.unwrap();
                    all_connectors@.contains_key(s) || all_interconnects@.contains_key(s)
                        || all_sensors@.contains_key(s) || all_actors@.contains_key(s)
                        || all_boards@.contains_key(s)
                }
                &&& {
                    let t = all_cells@[id].target_id.unwrap();
                    all_connectors@.contains_key(t) || all_interconnects@.contains_key(t)
                        || all_sensors@.contains_key(t) || all_actors@.contains_key(t)
                        || all_boards@.contains_key(t)
                }
            },
        forall|id: u32|
            #[trigger] all_harnesses@.contains_key(id) ==> {
                &&& all_harnesses@[id].id == id
                &&& all_harnesses@[id].length == harness_length(all_cells@[id])
                &&& opt_text(all_harnesses@[id].kind) == cell_attr(
                    all_cells@[id],
                    "harness_kind"@,
                )
            },
{
    let mut all_harnesses: HashMap<u32, Harness> = HashMap::new();
    let ids = map_keys(all_cells);
    assert(ids@.take(0) =~= Seq::<u32>::empty());
    for i in 0..ids.len()
        invariant
            ids@.no_duplicates(),
            forall|k: u32| ids@.contains(k) <==> all_cells@.contains_key(k),
            harness_lengths_are_numbers(
                all_cells@,
                all_connectors@.dom(),
                all_interconnects@.dom(),
                all_boards@.dom(),
                all_sensors@.dom(),
                all_actors@.dom(),
            ),
            forall|k: u32|
                all_harnesses@.contains_key(k) <==> (ids@.take(i as int).contains(k)
                    && harness_cells(all_cells@, all_connectors@.dom(), all_interconnects@.dom(), all_boards@.dom(), all_sensors@.dom(), all_actors@.dom()).contains(k)),
            forall|id: u32|
                #[trigger] all_harnesses@.contains_key(id) ==> {
                    &&& all_harnesses@[id].id == id
                    &&& all_harnesses@[id].length == harness_length(all_cells@[id])
                    &&& opt_text(all_harnesses@[id].kind) == cell_attr(
                        all_cells@[id],
                        "harness_kind"@,
                    )
                },
    {
        let id = ids[i];
        assert(ids@.contains(id));
        proof {
            lemma_not_in_prefix(ids@, i as int);
        }
        let ghost before = all_harnesses@;
        let cell = all_cells.get(&id).unwrap();
        if harness_cell(
            cell,
            all_connectors,
            all_interconnects,
            all_boards,
            all_sensors,
            all_actors,
        ) {
            assert(harness_cells(all_cells@, all_connectors@.dom(), all_interconnects@.dom(), all_boards@.dom(), all_sensors@.dom(), all_actors@.dom()).contains(id));
            let length = match get_attr(&cell.object, "length") {
                Some(l) => parse_u32(l.as_str()),
                None => None,
            };
            let kind = match get_attr(&cell.object, "harness_kind") {
                Some(kd) => Some(copy_string(kd)),
                None => None,
            };
            insert_unique(&mut all_harnesses, id, Harness { id, length, kind });
        } else {
            assert(!harness_cells(all_cells@, all_connectors@.dom(), all_interconnects@.dom(), all_boards@.dom(), all_sensors@.dom(), all_actors@.dom()).contains(id));
        }
        proof {
            lemma_collect_step(
                ids@,
                i as int,
                harness_cells(
                    all_cells@,
                    all_connectors@.dom(),
                    all_interconnects@.dom(),
                    all_boards@.dom(),
                    all_sensors@.dom(),
                    all_actors@.dom(),
                ),
                before.dom(),
                all_harnesses@.dom(),
            );
        }
    }
    assert(ids@.take(ids.len() as int) =~= ids@);
    assert(all_harnesses@.dom() =~= harness_cells(all_cells@, all_connectors@.dom(), all_interconnects@.dom(), all_boards@.dom(), all_sensors@.dom(), all_actors@.dom()));
    proof {
        assert forall|id: u32| #[trigger] all_harnesses@.contains_key(id) <==> {
            &&& all_cells@.contains_key(id)
            &&& all_cells@[id].vertex_or_edge == VertexOrEdge::Edge
            &&& all_cells@[id].source_id is Some
            &&& all_cells@[id].target_id is Some
            &&& {
                let s = all_cells@[id].source_id.unwrap();
                all_connectors@.contains_key(s) || all_interconnects@.contains_key(s)
                    || all_sensors@.contains_key(s) || all_actors@.contains_key(s)
                    || all_boards@.contains_key(s)
            }
            &&& {
                let t = all_cells@[id].target_id.unwrap();
                all_connectors@.contains_key(t) || all_interconnects@.contains_key(t)
                    || all_sensors@.contains_key(t) || all_actors@.contains_key(t)
                    || all_boards@.contains_key(t)
            }
        } by {
            lemma_harness_ends(
                all_cells@,
                all_connectors@.dom(),
                all_interconnects@.dom(),
                all_boards@.dom(),
                all_sensors@.dom(),
                all_actors@.dom(),
                id,
            );
        }
    }
    all_harnesses
}

/// Whether a cell is the group of a board: style `group` and property `board_group="1"`.
pub open spec fn is_board_group(c: Cell) -> bool {
    &&& opt_text(c.style) == Some("group"@)
    &&& cell_attr(c, "board_group"@) == Some("1"@)
}

/// Whether a cell is a board: a board group, or a single shape with `type="board"`.
pub open spec fn is_board_cell(c: Cell) -> bool {
    is_board_group(c) || cell_attr(c, "type"@) == Some("board"@)
}

/// The ids of the boards among the cells.
pub open spec fn board_cells(cells: Map<u32, Cell>) -> Set<u32> {
    Set::new(|id: u32| cells.contains_key(id) && is_board_cell(cells[id]))
}

/// What the board of cell `g` is: for a board group, the shape of largest area draws it and
/// names it and the other shapes are its connectors; a single shape with `type="board"` draws
/// and names itself and has no connectors. Either lies in the sections that the layout
/// places the cell `g` in. Areas are compared by the layout's area keys.
pub open spec fn is_board_of(b: Board, cells: Map<u32, Cell>, g: u32, layout: Layout) -> bool {
    let m = b.main_cell_id.unwrap();
    &&& b.main_cell_id is Some
    &&& if is_board_group(cells[g]) {
        &&& is_main_cell(cells, layout, g, m)
        &&& b.connectors_id@ == children(cells, g).remove(m)
    } else {
        &&& m == g
        &&& b.connectors_id@ == Set::<u32>::empty()
    }
    &&& b.oneline_name@ == nice_string(opt_text(cells[m].value))
    &&& b.in_sections@ == placed_in(layout, g)
}

/// The ids of the cells whose parent is `g`.
pub open spec fn children(cells: Map<u32, Cell>, g: u32) -> Set<u32> {
    Set::new(|id: u32| cells.contains_key(id) && cells[id].parent_id == Some(g))
}

/// Whether `m` can be the cell that draws the board of group `g`: one of its shapes, and,
/// where some shape has a positive area, one of largest area (by the layout's area keys).
pub open spec fn is_main_cell(cells: Map<u32, Cell>, layout: Layout, g: u32, m: u32) -> bool {
    &&& children(cells, g).contains(m)
    &&& (exists|c: u32| #[trigger] children(cells, g).contains(c) && area_key(layout, c) > 0)
        ==> area_key(layout, m) > 0 && forall|c: u32|
        #[trigger] children(cells, g).contains(c) ==> area_key(layout, c) <= area_key(layout, m)
}

/// Every board has a geometry, and every board group at least one shape. The sections a
/// board lies in are worked out from its geometry, for a group and for a single shape with
/// `type="board"` alike, as they are for interconnects, sensors and actors; a board without
/// one could not be placed in any section.
pub open spec fn boards_are_drawn(cells: Map<u32, Cell>) -> bool {
    forall|g: u32|
        #[trigger] board_cells(cells).contains(g) ==> cells[g].geometry is Some && (is_board_group(
            cells[g],
        ) ==> exists|c: u32| #[trigger] children(cells, g).contains(c))
}

/// Whether a cell is the group of a board.
fn board_group(cell: &Cell) -> (b: bool)
    ensures
        b == is_board_group(*cell),
{
    let styled = match &cell.style {
        Some(st) => str_eq(st.as_str(), "group"),
        None => false,
    };
    if !styled {
        return false;
    }
    match get_attr(&cell.object, "board_group") {
        Some(flag) => str_eq(flag.as_str(), "1"),
        None => false,
    }
}

/// The ids of the cells whose parent is `g`.
fn children_of(all_cells: &HashMap<u32, Cell>, g: u32) -> (r: HashSet<u32>)
    ensures
        r@ == children(all_cells@, g),
{
    let mut r: HashSet<u32> = HashSet::new();
    let ids = map_keys(all_cells);
    assert(ids@.take(0) =~= Seq::<u32>::empty());
    for i in 0..ids.len()
        invariant
            forall|k: u32| ids@.contains(k) <==> all_cells@.contains_key(k),
            forall|k: u32|
                r@.contains(k) <==> (ids@.take(i as int).contains(k) && children(
                    all_cells@,
                    g,
                ).contains(k)),
    {
        let id = ids[i];
        assert(ids@.contains(id));
        let ghost before = r@;
        let cell = all_cells.get(&id).unwrap();
        let is_child = match cell.parent_id {
            Some(p) => p == g,
            None => false,
        };
        if is_child {
            r.insert(id);
        }
        proof {
            lemma_collect_step(ids@, i as int, children(all_cells@, g), before, r@);
        }
    }
    assert(ids@.take(ids.len() as int) =~= ids@);
    assert(r@ =~= children(all_cells@, g));
    r
}

/// The shape that draws the board of group `g`: of its shapes, the first found with the
/// largest area, where some area is positive; otherwise the first shape found.
fn main_cell(all_cells: &HashMap<u32, Cell>, layout: &Layout, g: u32, shapes: &HashSet<u32>) -> (m: u32)
    requires
        shapes@ == children(all_cells@, g),
        exists|c: u32| #[trigger] children(all_cells@, g).contains(c),
    ensures
        is_main_cell(all_cells@, *layout, g, m),
{
    let es = set_elements(shapes);
    let ghost witness = choose|c: u32| #[trigger] children(all_cells@, g).contains(c);
    assert(es@.contains(witness));
    let mut max_id = es[0];
    assert(es@.contains(max_id));
    let mut max_area: u64 = 0;
    for k in 0..es.len()
        invariant
            forall|c: u32| es@.contains(c) <==> children(all_cells@, g).contains(c),
            es@.len() > 0,
            es@.contains(max_id),
            max_area > 0 ==> area_key(*layout, max_id) == max_area,
            forall|j: int| 0 <= j < k ==> area_key(*layout, #[trigger] es@[j]) <= max_area,
    {
        let c = es[k];
        assert(es@.contains(c));
        let area = area_key_of(layout, c);
        if area > max_area {
            max_area = area;
            max_id = c;
        }
    }
    proof {
        assert forall|c: u32| #[trigger] children(all_cells@, g).contains(c) implies area_key(
            *layout,
            c,
        ) <= max_area by {
            assert(es@.contains(c));
            let j = choose|j: int| 0 <= j < es@.len() && es@[j] == c;
        }
    }
    max_id
}

/// Gathers the boards: each group with style `group` and property `board_group="1"` is a
/// board whose shape of largest area (by the layout's area keys) draws and names it and
/// whose other shapes are its connectors; a shape with `type="board"` that is no such group
/// is a board by itself.
pub fn gather_boards(
    all_cells: &HashMap<u32, Cell>,
    layout: &Layout,
) -> (all_boards: HashMap<u32, Board>)
    requires
        boards_are_drawn(all_cells@),
    ensures
        all_boards@.dom() == board_cells(all_cells@),
        forall|g: u32|
            #[trigger] all_boards@.contains_key(g) <==> {
                &&& all_cells@.contains_key(g)
                &&& {
                    ||| opt_text(all_cells@[g].style) == Some("group"@) && cell_attr(
                        all_cells@[g],
                        "board_group"@,
                    ) == Some("1"@)
                    ||| cell_attr(all_cells@[g], "type"@) == Some("board"@)
                }
            },
        forall|g: u32|
            #[trigger] all_boards@.contains_key(g) ==> is_board_of(
                all_boards@[g],
                all_cells@,
                g,
                *layout,
            ),
        boards_fit_cells(all_boards@, all_cells@),
{
    let mut all_boards: HashMap<u32, Board> = HashMap::new();
    let ids = map_keys(all_cells);
    assert(ids@.take(0) =~= Seq::<u32>::empty());
    for i in 0..ids.len()
        invariant
            ids@.no_duplicates(),
            forall|k: u32| ids@.contains(k) <==> all_cells@.contains_key(k),
            boards_are_drawn(all_cells@),
            forall|k: u32|
                all_boards@.contains_key(k) <==> (ids@.take(i as int).contains(k)
                    && board_cells(all_cells@).contains(k)),
            forall|g: u32|
                #[trigger] all_boards@.contains_key(g) ==> is_board_of(
                    all_boards@[g],
                    all_cells@,
                    g,
                    *layout,
                ),
    {
        let id = ids[i];
        assert(ids@.contains(id));
        let ghost before = all_boards@;
        let cell = all_cells.get(&id).unwrap();
        let group = board_group(cell);
        if group || has_type(cell, "board") {
            assert(board_cells(all_cells@).contains(id));
            match &cell.geometry {
                Some(geom) => {
                    let board = if group {
                        let mut connectors = children_of(all_cells, id);
                        let max_id = main_cell(all_cells, layout, id, &connectors);
                        connectors.remove(&max_id);
                        let oneline_name = to_nice_string(
                            as_opt_str(&all_cells.get(&max_id).unwrap().value),
                        );
                        Board {
                            main_cell_id: Some(max_id),
                            connectors_id: connectors,
                            oneline_name,
                            in_sections: sections_of(layout, id),
                        }
                    } else {
                        Board {
                            main_cell_id: Some(id),
                            connectors_id: HashSet::new(),
                            oneline_name: to_nice_string(as_opt_str(&cell.value)),
                            in_sections: sections_of(layout, id),
                        }
                    };
                    assert(is_board_of(board, all_cells@, id, *layout));
                    all_boards.insert(id, board);
                },
                None => {},
            }
        }
        proof {
            lemma_collect_step(ids@, i as int, board_cells(all_cells@), before.dom(), all_boards@.dom());
        }
    }
    assert(ids@.take(ids.len() as int) =~= ids@);
    assert(all_boards@.dom() =~= board_cells(all_cells@));
    proof {
        lemma_boards_fit_cells(all_boards@, all_cells@, *layout);
    }
    proof {
        assert forall|g: u32| #[trigger] all_boards@.contains_key(g) <==> {
            &&& all_cells@.contains_key(g)
            &&& {
                ||| opt_text(all_cells@[g].style) == Some("group"@) && cell_attr(
                    all_cells@[g],
                    "board_group"@,
                ) == Some("1"@)
                ||| cell_attr(all_cells@[g], "type"@) == Some("board"@)
            }
        } by {
            lemma_board_marks(all_cells@, g);
        }
    }
    all_boards
}

/// Boards as `gather_boards` makes them fit their cells: their connectors are cells, a board
/// with connectors has a main cell, and no connector belongs to two boards (a cell has one
/// parent).
pub proof fn lemma_boards_fit_cells(
    boards: Map<u32, Board>,
    cells: Map<u32, Cell>,
    layout: Layout,
)
    requires
        forall|g: u32|
            #[trigger] boards.contains_key(g) ==> is_board_of(boards[g], cells, g, layout),
    ensures
        boards_fit_cells(boards, cells),
{
    assert forall|b: u32, c: u32|
        boards.contains_key(b) && #[trigger] boards[b].connectors_id@.contains(c) implies cells.contains_key(c)
            && boards[b].main_cell_id is Some by {
        assert(is_board_of(boards[b], cells, b, layout));
        if is_board_group(cells[b]) {
            assert(children(cells, b).contains(c));
        }
    }
    assert forall|b1: u32, b2: u32, c: u32|
        boards.contains_key(b1) && boards.contains_key(b2) && b1 != b2
            && #[trigger] boards[b1].connectors_id@.contains(c) implies !#[trigger] boards[b2].connectors_id@.contains(c) by {
        assert(is_board_of(boards[b1], cells, b1, layout));
        assert(is_board_of(boards[b2], cells, b2, layout));
        if boards[b2].connectors_id@.contains(c) {
            if is_board_group(cells[b1]) && is_board_group(cells[b2]) {
                assert(children(cells, b1).contains(c));
                assert(children(cells, b2).contains(c));
            }
        }
    }
}

/// A board group's shapes split into the shape that draws the board and its connectors: the
/// drawing shape is no connector, every other shape is one, and no connector is larger than
/// the drawing shape where some shape has a positive area.
pub proof fn lemma_board_shapes(b: Board, cells: Map<u32, Cell>, g: u32, layout: Layout, c: u32)
    requires
        is_board_of(b, cells, g, layout),
        is_board_group(cells[g]),
    ensures
        !b.connectors_id@.contains(b.main_cell_id.unwrap()),
        children(cells, g).contains(c) ==> (c == b.main_cell_id.unwrap() || b.connectors_id@.contains(c)),
        b.connectors_id@.contains(c) ==> children(cells, g).contains(c),
        b.connectors_id@.contains(c) && area_key(layout, b.main_cell_id.unwrap()) > 0 ==> area_key(layout, c) <= area_key(layout, b.main_cell_id.unwrap()),
{
    let m = b.main_cell_id.unwrap();
    if b.connectors_id@.contains(c) && area_key(layout, m) <= 0 {
    }
    if b.connectors_id@.contains(c) && area_key(layout, m) > 0 {
        assert(children(cells, g).contains(m));
        assert(children(cells, g).contains(c));
    }
}

// ---------------------------------------------------------------------------
// Checks of what the gathering functions need
// ---------------------------------------------------------------------------
/// Whether every cell that marks a section has a geometry.
pub fn section_markers_placed(all_cells: &HashMap<u32, Cell>) -> (b: bool)
    ensures
        b == section_markers_have_geometry(all_cells@),
{
    let ids = map_keys(all_cells);
    for i in 0..ids.len()
        invariant
            forall|k: u32| ids@.contains(k) <==> all_cells@.contains_key(k),
            forall|j: int|
                0 <= j < i ==> (#[trigger] section_marker_cells(all_cells@).contains(ids@[j])
                    ==> all_cells@[ids@[j]].geometry is Some),
    {
        let id = ids[i];
        assert(ids@.contains(id));
        let cell = all_cells.get(&id).unwrap();
        if get_attr(&cell.object, "section_marker").is_some() && cell.geometry.is_none() {
            assert(section_marker_cells(all_cells@).contains(id));
            return false;
        }
    }
    assert forall|id: u32| #[trigger] section_marker_cells(all_cells@).contains(id) implies all_cells@[id].geometry is Some by {
        assert(ids@.contains(id));
        let j = choose|j: int| 0 <= j < ids@.len() && ids@[j] == id;
        assert(section_marker_cells(all_cells@).contains(ids@[j]));
    }
    true
}

/// Whether every cell whose object has `type` set to `t` has a geometry.
pub fn typed_cells_placed(all_cells: &HashMap<u32, Cell>, t: &str) -> (b: bool)
    ensures
        b == typed_cells_have_geometry(all_cells@, t@),
{
    let ids = map_keys(all_cells);
    for i in 0..ids.len()
        invariant
            forall|k: u32| ids@.contains(k) <==> all_cells@.contains_key(k),
            forall|j: int|
                0 <= j < i ==> (#[trigger] cells_of_type(all_cells@, t@).contains(ids@[j])
                    ==> all_cells@[ids@[j]].geometry is Some),
    {
        let id = ids[i];
        assert(ids@.contains(id));
        let cell = all_cells.get(&id).unwrap();
        if has_type(cell, t) && cell.geometry.is_none() {
            assert(cells_of_type(all_cells@, t@).contains(id));
            return false;
        }
    }
    assert forall|id: u32| #[trigger] cells_of_type(all_cells@, t@).contains(id) implies all_cells@[id].geometry is Some by {
        assert(ids@.contains(id));
        let j = choose|j: int| 0 <= j < ids@.len() && ids@[j] == id;
        assert(cells_of_type(all_cells@, t@).contains(ids@[j]));
    }
    true
}

/// Whether every board has a geometry and every board group at least one shape.
pub fn boards_placed(all_cells: &HashMap<u32, Cell>) -> (b: bool)
    ensures
        b == boards_are_drawn(all_cells@),
{
    let ids = map_keys(all_cells);
    for i in 0..ids.len()
        invariant
            forall|k: u32| ids@.contains(k) <==> all_cells@.contains_key(k),
            forall|j: int|
                0 <= j < i ==> (#[trigger] board_cells(all_cells@).contains(ids@[j]) ==> all_cells@[ids@[j]].geometry is Some && (is_board_group(all_cells@[ids@[j]]) ==> exists|c: u32| #[trigger] children(all_cells@, ids@[j]).contains(c))),
    {
        let id = ids[i];
        assert(ids@.contains(id));
        let cell = all_cells.get(&id).unwrap();
        let group = board_group(cell);
        if group || has_type(cell, "board") {
            assert(board_cells(all_cells@).contains(id));
            if cell.geometry.is_none() {
                return false;
            }
            if group {
                let shapes = set_elements(&children_of(all_cells, id));
                if shapes.len() == 0 {
                    assert forall|c: u32| !#[trigger] children(all_cells@, id).contains(c) by {
                        if children(all_cells@, id).contains(c) {
                            assert(shapes@.contains(c));
                        }
                    }
                    return false;
                }
                assert(shapes@.contains(shapes@[0]));
                assert(children(all_cells@, id).contains(shapes@[0]));
            }
        }
    }
    assert forall|g: u32| #[trigger] board_cells(all_cells@).contains(g) implies all_cells@[g].geometry is Some && (is_board_group(all_cells@[g]) ==> exists|c: u32| #[trigger] children(all_cells@, g).contains(c)) by {
        assert(ids@.contains(g));
        let j = choose|j: int| 0 <= j < ids@.len() && ids@[j] == g;
        assert(board_cells(all_cells@).contains(ids@[j]));
    }
    true
}

/// Whether every wire with a `length` property gives a number that fits in `u32`.
pub fn harness_lengths_valid(
    all_cells: &HashMap<u32, Cell>,
    all_connectors: &HashMap<u32, Connector>,
    all_interconnects: &HashMap<u32, Interconnect>,
    all_boards: &HashMap<u32, Board>,
    all_sensors: &HashMap<u32, Sensor>,
    all_actors: &HashMap<u32, Actor>,
) -> (b: bool)
    ensures
        b == harness_lengths_are_numbers(
            all_cells@,
            all_connectors@.dom(),
            all_interconnects@.dom(),
            all_boards@.dom(),
            all_sensors@.dom(),
            all_actors@.dom(),
        ),
{
    let ids = map_keys(all_cells);
    for i in 0..ids.len()
        invariant
            forall|k: u32| ids@.contains(k) <==> all_cells@.contains_key(k),
            forall|j: int|
                0 <= j < i ==> (#[trigger] is_harness_cell(
                    all_cells@[ids@[j]],
                    all_connectors@.dom(),
                    all_interconnects@.dom(),
                    all_boards@.dom(),
                    all_sensors@.dom(),
                    all_actors@.dom(),
                ) && cell_attr(all_cells@[ids@[j]], "length"@) is Some ==> harness_length(
                    all_cells@[ids@[j]],
                ) is Some),
    {
        let id = ids[i];
        assert(ids@.contains(id));
        let cell = all_cells.get(&id).unwrap();
        if harness_cell(cell, all_connectors, all_interconnects, all_boards, all_sensors, all_actors) {
            match get_attr(&cell.object, "length") {
                Some(l) => {
                    if parse_u32(l.as_str()).is_none() {
                        return false;
                    }
                },
                None => {},
            }
        }
    }
    assert forall|id: u32|
        all_cells@.contains_key(id) && #[trigger] is_harness_cell(
            all_cells@[id],
            all_connectors@.dom(),
            all_interconnects@.dom(),
            all_boards@.dom(),
            all_sensors@.dom(),
            all_actors@.dom(),
        ) && cell_attr(all_cells@[id], "length"@) is Some implies harness_length(all_cells@[id]) is Some by {
        assert(ids@.contains(id));
        let j = choose|j: int| 0 <= j < ids@.len() && ids@[j] == id;
        assert(is_harness_cell(
            all_cells@[ids@[j]],
            all_connectors@.dom(),
            all_interconnects@.dom(),
            all_boards@.dom(),
            all_sensors@.dom(),
            all_actors@.dom(),
        ));
    }
    true
}

/// An edge is a wire exactly when both its ends are set and each end is the id of a
/// connector, an interconnect, a sensor, an actor or a board.
pub proof fn lemma_harness_ends(
    cells: Map<u32, Cell>,
    connectors: Set<u32>,
    interconnects: Set<u32>,
    boards: Set<u32>,
    sensors: Set<u32>,
    actors: Set<u32>,
    id: u32,
)
    ensures
        harness_cells(cells, connectors, interconnects, boards, sensors, actors).contains(id) <==> {
            &&& cells.contains_key(id)
            &&& cells[id].vertex_or_edge == VertexOrEdge::Edge
            &&& cells[id].source_id is Some
            &&& cells[id].target_id is Some
            &&& {
                let s = cells[id].source_id.unwrap();
                connectors.contains(s) || interconnects.contains(s) || sensors.contains(s)
                    || actors.contains(s) || boards.contains(s)
            }
            &&& {
                let t = cells[id].target_id.unwrap();
                connectors.contains(t) || interconnects.contains(t) || sensors.contains(t)
                    || actors.contains(t) || boards.contains(t)
            }
        },
{
}

/// A cell is a board exactly when it is a group (style `group`) whose object has
/// `board_group="1"`, or its object has `type="board"`.
pub proof fn lemma_board_marks(cells: Map<u32, Cell>, g: u32)
    ensures
        board_cells(cells).contains(g) <==> {
            &&& cells.contains_key(g)
            &&& {
                ||| opt_text(cells[g].style) == Some("group"@) && cell_attr(cells[g], "board_group"@)
                    == Some("1"@)
                ||| cell_attr(cells[g], "type"@) == Some("board"@)
            }
        },
{
}

} // verus!
