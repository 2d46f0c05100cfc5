# drawio_parser

Reads a system overview diagram drawn in drawio (exported as uncompressed XML) and collects
its parts: sections, boards with their connectors, interconnects, sensors, actors and the
wires (harnesses) between them. Parts are told apart by drawio properties such as
`section_marker`, `board_group="1"`, `type="sensor"`, `harness_kind` and `length`.

The library is written in Verus. Every function in `src/` carries a contract; Verus proves
all of them except the few trusted wrappers around quick-xml and std (in `src/xml.rs`, and
`String::push` in `src/text.rs`), whose contracts are believed as their documentation and
source show them.

- `src/xml.rs`: the boundary to quick-xml (reader events, attributes, unescaping), with the
  contracts trusted there.
- `src/diagram.rs`: reading the `mxCell`, `object` and `mxGeometry` elements into cells,
  as a state machine over reader events, with the errors a malformed diagram raises.
- `src/text.rs`: turning an HTML label into one line of visible text.
- `src/numbers.rs`: integers, and which texts are numbers as float parsing reads them.
- `src/types.rs`, `src/helpers.rs`: the part types, geometries (kept as the texts of their
  coordinates), and the layout that the floating-point geometry gives.
- `src/gather.rs`: collecting the parts from the cells, and the checks a diagram must pass
  before each step.
- `app/`: the command-line program that reads a file and prints what was found; it also
  does the floating-point arithmetic on coordinates (areas, overlaps) and hands the results
  to the library as a `Layout`.
