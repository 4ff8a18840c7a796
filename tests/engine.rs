use graph_tui::app::load_node_catalog_default;
use graph_tui::edge::Edge;
use graph_tui::emit::{render_inline_table, render_non_table_rhs, rhs_from_document};
use graph_tui::graph::{apply_render_hint, incoming_edge_labels, outgoing_edge_labels, resolve_param, Graph};
use graph_tui::literal::Literal;
use graph_tui::node_builder::{
    NodeInstance, NodeTypeCatalog, NodeTypeDef, NodeTypesSection, ParamDef, ParamSource, ParamType,
    RenderHint, ValueType,
};
use graph_tui::parse::{parse_param_value, parse_toml_value, split_list_parts, unquote, ParseError};

fn s(x: &str) -> String {
    x.to_string()
}

fn def(kind: ParamType) -> ParamDef {
    ParamDef { kind, value_type: None, len: None, source: None, render: None }
}

fn edge(id: u64, from: u64, to: u64, label: &str) -> Edge {
    Edge { id, from, to, label: s(label) }
}

fn scenario_graph() -> Graph {
    let mut g = Graph::new();
    g.add_node(NodeInstance::new(1, s("cstr"), s("lane1.t1")));
    g.add_node(NodeInstance::new(2, s("sensor"), s("lane1.t1_sensor")));
    g.add_edge(edge(1, 1, 2, "lane1_t1_out"));
    g
}

#[test]
fn units_toml_matches_ltp_shape_for_len1_io_and_coords() {
    let catalog = load_node_catalog_default();
    let mut g = Graph::new();

    let mut n1 = NodeInstance::new(1, s("cstr"), s("lane1.t1"));
    let coords = vec![(s("x"), Literal::Float(s("0.0"))), (s("y"), Literal::Float(s("0.0")))];
    n1.values.push((s("coords"), Literal::Table(coords)));
    g.add_node(n1);

    let n2 = NodeInstance::new(2, s("sensor"), s("lane1.t1_sensor"));
    g.add_node(n2);

    g.add_edge(edge(1, 1, 2, "lane1_t1_out"));

    let out = g.to_template_toml_string(&catalog).unwrap();
    let parsed: toml::Value = toml::from_str(&out).expect("output is valid toml");
    let root_key = catalog.format.as_ref().map(|f| f.root.as_str()).unwrap_or("units");
    let root = parsed.get(root_key).and_then(|v| v.as_table()).expect("root table");

    let cstr_entries = root.get("cstr").and_then(|v| v.as_array()).expect("cstr array");
    let c0 = cstr_entries[0].as_table().expect("cstr table");

    assert_eq!(c0.get("name").and_then(|v| v.as_str()), Some("lane1.t1"));
    let out_val = c0.get("out");
    assert_eq!(
        out_val.and_then(|v| v.as_str()),
        Some("lane1_t1_out"),
        "unexpected out value: {out_val:?}\nTOML:\n{out}"
    );
    let coords = c0.get("coords").and_then(|v| v.as_table()).expect("coords table");
    assert!(coords.get("x").unwrap().as_float().unwrap() == 0.0);

    let sensor_entries = root.get("sensor").and_then(|v| v.as_array()).expect("sensor array");
    let s0 = sensor_entries[0].as_table().expect("sensor table");
    let in_val = s0.get("in");
    assert_eq!(
        in_val.and_then(|v| v.as_str()),
        Some("lane1_t1_out"),
        "unexpected in value: {in_val:?}\nTOML:\n{out}"
    );
}

#[test]
fn end_to_end_scenario_text() {
    let catalog = load_node_catalog_default();
    let out = scenario_graph().to_template_toml_string(&catalog).unwrap();
    assert_eq!(
        out,
        "[units]\n\n[[units.cstr]]\nname = \"lane1.t1\"\nout = \"lane1_t1_out\"\n\n[[units.sensor]]\nin = \"lane1_t1_out\"\n\n"
    );
}

#[test]
fn emission_is_independent_of_insertion_order() {
    let catalog = load_node_catalog_default();
    let mut g = Graph::new();
    g.add_edge(edge(1, 1, 2, "lane1_t1_out"));
    g.add_node(NodeInstance::new(2, s("sensor"), s("lane1.t1_sensor")));
    g.add_node(NodeInstance::new(1, s("cstr"), s("lane1.t1")));
    let a = g.to_template_toml_string(&catalog).unwrap();
    let b = scenario_graph().to_template_toml_string(&catalog).unwrap();
    assert_eq!(a, b);
    assert_eq!(a, scenario_graph().to_template_toml_string(&catalog).unwrap());
}

#[test]
fn records_of_a_type_follow_node_ids() {
    let catalog = load_node_catalog_default();
    let mut g = Graph::new();
    g.add_node(NodeInstance::new(3, s("sensor"), s("c")));
    g.add_node(NodeInstance::new(1, s("sensor"), s("a")));
    g.add_edge(edge(1, 9, 3, "to_three"));
    g.add_edge(edge(2, 9, 1, "to_one"));
    let out = g.to_template_toml_string(&catalog).unwrap();
    assert_eq!(
        out,
        "[units]\n\n[[units.sensor]]\nin = \"to_one\"\n\n[[units.sensor]]\nin = \"to_three\"\n\n"
    );
}

#[test]
fn explicit_value_wins_over_source() {
    let g = scenario_graph();
    let mut node = NodeInstance::new(1, s("cstr"), s("lane1.t1"));
    node.values.push((s("name"), Literal::Str(s("typed"))));
    let d = ParamDef { source: Some(ParamSource::NodeLabel), ..def(ParamType::String) };
    assert_eq!(resolve_param(&g, &node, &s("name"), &d), Some(Literal::Str(s("typed"))));
    let plain = NodeInstance::new(1, s("cstr"), s("lane1.t1"));
    assert_eq!(resolve_param(&g, &plain, &s("name"), &d), Some(Literal::Str(s("lane1.t1"))));
    assert_eq!(resolve_param(&g, &plain, &s("other"), &def(ParamType::String)), None);
}

#[test]
fn list_of_one_collapses_unless_list_hint() {
    let x = Literal::Str(s("x"));
    let len1 = ParamDef { len: Some(1), ..def(ParamType::List) };
    assert_eq!(apply_render_hint(Literal::List(vec![x.duplicate()]), Some(&len1)), x.duplicate());
    let as_list = ParamDef { render: Some(RenderHint::List), ..len1 };
    assert_eq!(
        apply_render_hint(Literal::List(vec![x.duplicate()]), Some(&as_list)),
        Literal::List(vec![x.duplicate()])
    );
    assert_eq!(apply_render_hint(x.duplicate(), Some(&as_list)), Literal::List(vec![x.duplicate()]));
    let scalar = ParamDef { render: Some(RenderHint::Scalar), ..def(ParamType::String) };
    let two = Literal::List(vec![x.duplicate(), x.duplicate()]);
    assert_eq!(apply_render_hint(two.duplicate(), Some(&scalar)), two);
    assert_eq!(apply_render_hint(x.duplicate(), None), x);
}

#[test]
fn incoming_labels_follow_edge_ids() {
    let mut g = Graph::new();
    g.add_edge(edge(3, 7, 5, "c"));
    g.add_edge(edge(1, 8, 5, "a"));
    g.add_edge(edge(2, 5, 9, "out"));
    g.add_edge(edge(2, 6, 5, "b"));
    assert_eq!(incoming_edge_labels(&g, 5), vec![s("a"), s("b"), s("c")]);
    assert_eq!(outgoing_edge_labels(&g, 5), vec![s("out")]);
    assert_eq!(incoming_edge_labels(&g, 4), Vec::<String>::new());
}

#[test]
fn list_parsing_splits_and_typed_points() {
    let list = ParamDef { value_type: Some(ValueType::String), ..def(ParamType::List) };
    assert_eq!(
        parse_param_value("a, b, c", &list),
        Ok(Literal::List(vec![Literal::Str(s("a")), Literal::Str(s("b")), Literal::Str(s("c"))]))
    );
    let table = ParamDef { value_type: Some(ValueType::Float), ..def(ParamType::Table) };
    assert_eq!(
        parse_param_value("1 2", &table),
        Ok(Literal::Table(vec![(s("x"), Literal::Float(s("1.0"))), (s("y"), Literal::Float(s("2.0")))]))
    );
}

#[test]
fn list_length_is_checked() {
    let d = ParamDef { len: Some(2), ..def(ParamType::List) };
    assert_eq!(parse_param_value("1,2,3", &d), Err(ParseError::ExpectedListLength(2)));
    assert_eq!(
        parse_param_value("1,2", &d),
        Ok(Literal::List(vec![Literal::Int(1), Literal::Int(2)]))
    );
}

#[test]
fn parse_errors_by_kind() {
    assert_eq!(parse_param_value("abc", &def(ParamType::Float)), Err(ParseError::ExpectedFloat));
    assert_eq!(parse_param_value("yes", &def(ParamType::Bool)), Err(ParseError::ExpectedBool));
    assert_eq!(parse_param_value("True", &def(ParamType::Bool)), Err(ParseError::ExpectedBool));
    assert_eq!(parse_param_value("false", &def(ParamType::Bool)), Ok(Literal::Bool(false)));
    assert_eq!(parse_param_value(" , ", &def(ParamType::List)), Err(ParseError::ExpectedList));
    let bools = ParamDef { value_type: Some(ValueType::Bool), ..def(ParamType::List) };
    assert_eq!(parse_param_value("[true, 1]", &bools), Err(ParseError::ListTypeMismatch));
    let floats = ParamDef { value_type: Some(ValueType::Float), ..def(ParamType::List) };
    assert_eq!(parse_param_value("1, x", &floats), Err(ParseError::ExpectedFloat));
    assert!(matches!(parse_param_value("=", &def(ParamType::Table)), Err(ParseError::Malformed(_))));
}

#[test]
fn scalars_and_tables_parse() {
    assert_eq!(parse_param_value(" keep ", &def(ParamType::String)), Ok(Literal::Str(s(" keep "))));
    assert_eq!(parse_param_value("1", &def(ParamType::Float)), Ok(Literal::Float(s("1.0"))));
    assert_eq!(parse_param_value("2.5", &def(ParamType::Float)), Ok(Literal::Float(s("2.5"))));
    assert_eq!(
        parse_param_value("a = 1", &def(ParamType::Table)),
        Ok(Literal::Table(vec![(s("a"), Literal::Int(1))]))
    );
    assert_eq!(
        parse_param_value("{ b = true }", &def(ParamType::Table)),
        Ok(Literal::Table(vec![(s("b"), Literal::Bool(true))]))
    );
    let floats = ParamDef { value_type: Some(ValueType::Float), ..def(ParamType::List) };
    assert_eq!(
        parse_param_value("[1, 2.5]", &floats),
        Ok(Literal::List(vec![Literal::Int(1), Literal::Float(s("2.5"))]))
    );
    let any = ParamDef { value_type: Some(ValueType::Any), ..def(ParamType::List) };
    assert_eq!(
        parse_param_value("\"q\" w", &any),
        Ok(Literal::List(vec![Literal::Str(s("q")), Literal::Str(s("w"))]))
    );
}

#[test]
fn toml_values_are_read() {
    assert_eq!(parse_toml_value("[1, 2]"), Ok(Literal::List(vec![Literal::Int(1), Literal::Int(2)])));
    assert_eq!(parse_toml_value("\"hi\""), Ok(Literal::Str(s("hi"))));
    assert!(matches!(parse_toml_value("nope nope"), Err(ParseError::Malformed(_))));
}

#[test]
fn list_parts_and_unquote() {
    assert_eq!(split_list_parts(" a ,, b ,"), vec![s("a"), s("b")]);
    assert_eq!(split_list_parts("  x  y\tz "), vec![s("x"), s("y"), s("z")]);
    assert_eq!(split_list_parts("   "), Vec::<String>::new());
    assert_eq!(unquote("  \"in\"  "), s("in"));
    assert_eq!(unquote("\""), s("\""));
    assert_eq!(unquote(" plain "), s("plain"));
}

#[test]
fn literal_text_rendering() {
    assert_eq!(render_non_table_rhs(&Literal::Str(s("hi"))), Ok(s("\"hi\"")));
    assert_eq!(render_non_table_rhs(&Literal::Int(-4)), Ok(s("-4")));
    assert_eq!(render_non_table_rhs(&Literal::Float(s("0.0"))), Ok(s("0.0")));
    assert_eq!(render_non_table_rhs(&Literal::Bool(true)), Ok(s("true")));
    assert_eq!(
        render_non_table_rhs(&Literal::List(vec![Literal::Int(1), Literal::Str(s("a"))])),
        Ok(s("[1, \"a\"]"))
    );
    let t = vec![(s("y"), Literal::Int(2)), (s("x"), Literal::Table(vec![(s("b"), Literal::Int(1))]))];
    assert_eq!(render_inline_table(&t), Ok(s("{ x = { b = 1 }, y = 2 }")));
    assert_eq!(render_inline_table(&Vec::new()), Ok(s("{  }")));
    assert!(render_non_table_rhs(&Literal::List(vec![Literal::Table(vec![])])).is_err());
}

#[test]
fn unknown_type_keeps_its_values() {
    let catalog = load_node_catalog_default();
    let mut g = Graph::new();
    let mut n = NodeInstance::new(4, s("valve"), s("v1"));
    n.values.push((s("z"), Literal::Int(1)));
    n.values.push((s("a"), Literal::Str(s("q"))));
    g.add_node(n);
    g.add_edge(edge(1, 4, 4, "loop"));
    let out = g.to_template_toml_string(&catalog).unwrap();
    assert_eq!(out, "[units]\n\n[[units.valve]]\na = \"q\"\nz = 1\n\n");
}

#[test]
fn explicit_key_order_is_used() {
    let params = vec![
        (s("b"), ParamDef { source: Some(ParamSource::NodeLabel), ..def(ParamType::String) }),
        (s("a"), ParamDef { source: Some(ParamSource::IncomingEdgeLabels), ..def(ParamType::List) }),
        (s("c"), ParamDef { source: Some(ParamSource::OutgoingEdgeLabel { index: Some(1) }), ..def(ParamType::String) }),
    ];
    let catalog = NodeTypeCatalog {
        format: None,
        nodes: NodeTypesSection {
            types: vec![(s("t"), NodeTypeDef { order: Some(vec![s("b"), s("zz")]), params })],
        },
    };
    let mut g = Graph::new();
    g.add_node(NodeInstance::new(1, s("t"), s("n")));
    g.add_edge(edge(1, 1, 2, "o1"));
    g.add_edge(edge(2, 1, 2, "o2"));
    let out = g.to_template_toml_string(&catalog).unwrap();
    assert_eq!(out, "[units]\n\n[[units.t]]\nb = \"n\"\na = []\nc = \"o2\"\n\n");
}

#[test]
fn graph_ids_and_lookup() {
    let mut g = Graph::new();
    assert_eq!(g.get_new_node_id(), 1);
    g.add_node(NodeInstance::new(5, s("t"), s("a")));
    g.add_node(NodeInstance::new(2, s("t"), s("b")));
    assert_eq!(g.get_new_node_id(), 6);
    assert_eq!(g.get_node(2).map(|n| n.label.clone()), Some(s("b")));
    assert!(g.get_node(3).is_none());
    g.add_edge(edge(1, 5, 2, "e"));
    assert_eq!(g.get_edge(1).map(|e| e.label.clone()), Some(s("e")));
    assert!(g.get_edge(2).is_none());
}

#[test]
fn root_name_comes_from_format() {
    let mut catalog = load_node_catalog_default();
    catalog.format = Some(graph_tui::node_builder::FormatSpec { root: s("plant"), tables: Vec::new() });
    let doc = scenario_graph().to_template_toml_value(&catalog);
    match doc {
        Literal::Table(entries) => {
            assert_eq!(entries.len(), 1);
            assert_eq!(entries[0].0, "plant");
        }
        _ => panic!("document is a table"),
    }
    let out = scenario_graph().to_template_toml_string(&catalog).unwrap();
    assert!(out.starts_with("[plant]\n\n[[plant.cstr]]\n"));
}

#[test]
fn extra_tables_come_first_as_toml_writes_them() {
    let mut catalog = load_node_catalog_default();
    catalog.format = Some(graph_tui::node_builder::FormatSpec {
        root: s("units"),
        tables: vec![
            (s("sim"), Literal::Table(vec![(s("dt"), Literal::Float(s("0.5")))])),
            (s("version"), Literal::Int(2)),
        ],
    });
    let out = scenario_graph().to_template_toml_string(&catalog).unwrap();
    assert_eq!(
        out,
        "version = 2\n\n[sim]\ndt = 0.5\n\n[units]\n\n[[units.cstr]]\nname = \"lane1.t1\"\nout = \"lane1_t1_out\"\n\n[[units.sensor]]\nin = \"lane1_t1_out\"\n\n"
    );
    let parsed: toml::Value = toml::from_str(&out).expect("output is valid toml");
    assert_eq!(parsed.get("version").and_then(|v| v.as_integer()), Some(2));
}

#[test]
fn right_hand_side_taken_from_written_entry() {
    assert_eq!(rhs_from_document(&s("v = 1\n")), Ok(s("1")));
    assert_eq!(rhs_from_document(&s("v = \"a b\"\r\nw = 2\n")), Ok(s("\"a b\"")));
    assert!(rhs_from_document(&s("")).is_err());
    assert!(rhs_from_document(&s("[[v]]\nx = 1\n")).is_err());
}

#[test]
fn render_failures_have_one_message() {
    let bad = Literal::List(vec![Literal::Table(vec![])]);
    assert_eq!(render_non_table_rhs(&bad), Err(s("failed to render value")));
    assert_eq!(
        render_inline_table(&vec![(s("b"), bad.duplicate()), (s("a"), Literal::Int(1))]),
        Err(s("failed to render value"))
    );
    let catalog = load_node_catalog_default();
    let mut g = Graph::new();
    let mut n = NodeInstance::new(1, s("valve"), s("v"));
    n.values.push((s("rows"), bad));
    g.add_node(n);
    assert_eq!(g.to_template_toml_string(&catalog), Err(s("failed to render value")));
    assert_eq!(g.to_units_toml_string(&catalog), Err(s("failed to render value")));
}
