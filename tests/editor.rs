use graph_tui::app::{
    apply_list_value, node_type_keys, update_node_io, App, CurrentScreen, CurrentlyEditing, Key,
    NodeEditState, NodeEditorMode,
};
use graph_tui::literal::Literal;
use graph_tui::node_builder::{NodeInstance, NodeTypeDef, ParamDef, ParamType};
use graph_tui::parse::ParseError;
use graph_tui::tui::{param_format_hint, Tui};

fn s(x: &str) -> String {
    x.to_string()
}

fn press(app: &mut App, keys: &str) {
    for c in keys.chars() {
        app.on_key(Key::Char(c));
    }
}

#[test]
fn list_value_grows_without_repeats() {
    let mut n = NodeInstance::new(1, s("t"), s("l"));
    apply_list_value(&mut n, "out", "a");
    assert_eq!(n.values, vec![(s("out"), Literal::List(vec![Literal::Str(s("a"))]))]);
    apply_list_value(&mut n, "out", "a");
    apply_list_value(&mut n, "out", "b");
    assert_eq!(
        n.values,
        vec![(s("out"), Literal::List(vec![Literal::Str(s("a")), Literal::Str(s("b"))]))]
    );
    apply_list_value(&mut n, "out", "");
    assert_eq!(n.values.len(), 1);
}

#[test]
fn single_string_becomes_pair() {
    let mut n = NodeInstance::new(1, s("t"), s("l"));
    n.values.push((s("in"), Literal::Str(s("x"))));
    apply_list_value(&mut n, "in", "x");
    assert_eq!(n.values, vec![(s("in"), Literal::Str(s("x")))]);
    apply_list_value(&mut n, "in", "y");
    assert_eq!(
        n.values,
        vec![(s("in"), Literal::List(vec![Literal::Str(s("x")), Literal::Str(s("y"))]))]
    );
    n.values[0].1 = Literal::Int(3);
    apply_list_value(&mut n, "in", "z");
    assert_eq!(n.values, vec![(s("in"), Literal::List(vec![Literal::Str(s("z"))]))]);
}

#[test]
fn node_io_goes_to_first_matching_node() {
    let mut nodes = vec![NodeInstance::new(2, s("t"), s("a")), NodeInstance::new(2, s("t"), s("b"))];
    update_node_io(&mut nodes, 2, "out", "e1");
    assert_eq!(nodes[0].values.len(), 1);
    assert!(nodes[1].values.is_empty());
    update_node_io(&mut nodes, 9, "out", "e2");
    assert_eq!(nodes[0].values.len(), 1);
}

#[test]
fn edit_state_skips_io_keys_and_sorts() {
    let d = ParamDef { kind: ParamType::String, value_type: None, len: None, source: None, render: None };
    let def = NodeTypeDef {
        order: None,
        params: vec![(s("zeta"), d), (s("name"), d), (s("alpha"), d), (s("outs"), d)],
    };
    let mut e = NodeEditState::new(s("t"), &def);
    assert_eq!(e.param_keys, vec![s("alpha"), s("zeta")]);
    assert!(e.has_params());
    assert_eq!(e.current_key(), Some("alpha"));
    assert_eq!(e.current_def(), Some(d));
    e.set_value(Literal::Str(s("v")));
    assert_eq!(e.values, vec![(s("alpha"), Literal::Str(s("v")))]);
    e.advance();
    e.advance();
    assert!(e.is_done());
    assert_eq!(e.current_key(), None);
    e.advance();
    assert_eq!(e.index, 2);
}

#[test]
fn type_names_sorted() {
    let catalog = graph_tui::app::load_node_catalog_default();
    assert_eq!(node_type_keys(&catalog), vec![s("cstr"), s("sensor")]);
}

#[test]
fn screens_and_exit() {
    let mut app = App::new();
    assert_eq!(app.current_screen, CurrentScreen::Main);
    press(&mut app, "g");
    assert_eq!(app.current_screen, CurrentScreen::Graph);
    press(&mut app, "E");
    assert_eq!(app.current_screen, CurrentScreen::GraphEditor);
    press(&mut app, "qq");
    assert_eq!(app.current_screen, CurrentScreen::Main);
    press(&mut app, "Q");
    assert_eq!(app.current_screen, CurrentScreen::Exiting);
    press(&mut app, "n");
    assert_eq!(app.current_screen, CurrentScreen::Main);
    press(&mut app, "qy");
    assert!(app.should_exit());
}

#[test]
fn node_and_edge_entry() {
    let mut app = App::new();
    press(&mut app, "gen");
    assert_eq!(app.current_screen, CurrentScreen::NodeEditor);
    assert_eq!(app.currently_editing, Some(CurrentlyEditing::Node(NodeEditorMode::Type)));
    assert_eq!(app.current_type_name(), Some("cstr"));
    app.on_key(Key::Down);
    assert_eq!(app.current_type_name(), Some("sensor"));
    app.on_key(Key::Down);
    assert_eq!(app.current_type_name(), Some("cstr"));
    app.on_key(Key::Enter);
    press(&mut app, "n1x");
    app.on_key(Key::Backspace);
    assert_eq!(app.label, "n1");
    app.on_key(Key::Enter);
    assert_eq!(app.currently_editing, Some(CurrentlyEditing::Node(NodeEditorMode::Param)));
    assert_eq!(app.node_edit.as_ref().and_then(|e| e.current_key()), Some("coords"));
    press(&mut app, "1 z");
    app.on_key(Key::Enter);
    assert_eq!(app.node_edit.as_ref().and_then(|e| e.error.as_ref()).map(|e| matches!(e, ParseError::Malformed(_))), Some(true));
    app.on_key(Key::Backspace);
    press(&mut app, "2");
    app.on_key(Key::Enter);
    assert_eq!(app.current_screen, CurrentScreen::GraphEditor);
    assert_eq!(app.graph.nodes.len(), 1);
    let n = &app.graph.nodes[0];
    assert_eq!((n.id, n.type_.as_str(), n.label.as_str()), (1, "cstr", "n1"));
    assert_eq!(
        n.values,
        vec![(s("coords"), Literal::Table(vec![(s("x"), Literal::Float(s("1.0"))), (s("y"), Literal::Float(s("2.0")))]))]
    );

    press(&mut app, "e");
    assert_eq!(app.current_screen, CurrentScreen::EdgeEditor);
    press(&mut app, "w");
    app.on_key(Key::Enter);
    press(&mut app, "1");
    app.on_key(Key::Tab);
    press(&mut app, "3");
    app.on_key(Key::Enter);
    assert_eq!(app.graph.edges.len(), 1);
    let e = &app.graph.edges[0];
    assert_eq!((e.id, e.from, e.to, e.label.as_str()), (1, 1, 3, "w"));
    assert_eq!(app.graph.nodes[0].values.len(), 2);
    assert_eq!(app.current_screen, CurrentScreen::GraphEditor);
}

#[test]
fn tui_new_is_unit() {
    assert_eq!(Tui::new(), Tui);
}

#[test]
fn format_hints_by_kind() {
    let d = ParamDef { kind: ParamType::List, value_type: None, len: None, source: None, render: None };
    assert_eq!(param_format_hint(Some(&d)), Some("comma or space separated"));
    let t = ParamDef { kind: ParamType::Table, ..d };
    assert_eq!(param_format_hint(Some(&t)), Some("inline table (e.g. x = 1, y = 2) or two numbers"));
    assert_eq!(param_format_hint(None), None);
}

#[test]
fn add_node_and_edge_directly() {
    let empty = graph_tui::node_builder::NodeTypeCatalog {
        format: None,
        nodes: graph_tui::node_builder::NodeTypesSection { types: Vec::new() },
    };
    let mut app = App::new_with_catalog(empty);
    app.label = s("first");
    app.add_node();
    app.add_node();
    assert_eq!(app.graph.nodes.len(), 2);
    assert_eq!((app.graph.nodes[1].id, app.graph.nodes[1].type_.as_str()), (2, "unknown"));
    app.in_outs = [2, 1];
    app.label = s("link");
    app.add_edge();
    assert_eq!(app.graph.edges.len(), 1);
    assert_eq!(app.graph.edges[0].id, 1);
    assert_eq!(app.graph.nodes[1].values, vec![(s("out"), Literal::List(vec![Literal::Str(s("link"))]))]);
    assert_eq!(app.graph.nodes[0].values, vec![(s("in"), Literal::List(vec![Literal::Str(s("link"))]))]);
}
