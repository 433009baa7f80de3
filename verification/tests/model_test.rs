use deer::model::connector::{BranchCondition, Connector};
use deer::model::diagram::Diagram;
use deer::model::fpp::is_id_header;
use deer::model::node::{default_border_color, default_fill_color, Layout, Node, NodeType};
use deer::ui::canvas::{node_click, CanvasTool, NodeClick};
use deer::ui::console::{log_kind, LogKind};
use deer::ui::inspector::collect_diagram_variables;
use deer::ui::palette::{matches_query, search_key};

fn layout() -> Layout {
    Layout::new("10", "20", "100", "40")
}

#[test]
fn id_headers_are_id_and_digits() {
    assert!(is_id_header("id1"));
    assert!(is_id_header("  id42 \t"));
    assert!(!is_id_header("id"));
    assert!(!is_id_header("id4x"));
    assert!(!is_id_header("ID4"));
    assert!(!is_id_header("xid4"));
}

#[test]
fn branch_tags_read_in_english_and_turkish() {
    assert_eq!(BranchCondition::from_fpp_str(" yes "), BranchCondition::Yes);
    assert_eq!(BranchCondition::from_fpp_str("Evet"), BranchCondition::Yes);
    assert_eq!(BranchCondition::from_fpp_str("no"), BranchCondition::No);
    assert_eq!(BranchCondition::from_fpp_str("HAYIR"), BranchCondition::No);
    assert_eq!(BranchCondition::from_fpp_str("maybe"), BranchCondition::Default);
    assert_eq!(BranchCondition::Yes.tag(), "YES");
    assert_eq!(BranchCondition::Default.tag(), "");
    let c = Connector::new("line1", "id1", "id2", BranchCondition::No);
    assert_eq!((c.id.as_str(), c.from_id.as_str(), c.to_id.as_str()), ("line1", "id1", "id2"));
    assert_eq!(c.condition, BranchCondition::No);
}

#[test]
fn node_kinds_read_by_name_then_by_type_number() {
    assert_eq!(NodeType::from_fpp_kind_or_type(" output ", 0), NodeType::Output);
    assert_eq!(NodeType::from_fpp_kind_or_type("end", 0), NodeType::Stop);
    assert_eq!(NodeType::from_fpp_kind_or_type("Func", 0), NodeType::Function);
    assert_eq!(NodeType::from_fpp_kind_or_type("BAŞLA", 2), NodeType::Start);
    assert_eq!(NodeType::from_fpp_kind_or_type("DUR", 2), NodeType::Stop);
    assert_eq!(NodeType::from_fpp_kind_or_type("?", 91), NodeType::Output);
    assert_eq!(NodeType::from_fpp_kind_or_type("?", 92), NodeType::IfEqual);
    assert_eq!(NodeType::from_fpp_kind_or_type("?", 93), NodeType::Function);
    assert_eq!(NodeType::from_fpp_kind_or_type("?", 3), NodeType::Intersection);
    assert_eq!(NodeType::from_fpp_kind_or_type("?", 7), NodeType::Action);
    assert!(NodeType::IfLess.is_condition());
    assert!(!NodeType::Add.is_condition());
    assert_eq!(NodeType::IfGreaterEqual.code_name(), "IF_GREATER_EQUAL");
    assert_eq!(NodeType::Start.display_name(), "START (başla)");
}

#[test]
fn new_nodes_get_their_kind_defaults() {
    let n = Node::new("id3", NodeType::Action, layout());
    assert_eq!(n.id, "id3");
    assert_eq!(n.label, "ACTION");
    assert_eq!((n.expr1.as_str(), n.expr2.as_str(), n.target_var.as_str()), ("x", "x + 1", "x"));
    assert_eq!(n.fill_color, default_fill_color());
    assert_eq!(n.border_color, default_border_color());
    assert_eq!(n.layout.left, "10");
}

#[test]
fn connectors_are_never_self_loops_or_duplicates() {
    let mut d = Diagram::new("d");
    let a = d.add_node(NodeType::Start, layout());
    let b = d.add_node(NodeType::Stop, layout());
    assert_eq!((a.as_str(), b.as_str()), ("id1", "id2"));
    assert_eq!(d.next_node_id, 3);
    assert_eq!(d.add_connector(&a, &a, BranchCondition::Default), None);
    assert_eq!(d.add_connector(&a, &b, BranchCondition::Default), Some("line1".to_string()));
    assert_eq!(d.add_connector(&a, &b, BranchCondition::Yes), None);
    assert_eq!(d.add_connector(&b, &a, BranchCondition::Yes), Some("line2".to_string()));
    assert_eq!(d.connectors.len(), 2);
    d.delete_connector("line1");
    assert_eq!(d.connectors.len(), 1);
    d.delete_node(&a);
    assert_eq!(d.nodes.len(), 1);
    assert!(d.connectors.is_empty());
    assert!(d.get_node(&a).is_none());
    assert!(d.get_node(&b).is_some());
}

#[test]
fn fpp_export_reads_back_with_the_same_nodes() {
    let mut d = Diagram::new("d");
    let a = d.add_node(NodeType::Start, layout());
    let b = d.add_node(NodeType::Output, layout());
    let c = d.add_node(NodeType::Stop, layout());
    d.get_node_mut(&b).unwrap().expr1 = "Result:".to_string();
    d.add_connector(&a, &b, BranchCondition::Default);
    d.add_connector(&b, &c, BranchCondition::Default);
    let coords = vec![(10, 20, 100, 40), (-7, 0, 130, 42), (300, 2, 90, 36)];
    let text = d.export_fpp(&coords);
    assert!(text.starts_with("3"));
    assert!(text.contains("\n-7       \t <--LEFT\n"));
    let back = Diagram::parse_fpp(&text).unwrap();
    assert_eq!(back.nodes.len(), 3);
    let ids: Vec<&str> = back.nodes.iter().map(|n| n.id.as_str()).collect();
    assert_eq!(ids, vec!["id1", "id2", "id3"]);
    assert_eq!(back.nodes[1].node_type, NodeType::Output);
    assert_eq!(back.nodes[1].expr1, "Result:");
    assert_eq!(back.nodes[2].layout.top, "2");
    assert_eq!(back.nodes[1].layout.left, "-7");
    assert_eq!(back.connectors.len(), 2);
    assert_eq!(back.next_node_id, 4);
}

#[test]
fn fpp_reading_stops_where_the_node_counter_cannot_continue() {
    let big = format!("1\nid{}\n2\nSTART\n", usize::MAX);
    assert!(Diagram::read_fpp(&big).is_none());
    let fine = format!("1\nid{}\n2\nSTART\n", usize::MAX - 1);
    let d = Diagram::read_fpp(&fine).unwrap();
    assert_eq!(d.next_node_id, usize::MAX);
    let empty = Diagram::parse_fpp("\n  \n").unwrap();
    assert!(empty.nodes.is_empty());
    assert_eq!(empty.title, "FPP Diagram");
}

#[test]
fn fpp_text_reads_branches_and_defaults() {
    let text = "2\n\nid7\n2\n5 left\n\n\n\n\n\n\n\n\nSTART\nx, y\nid9\n92\n1\n2\n3\n4\n5\n6\n7\n8\n9\nIF\nx\n0\n---- LINES ---- from,to ----\nid7,id9\nreserved 1\nid9,id7\nreserved 1\nNO\n";
    let d = Diagram::parse_fpp(text).unwrap();
    assert_eq!(d.nodes.len(), 2);
    assert_eq!(d.nodes[0].node_type, NodeType::Start);
    assert_eq!(d.nodes[0].layout.left, "5");
    assert_eq!(d.nodes[0].layout.top, "100");
    assert_eq!(d.nodes[0].expr1, "x, y");
    assert_eq!(d.nodes[1].node_type, NodeType::IfEqual);
    assert_eq!((d.nodes[1].expr1.as_str(), d.nodes[1].expr2.as_str()), ("x", "0"));
    assert_eq!(d.next_node_id, 10);
    assert_eq!(d.connectors.len(), 2);
    assert_eq!(d.connectors[1].condition, BranchCondition::No);
    assert_eq!(d.connectors[0].condition, BranchCondition::Default);
}

#[test]
fn json_text_is_told_from_fpp_text() {
    assert!(Diagram::is_json("  \n{\"nodes\": []}"));
    assert!(Diagram::is_json("[1]"));
    assert!(!Diagram::is_json("3 <--SHAPES"));
    assert!(!Diagram::is_json("   "));
}

#[test]
fn default_diagram_is_empty_with_counters_at_zero() {
    let d = Diagram::default();
    assert!(d.title.is_empty() && d.nodes.is_empty() && d.connectors.is_empty());
    assert_eq!((d.next_node_id, d.next_line_id), (0, 0));
    let n = Diagram::new("x");
    assert_eq!((n.next_node_id, n.next_line_id), (1, 1));
}

#[test]
fn diagram_variables_are_named_once_in_sorted_order() {
    let mut d = Diagram::new("d");
    let s = d.add_node(NodeType::Start, layout());
    let a = d.add_node(NodeType::Add, layout());
    let f = d.add_node(NodeType::Function, layout());
    let c = d.add_node(NodeType::IfEqual, layout());
    let o = d.add_node(NodeType::Output, layout());
    d.get_node_mut(&s).unwrap().expr1 = "b, a, 3, 'q', \"r\"".to_string();
    {
        let n = d.get_node_mut(&c).unwrap();
        n.expr1 = " é ".to_string();
        n.expr2 = "a-b".to_string();
    }
    d.get_node_mut(&o).unwrap().expr2 = "hidden".to_string();
    let _ = (a, f);
    // Add: target x, x, 1; Function: Fix, x, x
    let vars = collect_diagram_variables(&d);
    assert_eq!(vars, vec!["Fix", "a", "b", "x", "é"]);
    let mut sorted = vars.clone();
    sorted.sort();
    assert_eq!(vars, sorted);
}

#[test]
fn new_links_are_neither_self_loops_nor_repeats() {
    let mut d = Diagram::new("d");
    let a = d.add_node(NodeType::Start, layout());
    let b = d.add_node(NodeType::Stop, layout());
    assert!(!d.is_new_link(&a, &a));
    assert!(d.is_new_link(&a, &b));
    d.add_connector(&a, &b, BranchCondition::Default);
    assert!(!d.is_new_link(&a, &b));
    assert!(d.is_new_link(&b, &a));
}

#[test]
fn console_lines_are_told_apart_by_their_markers() {
    assert_eq!(log_kind("[Hata] BAŞLA düğümü bulunamadı"), LogKind::Problem);
    assert_eq!(log_kind("Error somewhere [Giriş]"), LogKind::Problem);
    assert_eq!(log_kind("[Tamamlandı] Dal sonuna ulaşıldı."), LogKind::Lifecycle);
    assert_eq!(log_kind("[Giriş] `x` = 1"), LogKind::Input);
    assert_eq!(log_kind("[Çıktı] 5"), LogKind::Output);
    assert_eq!(log_kind("[KOŞUL] IF_EQUAL"), LogKind::Condition);
    assert_eq!(log_kind("[Geri Dönüldü] Fonksiyon"), LogKind::Call);
    assert_eq!(log_kind("[BÖL] `x` (1) / (0) -> 0"), LogKind::Arithmetic);
    assert_eq!(log_kind("[KARŞILAŞTIR] a vs b"), LogKind::Text);
    assert_eq!(log_kind("[ATAMA] `x` = 1"), LogKind::Plain);
}

#[test]
fn palette_search_matches_labels_and_descriptions() {
    assert_eq!(search_key("  StArT "), "start");
    assert_eq!(search_key("İF"), "İF".to_lowercase());
    assert!(matches_query("", "START", "Oval"));
    assert!(matches_query("sta", "START", "Oval"));
    assert!(matches_query("oval", "STOP", "Oval - Program Bitişi"));
    assert!(!matches_query("xyz", "STOP", "Oval"));
}

#[test]
fn node_clicks_follow_the_tool() {
    let mut d = Diagram::new("d");
    let c = d.add_node(NodeType::IfLess, layout());
    let o = d.add_node(NodeType::Output, layout());
    assert!(matches!(node_click(CanvasTool::Select, None, &o, &d), NodeClick::Select(ref s) if s == &o));
    assert!(matches!(node_click(CanvasTool::Connect, None, &c, &d), NodeClick::BeginLink(ref s) if s == &c));
    match node_click(CanvasTool::Connect, Some(c.clone()), &o, &d) {
        NodeClick::Link { from, to, condition } => {
            assert_eq!((from.as_str(), to.as_str()), (c.as_str(), o.as_str()));
            assert_eq!(condition, BranchCondition::Yes);
        }
        _ => panic!("expected a link"),
    }
    match node_click(CanvasTool::Connect, Some(o.clone()), &c, &d) {
        NodeClick::Link { condition, .. } => assert_eq!(condition, BranchCondition::Default),
        _ => panic!("expected a link"),
    }
    assert!(matches!(node_click(CanvasTool::Connect, Some(o.clone()), &o, &d), NodeClick::Nothing));
    assert!(matches!(node_click(CanvasTool::DeleteNode, None, &o, &d), NodeClick::Delete(ref s) if s == &o));
    assert!(matches!(node_click(CanvasTool::DeleteLine, None, &o, &d), NodeClick::Nothing));
}

#[test]
fn nodes_added_after_reading_get_fresh_identifiers() {
    let text = "2\nid3\n2\n1\n2\n3\n4\n5\n6\n7\n8\n9\nSTART\nid007\n2\n1\n2\n3\n4\n5\n6\n7\n8\n9\nSTOP\n";
    let mut d = Diagram::parse_fpp(text).unwrap();
    assert_eq!(d.nodes.len(), 2);
    assert_eq!(d.next_node_id, 8);
    let id = d.add_node(NodeType::Output, layout());
    assert_eq!(id, "id8");
    assert_eq!(d.nodes.iter().filter(|n| n.id == id).count(), 1);
}

#[test]
fn unreadable_coordinates_read_as_their_defaults() {
    let text = "1\nid1\n2\n100.7\nabc\n\n1e2 x\n5\n6\n7\n8\n9\nSTART\n";
    let d = Diagram::parse_fpp(text).unwrap();
    let l = &d.nodes[0].layout;
    assert_eq!((l.left.as_str(), l.top.as_str(), l.width.as_str(), l.height.as_str()), ("100.7", "100", "100", "1e2"));
}

#[test]
fn parsed_connectors_are_numbered_in_reading_order() {
    let text = "2\nid1\n2\n1\n2\n3\n4\n5\n6\n7\n8\n9\nSTART\nid2\n2\n1\n2\n3\n4\n5\n6\n7\n8\n9\nSTOP\n---- LINES ---- from,to ----\nid1,id2\nreserved 1\nid1,id2\nreserved 1\nid2,id1\nreserved 1\nYES\nid2,id2\n";
    let d = Diagram::parse_fpp(text).unwrap();
    let ids: Vec<&str> = d.connectors.iter().map(|c| c.id.as_str()).collect();
    assert_eq!(ids, vec!["line1", "line2"]);
    assert_eq!(d.next_line_id, 3);
    assert_eq!(d.connectors[1].condition, BranchCondition::Yes);
}

#[test]
fn parsed_fpp_reads_back_after_export() {
    let text = "2\n\nid7\n2\n5 left\n\n\n\n\n\n\n\n\nSTART\n  \nx\ra\r\nid9\n92\n1\n2\n3\n4\n5\n6\n7\n8\n9\nIF\nx\n0\r5\r\n---- LINES ---- from,to ----\nid7 , id9\nreserved 1\nid9,id7,z\nreserved 1\nno\n";
    let d = Diagram::parse_fpp(text).unwrap();
    assert_eq!(d.nodes.len(), 2);
    assert_eq!(d.nodes[0].expr1, "");
    let coords = vec![(5, 100, 100, 40), (1, 2, 3, 4)];
    let back = Diagram::parse_fpp(&d.export_fpp(&coords)).unwrap();
    assert_eq!(back.nodes.len(), d.nodes.len());
    for (a, b) in back.nodes.iter().zip(d.nodes.iter()) {
        assert_eq!(a.id, b.id);
        assert_eq!(a.node_type, b.node_type);
    }
    assert_eq!(back.connectors.len(), 2);
    for (a, b) in back.connectors.iter().zip(d.connectors.iter()) {
        assert_eq!((a.id.as_str(), a.from_id.as_str(), a.to_id.as_str()), (b.id.as_str(), b.from_id.as_str(), b.to_id.as_str()));
        assert_eq!(a.condition, b.condition);
    }
    assert_eq!(back.nodes[1].expr2, "0\r5");
    let l = &back.nodes[1].layout;
    assert_eq!((l.left.as_str(), l.top.as_str(), l.width.as_str(), l.height.as_str()), ("1", "2", "3", "4"));
    assert_eq!(back.next_node_id, d.next_node_id);
    assert_eq!(back.next_line_id, d.next_line_id);
}

#[test]
fn a_diagram_without_nodes_loses_its_connectors_when_read_back() {
    let d = Diagram::parse_fpp("0\nx\n---- LINES\na,b\n").unwrap();
    assert_eq!(d.nodes.len(), 0);
    assert_eq!(d.connectors.len(), 1);
    let back = Diagram::parse_fpp(&d.export_fpp(&Vec::new())).unwrap();
    assert_eq!(back.connectors.len(), 0);
}
