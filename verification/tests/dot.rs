use heap_graph::dot::{footer_line, header_line, render_edge, render_node, DotOutput};
use heap_graph::dumper::node_id_of;
use heap_graph::graph::{GraphOutput, NodeAttr, NodeId};
use heap_graph::handles::ObjectReference;
use heap_graph::text::push_digits;

fn id(name: &str) -> NodeId {
    NodeId(name.to_string())
}

#[test]
fn header_and_footer_frame_a_graph() {
    assert_eq!(header_line(), "digraph heap {\n");
    assert_eq!(footer_line(), "}\n");
    assert_eq!(DotOutput::new().close(), "digraph heap {\n}\n");
}

#[test]
fn edge_line_has_arrow_and_semicolon() {
    assert_eq!(render_edge(&id("roots"), &id("\"0x10\"")), "  roots -> \"0x10\";\n");
}

#[test]
fn node_line_without_attributes() {
    assert_eq!(render_node(&id("n"), &Vec::new()), "  n [];\n");
}

#[test]
fn string_attribute_is_quoted() {
    let attrs = vec![NodeAttr::String("error".to_string(), "corrupt header".to_string())];
    assert_eq!(render_node(&id("n"), &attrs), "  n [error=\"corrupt header\" ];\n");
}

#[test]
fn number_attribute_is_bare() {
    let attrs = vec![NodeAttr::Number("size".to_string(), 4096)];
    assert_eq!(render_node(&id("n"), &attrs), "  n [size=4096 ];\n");
}

#[test]
fn flag_attribute_is_yes() {
    let attrs = vec![NodeAttr::Flag("pinned".to_string())];
    assert_eq!(render_node(&id("n"), &attrs), "  n [pinned=yes ];\n");
}

#[test]
fn attributes_keep_their_order() {
    let attrs = vec![
        NodeAttr::Flag("live".to_string()),
        NodeAttr::Number("size".to_string(), 0),
        NodeAttr::String("type".to_string(), "int[]".to_string()),
    ];
    assert_eq!(render_node(&id("n"), &attrs), "  n [live=yes size=0 type=\"int[]\" ];\n");
}

#[test]
fn sink_writes_items_in_the_order_given() {
    let mut out = DotOutput::new();
    assert!(out.add_node(&id("a"), &vec![NodeAttr::Flag("f".to_string())]).is_ok());
    assert!(out.add_slot(&id("a"), &id("b")).is_ok());
    assert!(out.add_node(&id("b"), &Vec::new()).is_ok());
    assert_eq!(out.close(), "digraph heap {\n  a [f=yes ];\n  a -> b;\n  b [];\n}\n");
}

fn written(n: usize, base: usize) -> String {
    let mut text = String::from("<");
    push_digits(&mut text, n, base);
    text
}

#[test]
fn decimal_digits() {
    assert_eq!(written(0, 10), "<0");
    assert_eq!(written(7, 10), "<7");
    assert_eq!(written(10, 10), "<10");
    assert_eq!(written(12345, 10), "<12345");
    assert_eq!(written(usize::MAX, 10), format!("<{}", usize::MAX));
}

#[test]
fn hexadecimal_digits() {
    assert_eq!(written(0, 16), "<0");
    assert_eq!(written(15, 16), "<f");
    assert_eq!(written(16, 16), "<10");
    assert_eq!(written(0xdead_beef, 16), "<deadbeef");
    assert_eq!(written(usize::MAX, 16), format!("<{:x}", usize::MAX));
}

#[test]
fn node_id_is_the_quoted_address() {
    assert_eq!(node_id_of(ObjectReference::from_raw_address(0x1000)).0, "\"0x1000\"");
    assert_eq!(node_id_of(ObjectReference::from_raw_address(0)).0, "\"0x0\"");
    assert_eq!(node_id_of(ObjectReference::from_raw_address(255)).0, "\"0xff\"");
    let addr: usize = 0x7f00_1234;
    assert_eq!(
        node_id_of(ObjectReference::from_raw_address(addr)).0,
        format!("\"{:#x}\"", addr)
    );
}

#[test]
fn object_reference_keeps_its_address() {
    let obj = ObjectReference::from_raw_address(0x40);
    assert_eq!(obj.to_raw_address(), 0x40);
    assert_eq!(obj, ObjectReference::from_raw_address(0x40));
    assert_ne!(obj, ObjectReference::from_raw_address(0x48));
}
