use vstd::prelude::*;
use crate::handles::ObjectReference;
use crate::text::{decimal, hexadecimal};

verus! {

/// `std::io::Error`, carried from a sink that failed to the caller of the
/// dump. Nothing is said of what it holds.
#[verifier::external_type_specification]
#[verifier::external_body]
pub struct ExIoError(std::io::Error);

/// The name of a node as it is written in a graph.
pub struct NodeId(pub String);

impl View for NodeId {
    type V = Seq<char>;

    open spec fn view(&self) -> Seq<char> {
        self.0@
    }
}

/// What is known of a node beyond its name.
pub enum NodeAttr {
    /// A key with a text for its value.
    String(String, String),
    /// A key with a number for its value.
    Number(String, usize),
    /// A key that is merely present.
    Flag(String),
}

/// A node attribute as a plain value.
pub enum Attr {
    String(Seq<char>, Seq<char>),
    Number(Seq<char>, usize),
    Flag(Seq<char>),
}

impl View for NodeAttr {
    type V = Attr;

    open spec fn view(&self) -> Attr {
        match *self {
            NodeAttr::String(key, value) => Attr::String(key@, value@),
            NodeAttr::Number(key, value) => Attr::Number(key@, value),
            NodeAttr::Flag(key) => Attr::Flag(key@),
        }
    }
}

/// The attributes of a list, each as a plain value, in the order of the list.
pub open spec fn attrs_of_list(attrs: Seq<NodeAttr>) -> Seq<Attr> {
    attrs.map_values(|a: NodeAttr| a@)
}

/// One thing that a graph is made of.
pub enum GraphItem {
    /// The declaration of a node: its name and its attributes.
    Node(Seq<char>, Seq<Attr>),
    /// A directed edge: the names of its source and of its target.
    Edge(Seq<char>, Seq<char>),
}

/// Takes a graph, item by item, and writes it somewhere.
pub trait GraphOutput {
    /// What the sink asks to be true of itself before it takes an item, and
    /// keeps true.
    open spec fn wf(&self) -> bool {
        true
    }

    /// The items written so far, the first written first.
    open spec fn rendered(&self) -> Seq<GraphItem> {
        arbitrary()
    }

    /// Whether writing to a sink of this kind always succeeds. A sink that
    /// does not say so is taken to be able to fail.
    open spec fn dependable() -> bool {
        false
    }

    /// Writes one directed edge.
    fn add_slot(&mut self, src: &NodeId, dst: &NodeId) -> (done: Result<(), std::io::Error>)
        requires
            old(self).wf(),
        ensures
            final(self).wf(),
            done is Ok ==> final(self).rendered() == old(self).rendered().push(
                GraphItem::Edge(src@, dst@),
            ),
            Self::dependable() ==> done is Ok,
    ;

    /// Writes the declaration of one node with all its attributes.
    fn add_node(&mut self, node_id: &NodeId, attrs: &Vec<NodeAttr>) -> (done: Result<
        (),
        std::io::Error,
    >)
        requires
            old(self).wf(),
        ensures
            final(self).wf(),
            done is Ok ==> final(self).rendered() == old(self).rendered().push(
                GraphItem::Node(node_id@, attrs_of_list(attrs@)),
            ),
            Self::dependable() ==> done is Ok,
    ;
}

/// Supplies, for a runtime, the attributes under which a node is drawn.
pub trait NodeAttrs {
    /// The attributes of `obj`, in the order in which they are drawn.
    open spec fn attrs_of(obj: ObjectReference) -> Seq<Attr> {
        arbitrary()
    }

    /// The attributes under which `obj` is drawn.
    fn node_attrs(obj: ObjectReference) -> (attrs: Vec<NodeAttr>)
        ensures
            attrs_of_list(attrs@) == Self::attrs_of(obj),
    ;
}

/// The name under which an object is drawn: its address in hexadecimal
/// behind `0x`, in double quotes.
pub open spec fn node_id_text(obj: ObjectReference) -> Seq<char> {
    "\""@ + "0x"@ + hexadecimal(obj.addr as nat) + "\""@
}

/// The name of the node that all root edges start from.
pub open spec fn roots_id_text() -> Seq<char> {
    "roots"@
}

/// The name that the cursor holds while no node is under scan.
pub open spec fn unknown_id_text() -> Seq<char> {
    "unknown"@
}

/// The attributes under which a node is drawn that the predicate turned
/// down: the reason, under the key `error`.
pub open spec fn error_attrs(reason: Seq<char>) -> Seq<Attr> {
    seq![Attr::String("error"@, reason)]
}

/// The first line of a graph in the DOT language.
pub open spec fn dot_header() -> Seq<char> {
    "digraph heap {\n"@
}

/// The last line of a graph in the DOT language.
pub open spec fn dot_footer() -> Seq<char> {
    "}\n"@
}

/// The line of an edge.
pub open spec fn edge_line(src: Seq<char>, dst: Seq<char>) -> Seq<char> {
    "  "@ + src + " -> "@ + dst + ";\n"@
}

/// One attribute as it stands in a node's line, with the blank behind it:
/// a text in double quotes, a number bare, a flag as `yes`.
pub open spec fn attr_text(attr: Attr) -> Seq<char> {
    match attr {
        Attr::Flag(key) => key + "=yes "@,
        Attr::String(key, value) => key + "=\""@ + value + "\" "@,
        Attr::Number(key, value) => key + "="@ + decimal(value as nat) + " "@,
    }
}

/// The attributes of a node as they stand in its line, one behind the other.
pub open spec fn attrs_text(attrs: Seq<Attr>) -> Seq<char>
    decreases attrs.len(),
{
    if attrs.len() == 0 {
        Seq::empty()
    } else {
        attrs_text(attrs.drop_last()) + attr_text(attrs.last())
    }
}

/// The line of a node declaration.
pub open spec fn node_line(id: Seq<char>, attrs: Seq<Attr>) -> Seq<char> {
    "  "@ + id + " ["@ + attrs_text(attrs) + "];\n"@
}

/// The line of one item.
pub open spec fn item_line(item: GraphItem) -> Seq<char> {
    match item {
        GraphItem::Node(id, attrs) => node_line(id, attrs),
        GraphItem::Edge(src, dst) => edge_line(src, dst),
    }
}

/// The lines of the items, one behind the other.
pub open spec fn body_text(items: Seq<GraphItem>) -> Seq<char>
    decreases items.len(),
{
    if items.len() == 0 {
        Seq::empty()
    } else {
        body_text(items.drop_last()) + item_line(items.last())
    }
}

/// A whole graph in the DOT language: the header, a line for each item and
/// the footer.
pub open spec fn dot_text(items: Seq<GraphItem>) -> Seq<char> {
    dot_header() + body_text(items) + dot_footer()
}

} // verus!
