use vstd::prelude::*;
use vstd::string::StringExecFns;
use crate::graph::{
    attr_text, attrs_of_list, attrs_text, body_text, dot_footer, dot_header, dot_text, edge_line,
    node_line, GraphItem, GraphOutput, NodeAttr, NodeId,
};
use crate::text::push_digits;

verus! {

/// The first line of a graph.
pub fn header_line() -> (line: String)
    ensures
        line@ == dot_header(),
{
    String::from_str("digraph heap {\n")
}

/// The last line of a graph.
pub fn footer_line() -> (line: String)
    ensures
        line@ == dot_footer(),
{
    String::from_str("}\n")
}

/// The line of an edge.
pub fn render_edge(src: &NodeId, dst: &NodeId) -> (line: String)
    ensures
        line@ == edge_line(src@, dst@),
{
    let mut line = String::from_str("  ");
    line.append(src.0.as_str());
    line.append(" -> ");
    line.append(dst.0.as_str());
    line.append(";\n");
    line
}

/// Writes one attribute of a node, and the blank behind it, at the end of
/// `text`.
fn push_attr(text: &mut String, attr: &NodeAttr)
    ensures
        final(text)@ == old(text)@ + attr_text(attr@),
{
    match attr {
        NodeAttr::Flag(key) => {
            text.append(key.as_str());
            text.append("=yes ");
        },
        NodeAttr::String(key, value) => {
            text.append(key.as_str());
            text.append("=\"");
            text.append(value.as_str());
            text.append("\" ");
        },
        NodeAttr::Number(key, value) => {
            text.append(key.as_str());
            text.append("=");
            push_digits(text, *value, 10);
            text.append(" ");
        },
    }
    assert(text@ =~= old(text)@ + attr_text(attr@));
}

/// The line of a node declaration, with all the attributes of the node.
pub fn render_node(node_id: &NodeId, attrs: &Vec<NodeAttr>) -> (line: String)
    ensures
        line@ == node_line(node_id@, attrs_of_list(attrs@)),
{
    let mut line = String::from_str("  ");
    line.append(node_id.0.as_str());
    line.append(" [");
    let ghost head = line@;
    let ghost all = attrs_of_list(attrs@);
    let mut i: usize = 0;
    while i < attrs.len()
        invariant
            i <= attrs.len(),
            all == attrs_of_list(attrs@),
            line@ == head + attrs_text(all.take(i as int)),
        decreases attrs.len() - i,
    {
        push_attr(&mut line, &attrs[i]);
        proof {
            assert(all.take(i as int + 1).drop_last() =~= all.take(i as int));
            assert(all.take(i as int + 1).last() == attrs@[i as int]@);
            assert(line@ =~= head + attrs_text(all.take(i as int + 1)));
        }
        i += 1;
    }
    line.append("];\n");
    proof {
        assert(all.take(attrs.len() as int) =~= all);
        assert(line@ =~= node_line(node_id@, all));
    }
    line
}

/// Writes a graph in the DOT language into memory. The header is written
/// when the sink is made, the footer when it is closed; closing uses the
/// sink up, so that it happens once.
pub struct DotOutput {
    output: String,
    items: Ghost<Seq<GraphItem>>,
}

impl DotOutput {
    /// All that was written so far.
    pub closed spec fn text(&self) -> Seq<char> {
        self.output@
    }

    /// Opens a graph: the header is written.
    pub fn new() -> (out: Self)
        ensures
            out.wf(),
            out.rendered() == Seq::<GraphItem>::empty(),
            out.text() == dot_header(),
    {
        let out = DotOutput { output: header_line(), items: Ghost(Seq::empty()) };
        assert(out.output@ =~= dot_header() + body_text(out.items@));
        out
    }

    /// Closes the graph: the footer is written, and the whole text is
    /// handed out.
    pub fn close(self) -> (text: String)
        requires
            self.wf(),
        ensures
            text@ == self.text() + dot_footer(),
            text@ == dot_text(self.rendered()),
    {
        let mut text = self.output;
        text.append(footer_line().as_str());
        text
    }
}

impl GraphOutput for DotOutput {
    closed spec fn wf(&self) -> bool {
        self.output@ == dot_header() + body_text(self.items@)
    }

    closed spec fn rendered(&self) -> Seq<GraphItem> {
        self.items@
    }

    open spec fn dependable() -> bool {
        true
    }

    fn add_slot(&mut self, src: &NodeId, dst: &NodeId) -> (done: Result<(), std::io::Error>)
        ensures
            final(self).text() == old(self).text() + edge_line(src@, dst@),
    {
        self.output.append(render_edge(src, dst).as_str());
        proof {
            self.items@ = self.items@.push(GraphItem::Edge(src@, dst@));
            assert(self.items@.drop_last() =~= old(self).items@);
            assert(self.output@ =~= dot_header() + body_text(self.items@));
        }
        Ok(())
    }

    fn add_node(&mut self, node_id: &NodeId, attrs: &Vec<NodeAttr>) -> (done: Result<
        (),
        std::io::Error,
    >)
        ensures
            final(self).text() == old(self).text() + node_line(node_id@, attrs_of_list(attrs@)),
    {
        self.output.append(render_node(node_id, attrs).as_str());
        proof {
            self.items@ = self.items@.push(GraphItem::Node(node_id@, attrs_of_list(attrs@)));
            assert(self.items@.drop_last() =~= old(self).items@);
            assert(self.output@ =~= dot_header() + body_text(self.items@));
        }
        Ok(())
    }
}

} // verus!
