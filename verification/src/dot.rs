//! Serialization of a [`Graph`] into a DOT document for the external
//! layout renderer.
//!
//! The document is a pure function of the graph state: a header naming the
//! graph directed or undirected, the layout directive, the node-style
//! directive, the raw layout settings, then one line per node and one line
//! per edge, in insertion order, and a closing brace.

use vstd::prelude::*;
use crate::graph::{EdgeView, Graph};

verus! {

/// The document header: graph kind, layout directive, node-style
/// directive, and the raw layout settings injected verbatim.
pub open spec fn dot_header(
    directed: bool,
    layout: Seq<char>,
    node_settings: Seq<char>,
    layout_settings: Seq<char>,
) -> Seq<char> {
    (if directed {
        "digraph"@
    } else {
        "graph"@
    }) + " {\n"@ + "\tlayout =\""@ + layout + "\"\n"@ + "\tnode ["@ + node_settings + "]\n"@
        + layout_settings
}

/// One document line declaring a node by its quoted label.
pub open spec fn dot_node_line(label: Seq<char>) -> Seq<char> {
    "\t\""@ + label + "\"\n"@
}

/// The node declarations, in insertion order.
pub open spec fn dot_nodes(labels: Seq<Seq<char>>) -> Seq<char>
    decreases labels.len(),
{
    if labels.len() == 0 {
        Seq::<char>::empty()
    } else {
        dot_nodes(labels.drop_last()) + dot_node_line(labels.last())
    }
}

/// One document line declaring an edge: quoted endpoints joined by the
/// connector the directedness selects, and a label attribute (possibly
/// empty).
pub open spec fn dot_edge_line(directed: bool, e: EdgeView) -> Seq<char> {
    "\""@ + e.from + (if directed {
        "\" -> \""@
    } else {
        "\" -- \""@
    }) + e.to + "\" [label=\""@ + e.label + "\"]\n"@
}

/// The edge declarations, in insertion order.
pub open spec fn dot_edges(directed: bool, edges: Seq<EdgeView>) -> Seq<char>
    decreases edges.len(),
{
    if edges.len() == 0 {
        Seq::<char>::empty()
    } else {
        dot_edges(directed, edges.drop_last()) + dot_edge_line(directed, edges.last())
    }
}

impl Graph {
    /// The full DOT document for the current graph state.
    pub open spec fn dot_view(&self) -> Seq<char> {
        dot_header(self.directed, self.layout@, self.node_settings@, self.layout_settings@)
            + dot_nodes(self.node_labels()) + dot_edges(self.directed, self.edge_views()) + "}"@
    }

    /// Generates the DOT representation of the graph.
    pub fn to_dot(&self) -> (r: String)
        ensures
            r@ == self.dot_view(),
    {
        let mut dot: String = if self.directed {
            "digraph".to_owned()
        } else {
            "graph".to_owned()
        };
        dot.append(" {\n");
        dot.append("\tlayout =\"");
        dot.append(self.layout.as_str());
        dot.append("\"\n");
        dot.append("\tnode [");
        dot.append(self.node_settings.as_str());
        dot.append("]\n");
        dot.append(self.layout_settings.as_str());
        let ghost hdr = dot_header(
            self.directed,
            self.layout@,
            self.node_settings@,
            self.layout_settings@,
        );
        proof {
            assert(dot@ =~= hdr);
            assert(self.node_labels().take(0) =~= Seq::<Seq<char>>::empty());
        }
        let mut i: usize = 0;
        while i < self.node_list.len()
            invariant
                i <= self.node_list.len(),
                dot@ == hdr + dot_nodes(self.node_labels().take(i as int)),
            decreases self.node_list.len() - i,
        {
            dot.append("\t\"");
            dot.append(self.node_list[i].label.as_str());
            dot.append("\"\n");
            proof {
                let labels = self.node_labels();
                assert(labels[i as int] == self.node_list@[i as int]@);
                assert(labels.take(i + 1).drop_last() =~= labels.take(i as int));
                assert(labels.take(i + 1).last() == labels[i as int]);
                assert(dot@ =~= hdr + dot_nodes(labels.take(i + 1)));
            }
            i = i + 1;
        }
        proof {
            assert(self.node_labels().take(self.node_list@.len() as int) =~= self.node_labels());
            assert(self.edge_views().take(0) =~= Seq::<EdgeView>::empty());
        }
        let ghost mid = hdr + dot_nodes(self.node_labels());
        let mut j: usize = 0;
        while j < self.edge_list.len()
            invariant
                j <= self.edge_list.len(),
                dot@ == mid + dot_edges(self.directed, self.edge_views().take(j as int)),
            decreases self.edge_list.len() - j,
        {
            dot.append("\"");
            dot.append(self.edge_list[j].from.as_str());
            if self.directed {
                dot.append("\" -> \"");
            } else {
                dot.append("\" -- \"");
            }
            dot.append(self.edge_list[j].to.as_str());
            dot.append("\" [label=\"");
            dot.append(self.edge_list[j].label.as_str());
            dot.append("\"]\n");
            proof {
                let edges = self.edge_views();
                assert(edges[j as int] == self.edge_list@[j as int]@);
                assert(edges.take(j + 1).drop_last() =~= edges.take(j as int));
                assert(edges.take(j + 1).last() == edges[j as int]);
                assert(dot@ =~= mid + dot_edges(self.directed, edges.take(j + 1)));
            }
            j = j + 1;
        }
        proof {
            assert(self.edge_views().take(self.edge_list@.len() as int) =~= self.edge_views());
        }
        dot.append("}");
        proof {
            assert(dot@ =~= self.dot_view());
        }
        dot
    }
}

} // verus!
