//! The graph model: nodes, edges, the owning [`Graph`] aggregate, and the
//! parser that fills it from the line-oriented text notation.
//!
//! Every non-blank input line declares one entity: one token is a node
//! label, two tokens are an edge without a label, three tokens are an edge
//! with a label (the third token greedily takes the rest of the line).
//! Inputs are rejected beyond 50 lines, and any token longer than 10
//! grapheme clusters is rejected.

use vstd::prelude::*;
use crate::text::{
    spec_trim, spec_lines, token_split, grapheme_count, first_ws, ws_run, is_ws, lemma_lines_len,
    lemma_lines_step, lemma_trim_ends, count_newlines, find_newline, find_whitespace,
    skip_whitespace, trim_str, true_len,
};

verus! {

/// A single named vertex, declared by a one-token line.
#[derive(Debug)]
pub struct Node {
    pub label: String,
}

impl View for Node {
    type V = Seq<char>;

    open spec fn view(&self) -> Seq<char> {
        self.label@
    }
}

impl Node {
    pub fn new(label: String) -> (r: Self)
        ensures
            r.label == label,
    {
        Node { label }
    }
}

/// The mathematical image of an edge: both endpoint names and the label,
/// as character sequences.
pub ghost struct EdgeView {
    pub from: Seq<char>,
    pub to: Seq<char>,
    pub label: Seq<char>,
}

/// A connection between two vertex names, optionally labeled, declared by a
/// two- or three-token line. The endpoints are raw tokens: an edge may name
/// vertices that no one-token line declares.
#[derive(Debug)]
pub struct Edge {
    pub from: String,
    pub to: String,
    pub label: String,
}

impl View for Edge {
    type V = EdgeView;

    open spec fn view(&self) -> EdgeView {
        EdgeView { from: self.from@, to: self.to@, label: self.label@ }
    }
}

impl Edge {
    pub fn new(from: String, to: String, label: String) -> (r: Self)
        ensures
            r.from == from,
            r.to == to,
            r.label == label,
    {
        Edge { from, to, label }
    }
}

/// The ways a parse can fail: too many lines, or a token whose
/// user-perceived length exceeds the cap.
#[derive(Debug, PartialEq, Eq)]
pub enum GraphSyntaxError {
    ListTooLargeError,
    LabelTooLargeError,
}

/// The whitespace-separated tokens of one raw input line, after trimming:
/// at most three, the third taking the rest of the line.
pub open spec fn line_tokens(raw: Seq<char>) -> Seq<Seq<char>> {
    token_split(spec_trim(raw), 3)
}

/// Every token of the line is within the 10-grapheme cap.
pub open spec fn line_ok(raw: Seq<char>) -> bool {
    forall|i: int|
        0 <= i < line_tokens(raw).len() ==> grapheme_count(#[trigger] line_tokens(raw)[i]) <= 10
}

/// The node labels a line contributes: one for a one-token line, none
/// otherwise.
pub open spec fn line_node_labels(raw: Seq<char>) -> Seq<Seq<char>> {
    if line_tokens(raw).len() == 1 {
        seq![line_tokens(raw)[0]]
    } else {
        Seq::<Seq<char>>::empty()
    }
}

/// The edges a line contributes: one for a two-token line (empty label) or
/// a three-token line (third token as label), none otherwise.
pub open spec fn line_edges(raw: Seq<char>) -> Seq<EdgeView> {
    let t = line_tokens(raw);
    if t.len() == 2 {
        seq![(EdgeView { from: t[0], to: t[1], label: Seq::<char>::empty() })]
    } else if t.len() == 3 {
        seq![(EdgeView { from: t[0], to: t[1], label: t[2] })]
    } else {
        Seq::<EdgeView>::empty()
    }
}

/// The node labels of a whole input, line by line, in input order.
pub open spec fn nodes_of_lines(lines: Seq<Seq<char>>) -> Seq<Seq<char>>
    decreases lines.len(),
{
    if lines.len() == 0 {
        Seq::<Seq<char>>::empty()
    } else {
        nodes_of_lines(lines.drop_last()) + line_node_labels(lines.last())
    }
}

/// The edges of a whole input, line by line, in input order.
pub open spec fn edges_of_lines(lines: Seq<Seq<char>>) -> Seq<EdgeView>
    decreases lines.len(),
{
    if lines.len() == 0 {
        Seq::<EdgeView>::empty()
    } else {
        edges_of_lines(lines.drop_last()) + line_edges(lines.last())
    }
}

/// Every line of the input respects the token-length cap.
pub open spec fn lines_ok(lines: Seq<Seq<char>>) -> bool {
    forall|i: int| 0 <= i < lines.len() ==> line_ok(#[trigger] lines[i])
}

/// A line is blank when nothing is left of it after trimming.
pub open spec fn line_blank(raw: Seq<char>) -> bool {
    spec_trim(raw).len() == 0
}

/// Number of non-blank lines.
pub open spec fn nonblank_count(lines: Seq<Seq<char>>) -> nat
    decreases lines.len(),
{
    if lines.len() == 0 {
        0
    } else {
        nonblank_count(lines.drop_last()) + (if line_blank(lines.last()) {
            0nat
        } else {
            1nat
        })
    }
}

/// A non-empty sequence splits into at least one and at most three tokens.
pub proof fn lemma_token_split_count(s: Seq<char>, k: nat)
    requires
        1 <= k <= 3,
    ensures
        s.len() == 0 ==> token_split(s, k).len() == 0,
        s.len() > 0 ==> 1 <= token_split(s, k).len() <= k,
    decreases k,
{
    if s.len() > 0 && k > 1 {
        let e = first_ws(s);
        if 0 <= e < s.len() {
            lemma_token_split_count(s.skip(e + ws_run(s.skip(e))), (k - 1) as nat);
        }
    }
}

/// A line with exactly two tokens contributes exactly one edge, whose label
/// is empty, and no node; a line with exactly one token contributes exactly
/// one node and no edge.
pub proof fn lemma_line_entity_kinds(raw: Seq<char>)
    ensures
        line_tokens(raw).len() == 2 ==> line_node_labels(raw).len() == 0 && line_edges(raw).len()
            == 1 && line_edges(raw)[0].label == Seq::<char>::empty(),
        line_tokens(raw).len() == 1 ==> line_node_labels(raw).len() == 1 && line_edges(raw).len()
            == 0,
{
}

/// Each non-blank line contributes exactly one entity: the node count and
/// the edge count together equal the non-blank line count.
pub proof fn lemma_one_entity_per_line(lines: Seq<Seq<char>>)
    ensures
        nodes_of_lines(lines).len() + edges_of_lines(lines).len() == nonblank_count(lines),
    decreases lines.len(),
{
    if lines.len() > 0 {
        lemma_one_entity_per_line(lines.drop_last());
        let raw = lines.last();
        lemma_token_split_count(spec_trim(raw), 3);
        if line_blank(raw) {
            assert(line_tokens(raw).len() == 0);
        }
    }
}

/// The complete graph structure: the entities of the last successful parse,
/// in input order, plus the rendering configuration fixed at construction.
pub struct Graph {
    pub edge_list: Vec<Edge>,
    pub node_list: Vec<Node>,
    pub directed: bool,
    pub layout: String,
    pub layout_settings: String,
    pub node_settings: String,
}

impl Graph {
    /// The node labels currently held, as character sequences.
    pub open spec fn node_labels(&self) -> Seq<Seq<char>> {
        self.node_list@.map_values(|n: Node| n@)
    }

    /// The edges currently held, as mathematical edge images.
    pub open spec fn edge_views(&self) -> Seq<EdgeView> {
        self.edge_list@.map_values(|e: Edge| e@)
    }

    /// The rendering configuration of `self` and `other` agree.
    pub open spec fn same_config(&self, other: &Graph) -> bool {
        &&& self.directed == other.directed
        &&& self.layout == other.layout
        &&& self.layout_settings == other.layout_settings
        &&& self.node_settings == other.node_settings
    }

    pub fn new(
        directed: bool,
        layout: String,
        layout_settings: String,
        node_settings: String,
    ) -> (r: Self)
        ensures
            r.directed == directed,
            r.layout == layout,
            r.layout_settings == layout_settings,
            r.node_settings == node_settings,
            r.node_list@.len() == 0,
            r.edge_list@.len() == 0,
            r.node_labels() == Seq::<Seq<char>>::empty(),
            r.edge_views() == Seq::<EdgeView>::empty(),
    {
        let g = Graph {
            edge_list: Vec::new(),
            node_list: Vec::new(),
            directed,
            layout,
            layout_settings,
            node_settings,
        };
        proof {
            assert(g.node_labels() =~= Seq::<Seq<char>>::empty());
            assert(g.edge_views() =~= Seq::<EdgeView>::empty());
        }
        g
    }

    /// Appends an edge, leaving everything else unchanged.
    pub fn add_edge(&mut self, edge: Edge)
        ensures
            final(self).edge_list@ == old(self).edge_list@.push(edge),
            final(self).node_list == old(self).node_list,
            final(self).same_config(old(self)),
            final(self).edge_views() == old(self).edge_views().push(edge@),
            final(self).node_labels() == old(self).node_labels(),
    {
        self.edge_list.push(edge);
        proof {
            assert(self.edge_views() =~= old(self).edge_views().push(self.edge_list@.last()@));
        }
    }

    /// Appends a node, leaving everything else unchanged.
    pub fn add_node(&mut self, node: Node)
        ensures
            final(self).node_list@ == old(self).node_list@.push(node),
            final(self).edge_list == old(self).edge_list,
            final(self).same_config(old(self)),
            final(self).node_labels() == old(self).node_labels().push(node@),
            final(self).edge_views() == old(self).edge_views(),
    {
        self.node_list.push(node);
        proof {
            assert(self.node_labels() =~= old(self).node_labels().push(self.node_list@.last()@));
        }
    }

    /// Parses one raw line: skips it if blank, otherwise appends the node
    /// or edge it declares, rejecting any token over the 10-grapheme cap.
    fn parse_line(&mut self, line: &str) -> (r: Result<(), GraphSyntaxError>)
        ensures
            final(self).same_config(old(self)),
            r is Ok <==> line_ok(line@),
            r is Ok ==> final(self).node_labels() == old(self).node_labels() + line_node_labels(
                line@,
            ),
            r is Ok ==> final(self).edge_views() == old(self).edge_views() + line_edges(line@),
            !(r is Ok) ==> r == Err::<(), GraphSyntaxError>(GraphSyntaxError::LabelTooLargeError)
                && *final(self) == *old(self),
    {
        let t = trim_str(line);
        let ghost tt = spec_trim(line@);
        let tn = t.unicode_len();
        if tn == 0 {
            proof {
                assert(line_tokens(line@) =~= Seq::<Seq<char>>::empty());
                assert(old(self).node_labels() + line_node_labels(line@) =~= old(
                    self,
                ).node_labels());
                assert(old(self).edge_views() + line_edges(line@) =~= old(self).edge_views());
            }
            return Ok(());
        }
        proof {
            lemma_trim_ends(line@);
        }
        let e1 = find_whitespace(t, 0);
        proof {
            assert(tt.skip(0) =~= tt);
        }
        let tok1 = t.substring_char(0, e1);
        if e1 == tn {
            proof {
                assert(tok1@ =~= tt);
                assert(line_tokens(line@) =~= seq![tt]);
            }
            let len1 = true_len(tok1);
            if len1 > 10 {
                proof {
                    assert(line_tokens(line@)[0] == tt);
                    assert(!line_ok(line@));
                }
                return Err(GraphSyntaxError::LabelTooLargeError);
            }
            self.add_node(Node::new(tok1.to_owned()));
            proof {
                assert(line_tokens(line@)[0] == tt);
                assert(line_ok(line@));
                assert(self.node_labels() =~= old(self).node_labels() + line_node_labels(line@));
                assert(self.edge_views() =~= old(self).edge_views() + line_edges(line@));
            }
            return Ok(());
        }
        let s1 = skip_whitespace(t, e1);
        proof {
            if s1 == tn {
                assert(is_ws(tt[tn - 1]));
                assert(false);
            }
        }
        let e2 = find_whitespace(t, s1);
        let tok2 = t.substring_char(s1, e2);
        let ghost rest = tt.skip(s1 as int);
        proof {
            assert(e1 + ws_run(tt.skip(e1 as int)) == s1);
            assert(line_tokens(line@) == seq![tt.subrange(0, e1 as int)] + token_split(rest, 2));
        }
        if e2 == tn {
            proof {
                assert(first_ws(rest) == rest.len());
                assert(token_split(rest, 2) == seq![rest]);
                assert(tok2@ =~= rest);
                assert(line_tokens(line@) =~= seq![tok1@, tok2@]);
            }
            let len1 = true_len(tok1);
            let len2 = true_len(tok2);
            if len1 > 10 || len2 > 10 {
                proof {
                    assert(line_tokens(line@)[0] == tok1@);
                    assert(line_tokens(line@)[1] == tok2@);
                    assert(!line_ok(line@));
                }
                return Err(GraphSyntaxError::LabelTooLargeError);
            }
            let edge = Edge::new(tok1.to_owned(), tok2.to_owned(), String::new());
            proof {
                assert(line_tokens(line@)[0] == tok1@);
                assert(line_tokens(line@)[1] == tok2@);
                assert(line_ok(line@));
                assert(edge@ == line_edges(line@)[0]);
            }
            self.add_edge(edge);
            proof {
                assert(self.node_labels() =~= old(self).node_labels() + line_node_labels(line@));
                assert(self.edge_views() =~= old(self).edge_views() + line_edges(line@));
            }
            return Ok(());
        }
        let s2 = skip_whitespace(t, e2);
        proof {
            if s2 == tn {
                assert(is_ws(tt[tn - 1]));
                assert(false);
            }
        }
        let tok3 = t.substring_char(s2, tn);
        proof {
            let ghost rest2 = tt.skip(s2 as int);
            assert(rest.skip(e2 - s1) =~= tt.skip(e2 as int));
            assert(first_ws(rest) == e2 - s1);
            assert((e2 - s1) + ws_run(rest.skip(e2 - s1)) == s2 - s1);
            assert(rest.skip(s2 - s1) =~= rest2);
            assert(token_split(rest2, 1) == seq![rest2]);
            assert(token_split(rest, 2) == seq![rest.subrange(0, e2 - s1)] + token_split(
                rest2,
                1,
            ));
            assert(rest.subrange(0, e2 - s1) =~= tt.subrange(s1 as int, e2 as int));
            assert(tok3@ =~= rest2);
            assert(line_tokens(line@) =~= seq![tok1@, tok2@, tok3@]);
        }
        let len1 = true_len(tok1);
        let len2 = true_len(tok2);
        let len3 = true_len(tok3);
        if len1 > 10 || len2 > 10 || len3 > 10 {
            proof {
                assert(line_tokens(line@)[0] == tok1@);
                assert(line_tokens(line@)[1] == tok2@);
                assert(line_tokens(line@)[2] == tok3@);
                assert(!line_ok(line@));
            }
            return Err(GraphSyntaxError::LabelTooLargeError);
        }
        let edge = Edge::new(tok1.to_owned(), tok2.to_owned(), tok3.to_owned());
        proof {
            assert(line_tokens(line@)[0] == tok1@);
            assert(line_tokens(line@)[1] == tok2@);
            assert(line_tokens(line@)[2] == tok3@);
            assert(line_ok(line@));
            assert(edge@ == line_edges(line@)[0]);
        }
        self.add_edge(edge);
        proof {
            assert(self.node_labels() =~= old(self).node_labels() + line_node_labels(line@));
            assert(self.edge_views() =~= old(self).edge_views() + line_edges(line@));
        }
        Ok(())
    }

    /// Parses the whole textual representation of a graph.
    ///
    /// The previous contents are discarded first. The parse succeeds
    /// exactly when the input has at most 50 lines and every token of
    /// every line is within the 10-grapheme cap; the graph then holds one
    /// entity per non-blank line, in input order. On failure the graph is
    /// left empty.
    pub fn try_parse(&mut self, list: &str) -> (r: Result<(), GraphSyntaxError>)
        ensures
            final(self).same_config(old(self)),
            r is Ok <==> spec_lines(list@).len() <= 50 && lines_ok(spec_lines(list@)),
            r == Err::<(), GraphSyntaxError>(GraphSyntaxError::ListTooLargeError) <==> spec_lines(
                list@,
            ).len() > 50,
            r == Err::<(), GraphSyntaxError>(GraphSyntaxError::LabelTooLargeError) <==> (
            spec_lines(list@).len() <= 50 && !lines_ok(spec_lines(list@))),
            r is Ok ==> final(self).node_labels() == nodes_of_lines(spec_lines(list@)),
            r is Ok ==> final(self).edge_views() == edges_of_lines(spec_lines(list@)),
            !(r is Ok) ==> final(self).node_list@.len() == 0 && final(self).edge_list@.len() == 0,
    {
        self.node_list = Vec::new();
        self.edge_list = Vec::new();
        proof {
            lemma_lines_len(list@);
            assert(self.node_labels() =~= Seq::<Seq<char>>::empty());
            assert(self.edge_views() =~= Seq::<EdgeView>::empty());
        }
        let nl = count_newlines(list);
        if nl >= 50 {
            return Err(GraphSyntaxError::ListTooLargeError);
        }
        let n = list.unicode_len();
        let ghost lines = spec_lines(list@);
        let mut pos: usize = 0;
        let ghost mut li: int = 0;
        proof {
            assert(list@.skip(0) =~= list@);
            assert(lines.take(0) =~= Seq::<Seq<char>>::empty());
            assert(nodes_of_lines(lines.take(0)) == Seq::<Seq<char>>::empty());
            assert(edges_of_lines(lines.take(0)) == Seq::<EdgeView>::empty());
        }
        loop
            invariant
                pos <= n,
                n == list@.len(),
                lines == spec_lines(list@),
                1 <= lines.len() <= 50,
                0 <= li < lines.len(),
                spec_lines(list@.skip(pos as int)) == lines.skip(li),
                self.node_labels() == nodes_of_lines(lines.take(li)),
                self.edge_views() == edges_of_lines(lines.take(li)),
                lines_ok(lines.take(li)),
                self.same_config(old(self)),
            decreases n - pos,
        {
            let e = find_newline(list, pos);
            let line = list.substring_char(pos, e);
            proof {
                lemma_lines_step(list@, pos as int, e as int);
                assert(lines[li] == lines.skip(li)[0]);
                assert(lines[li] == line@);
            }
            let res = self.parse_line(line);
            match res {
                Err(err) => {
                    proof {
                        assert(!line_ok(lines[li]));
                        assert(!lines_ok(lines)) by {
                            if lines_ok(lines) {
                                assert(line_ok(lines[li]));
                            }
                        }
                    }
                    self.node_list = Vec::new();
                    self.edge_list = Vec::new();
                    return Err(err);
                },
                Ok(()) => {},
            }
            proof {
                li = li + 1;
                assert(lines.take(li).drop_last() =~= lines.take(li - 1));
                assert(lines.take(li).last() == lines[li - 1]);
                assert(self.node_labels() =~= nodes_of_lines(lines.take(li)));
                assert(self.edge_views() =~= edges_of_lines(lines.take(li)));
                assert forall|i2: int| 0 <= i2 < lines.take(li).len() implies line_ok(
                    #[trigger] lines.take(li)[i2],
                ) by {
                    if i2 < li - 1 {
                        assert(lines.take(li - 1)[i2] == lines.take(li)[i2]);
                        assert(line_ok(lines.take(li - 1)[i2]));
                    } else {
                        assert(lines.take(li)[i2] == lines[li - 1]);
                    }
                }
            }
            if e == n {
                proof {
                    assert(lines.skip(li - 1) =~= seq![line@]);
                    assert(lines.len() == li);
                    assert(lines.take(li) =~= lines);
                    assert(lines_ok(lines));
                }
                return Ok(());
            }
            pos = e + 1;
            proof {
                lemma_lines_len(list@.skip(pos as int));
                assert((seq![line@] + spec_lines(list@.skip(pos as int))).drop_first()
                    =~= spec_lines(list@.skip(pos as int)));
                assert(lines.skip(li - 1).drop_first() =~= lines.skip(li));
                assert(spec_lines(list@.skip(pos as int)) == lines.skip(li));
            }
        }
    }
}

} // verus!
