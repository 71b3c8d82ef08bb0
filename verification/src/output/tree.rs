//! An append-only forest of labelled lines and its drawing as text.
//!
//! Lines live in an arena and are addressed by their index; a line's
//! children are always younger than the line itself, so the drawing is a
//! well-founded recursion over the arena.

use vstd::prelude::*;
use vstd::string::*;

verus! {

/// Connector of a line that still has siblings after it.
pub open spec fn mid_connector() -> Seq<char> {
    seq![' ', '├', '─', ' ']
}

/// Connector of the last line among its siblings.
pub open spec fn last_connector() -> Seq<char> {
    seq![' ', '└', '─', ' ']
}

/// Indent segment under a line that still has siblings after it.
pub open spec fn bar_segment() -> Seq<char> {
    seq![' ', '│', ' ']
}

/// Indent segment under a line that was the last of its siblings.
pub open spec fn blank_segment() -> Seq<char> {
    seq![' ', ' ', ' ']
}

/// The text of one line: indent, connector, label, line feed.
pub open spec fn line_text(prefix: Seq<char>, is_last: bool, label: Seq<char>) -> Seq<char> {
    prefix + (if is_last {
        last_connector()
    } else {
        mid_connector()
    }) + label + seq!['\n']
}

/// The indent of the children of a line drawn with `prefix`.
pub open spec fn child_prefix(prefix: Seq<char>, is_last: bool) -> Seq<char> {
    prefix + (if is_last {
        blank_segment()
    } else {
        bar_segment()
    })
}

/// The lines of a forest: the label of each line and, in order, the
/// indices of its children.
pub struct GraphView {
    pub labels: Seq<Seq<char>>,
    pub children: Seq<Seq<int>>,
}

impl GraphView {
    /// The forest without lines.
    pub open spec fn empty() -> GraphView {
        GraphView { labels: Seq::empty(), children: Seq::empty() }
    }

    /// Every line has a child list, and every child is a line younger
    /// than its parent.
    pub open spec fn wf(self) -> bool {
        &&& self.children.len() == self.labels.len()
        &&& forall|p: int, k: int|
            0 <= p < self.children.len() && 0 <= k < self.children[p].len() ==> p
                < #[trigger] self.children[p][k] < self.labels.len()
    }

    /// Whether `id` is the index of a line.
    pub open spec fn has_line(self, id: int) -> bool {
        0 <= id < self.labels.len()
    }

    /// The forest with one more line, which has no children yet.
    pub open spec fn with_line(self, label: Seq<char>) -> GraphView {
        GraphView { labels: self.labels.push(label), children: self.children.push(Seq::empty()) }
    }

    /// The forest with `child` appended to the children of `parent`.
    pub open spec fn with_edge(self, parent: int, child: int) -> GraphView {
        GraphView {
            labels: self.labels,
            children: self.children.update(parent, self.children[parent].push(child)),
        }
    }

    /// The drawing of line `id` and everything below it, depth first.
    pub open spec fn render_line(self, id: int, prefix: Seq<char>, is_last: bool) -> Seq<char>
        decreases self.labels.len() - id, self.children[id].len() + 1,
        when self.wf() && self.has_line(id)
    {
        line_text(prefix, is_last, self.labels[id]) + self.render_children(
            id,
            0,
            child_prefix(prefix, is_last),
        )
    }

    /// The drawings of the children of `parent` from position `from` on;
    /// only the final child is drawn as last.
    pub open spec fn render_children(self, parent: int, from: int, prefix: Seq<char>) -> Seq<char>
        decreases self.labels.len() - parent, self.children[parent].len() - from,
        when self.wf() && self.has_line(parent) && 0 <= from
    {
        if from < self.children[parent].len() {
            self.render_line(
                self.children[parent][from],
                prefix,
                from == self.children[parent].len() - 1,
            ) + self.render_children(parent, from + 1, prefix)
        } else {
            Seq::empty()
        }
    }
}

/// A forest: its lines and, in the order they were added, its roots.
pub struct TreeView {
    pub graph: GraphView,
    pub roots: Seq<int>,
}

impl TreeView {
    /// The forest without lines.
    pub open spec fn empty() -> TreeView {
        TreeView { graph: GraphView::empty(), roots: Seq::empty() }
    }

    /// The lines are well-formed, and every root is a line.
    pub open spec fn wf(self) -> bool {
        &&& self.graph.wf()
        &&& forall|r: int| 0 <= r < self.roots.len() ==> self.graph.has_line(#[trigger] self.roots[r])
    }

    /// Whether `id` is the index of a line.
    pub open spec fn has_line(self, id: int) -> bool {
        self.graph.has_line(id)
    }

    /// The forest with one more root.
    pub open spec fn with_root(self, label: Seq<char>) -> TreeView {
        TreeView {
            graph: self.graph.with_line(label),
            roots: self.roots.push(self.graph.labels.len() as int),
        }
    }

    /// The forest with a new line as the last child of `parent`.
    pub open spec fn with_child(self, parent: int, label: Seq<char>) -> TreeView {
        TreeView {
            graph: self.graph.with_line(label).with_edge(parent, self.graph.labels.len() as int),
            roots: self.roots,
        }
    }

    /// The drawings of the roots from position `from` on; only the final
    /// root is drawn as last.
    pub open spec fn render_roots(self, from: int) -> Seq<char>
        decreases self.roots.len() - from,
        when self.wf() && 0 <= from
    {
        if from < self.roots.len() {
            self.graph.render_line(self.roots[from], Seq::empty(), from == self.roots.len() - 1)
                + self.render_roots(from + 1)
        } else {
            Seq::empty()
        }
    }

    /// The drawing of the whole forest.
    pub open spec fn render(self) -> Seq<char> {
        self.render_roots(0)
    }
}

/// One labelled line of the forest.
pub struct Line {
    id: usize,
    content: String,
}

/// The arena of lines with the child lists of each.
pub struct Graph {
    nodes: Vec<Line>,
    edges: Vec<Vec<usize>>,
}

impl View for Graph {
    type V = GraphView;

    closed spec fn view(&self) -> GraphView {
        GraphView {
            labels: Seq::new(self.nodes@.len(), |i: int| self.nodes@[i].content@),
            children: Seq::new(
                self.edges@.len(),
                |p: int| Seq::new(self.edges@[p]@.len(), |k: int| self.edges@[p]@[k] as int),
            ),
        }
    }
}

impl Line {
    /// The index under which the arena stores the line.
    pub closed spec fn index(&self) -> int {
        self.id as int
    }

    /// Draws this line and everything below it.
    pub fn print(&self, prefix: &str, is_last: bool, graph: &Graph) -> (text: String)
        requires
            graph.wf(),
            graph.holds(self),
        ensures
            text@ == graph@.render_line(self.index(), prefix@, is_last),
        decreases graph@.labels.len() - self.index(),
    {
        let mut text = String::from_str(prefix);
        let mut child_indent = String::from_str(prefix);
        proof {
            reveal_strlit(" └─ ");
            reveal_strlit(" ├─ ");
            reveal_strlit("   ");
            reveal_strlit(" │ ");
            reveal_strlit("\n");
        }
        if is_last {
            text.append(" └─ ");
            child_indent.append("   ");
        } else {
            text.append(" ├─ ");
            child_indent.append(" │ ");
        }
        text.append(self.content.as_str());
        text.append("\n");
        assert(text@ =~= line_text(prefix@, is_last, self.content@));
        assert(child_indent@ =~= child_prefix(prefix@, is_last));

        let edges = &graph.edges[self.id];
        let size = edges.len();
        let mut idx: usize = 0;
        while idx < size
            invariant
                graph.wf(),
                graph.holds(self),
                edges == graph.edges@[self.id as int],
                size == edges@.len(),
                idx <= size,
                child_indent@ == child_prefix(prefix@, is_last),
                text@ + graph@.render_children(self.index(), idx as int, child_indent@)
                    == graph@.render_line(self.index(), prefix@, is_last),
            decreases size - idx,
        {
            let line = graph.get_line(edges[idx]);
            let below = line.print(child_indent.as_str(), idx == size - 1, graph);
            proof {
                let done = text@;
                let rest = graph@.render_children(self.index(), idx + 1, child_indent@);
                assert((done + below@) + rest =~= done + (below@ + rest));
            }
            text.append(below.as_str());
            idx += 1;
        }
        assert(text@ + Seq::<char>::empty() =~= text@);
        text
    }
}

impl Graph {
    /// The arena's own invariant: each line knows its index, every line
    /// has a child list, and children are younger than their parents.
    pub closed spec fn wf(&self) -> bool {
        &&& self.nodes@.len() == self.edges@.len()
        &&& forall|i: int| 0 <= i < self.nodes@.len() ==> (#[trigger] self.nodes@[i]).id == i
        &&& self@.wf()
    }

    /// `line` is the line that the arena stores under the line's index.
    pub closed spec fn holds(&self, line: &Line) -> bool {
        &&& 0 <= line.id < self.nodes@.len()
        &&& self.nodes@[line.id as int] == *line
    }

    /// The view of a well-formed arena is well-formed, so its drawing
    /// unfolds.
    pub proof fn lemma_view_wf(&self)
        requires
            self.wf(),
        ensures
            self@.wf(),
    {
    }

    /// A line that the arena holds is a line of its view, under the
    /// line's index.
    pub proof fn lemma_holds(&self, line: &Line)
        requires
            self.wf(),
            self.holds(line),
        ensures
            self@.has_line(line.index()),
    {
    }

    /// An arena without lines.
    pub fn new() -> (graph: Graph)
        ensures
            graph.wf(),
            graph@ == GraphView::empty(),
    {
        let graph = Graph { nodes: Vec::new(), edges: Vec::new() };
        proof {
            assert(graph@.labels =~= Seq::empty());
            assert(graph@.children =~= Seq::empty());
        }
        graph
    }

    /// Stores a new line without children and returns its index.
    pub fn add_line(&mut self, message: String) -> (id: usize)
        requires
            old(self).wf(),
        ensures
            final(self).wf(),
            final(self)@ == old(self)@.with_line(message@),
            id == old(self)@.labels.len(),
    {
        let id = self.nodes.len();
        let line = Line { id, content: message };
        self.nodes.push(line);
        self.edges.push(Vec::new());
        proof {
            assert(self@.labels =~= old(self)@.labels.push(message@));
            assert(self@.children =~~= old(self)@.children.push(Seq::empty()));
        }
        id
    }

    /// Appends `child` to the children of `parent`.
    pub fn connect_edges(&mut self, parent: usize, child: usize)
        requires
            old(self).wf(),
            parent < child < old(self)@.labels.len(),
        ensures
            final(self).wf(),
            final(self)@ == old(self)@.with_edge(parent as int, child as int),
    {
        let mut list = Vec::new();
        std::mem::swap(&mut list, &mut self.edges[parent]);
        list.push(child);
        self.edges[parent] = list;
        proof {
            assert(self@.labels =~= old(self)@.labels);
            assert(self@.children =~~= old(self)@.with_edge(parent as int, child as int).children);
        }
    }

    /// The line stored under `id`.
    pub fn get_line(&self, id: usize) -> (line: &Line)
        requires
            self.wf(),
            self@.has_line(id as int),
        ensures
            self.holds(line),
            line.index() == id,
    {
        &self.nodes[id]
    }
}

/// A handle to one line of a forest. It stays valid for as long as the
/// forest that handed it out.
pub struct OutputLine {
    id: usize,
}

impl View for OutputLine {
    type V = int;

    closed spec fn view(&self) -> int {
        self.id as int
    }
}

/// A forest of labelled lines that is drawn with box-drawing connectors.
pub struct TreePrinter {
    graph: Graph,
    roots: Vec<usize>,
}

impl View for TreePrinter {
    type V = TreeView;

    closed spec fn view(&self) -> TreeView {
        TreeView {
            graph: self.graph@,
            roots: Seq::new(self.roots@.len(), |r: int| self.roots@[r] as int),
        }
    }
}

impl OutputLine {
    /// Adds a line as the last child of this one and returns its handle.
    /// `tree` is the forest that handed this handle out; [`TreePrinter::owns`]
    /// tells whether it is.
    pub fn add_line(&self, tree: &mut TreePrinter, message: String) -> (child: OutputLine)
        requires
            old(tree).wf(),
            old(tree)@.has_line(self@),
        ensures
            final(tree).wf(),
            final(tree)@ == old(tree)@.with_child(self@, message@),
            final(tree)@.has_line(child@),
            child@ == old(tree)@.graph.labels.len(),
    {
        let child_id = tree.graph.add_line(message);
        tree.graph.connect_edges(self.id, child_id);
        proof {
            assert(tree@.roots =~= old(tree)@.roots);
        }
        OutputLine { id: child_id }
    }
}

impl Default for TreePrinter {
    /// The empty forest.
    fn default() -> (tree: TreePrinter)
        ensures
            tree.wf(),
            tree@ == TreeView::empty(),
    {
        let tree = TreePrinter { graph: Graph::new(), roots: Vec::new() };
        proof {
            assert(tree@.roots =~= Seq::empty());
        }
        tree
    }
}

impl TreePrinter {
    /// The forest's own invariant; every forest that this module hands
    /// out has it.
    pub closed spec fn wf(&self) -> bool {
        &&& self.graph.wf()
        &&& self@.wf()
    }

    /// The view of a well-formed forest is well-formed, so its drawing
    /// unfolds.
    pub proof fn lemma_view_wf(&self)
        requires
            self.wf(),
        ensures
            self@.wf(),
    {
    }

    /// Adds a line as the last root and returns its handle.
    pub fn add_line(&mut self, line: String) -> (root: OutputLine)
        requires
            old(self).wf(),
        ensures
            final(self).wf(),
            final(self)@ == old(self)@.with_root(line@),
            final(self)@.has_line(root@),
            root@ == old(self)@.graph.labels.len(),
    {
        let id = self.graph.add_line(line);
        self.roots.push(id);
        proof {
            assert(self@.roots =~= old(self)@.roots.push(id as int));
        }
        OutputLine { id }
    }

    /// Whether `line` is a handle to a line of this forest.
    pub fn owns(&self, line: &OutputLine) -> (yes: bool)
        ensures
            yes == self@.has_line(line@),
    {
        line.id < self.graph.nodes.len()
    }

    /// Draws the forest: every root in the order it was added, each
    /// followed depth first by what is below it.
    pub fn render(&self) -> (text: String)
        requires
            self.wf(),
        ensures
            text@ == self@.render(),
    {
        let size = self.roots.len();
        let mut buffer = String::new();
        let mut idx: usize = 0;
        while idx < size
            invariant
                self.graph.wf(),
                self@.wf(),
                size == self.roots@.len(),
                idx <= size,
                buffer@ + self@.render_roots(idx as int) == self@.render(),
            decreases size - idx,
        {
            let line = self.graph.get_line(self.roots[idx]);
            let below = line.print("", idx == size - 1, &self.graph);
            proof {
                reveal_strlit("");
                assert(""@ =~= Seq::<char>::empty());
                let done = buffer@;
                let rest = self@.render_roots(idx + 1);
                assert((done + below@) + rest =~= done + (below@ + rest));
            }
            buffer.append(below.as_str());
            idx += 1;
        }
        assert(buffer@ + Seq::<char>::empty() =~= buffer@);
        buffer
    }
}

/// Two roots with two childless children each, whatever their labels: of
/// each root the first child is drawn with the connector of a line that has
/// siblings after it and the second with the connector of a last line; a
/// bar runs down under the first root, and none under the second.
pub proof fn lemma_two_roots_with_two_children(
    first: Seq<char>,
    first_a: Seq<char>,
    first_b: Seq<char>,
    second: Seq<char>,
    second_a: Seq<char>,
    second_b: Seq<char>,
)
    ensures
        TreeView::empty().with_root(first).with_child(0, first_a).with_child(0, first_b).with_root(
            second,
        ).with_child(3, second_a).with_child(3, second_b).render() == line_text(
            Seq::empty(),
            false,
            first,
        ) + line_text(bar_segment(), false, first_a) + line_text(bar_segment(), true, first_b)
            + line_text(Seq::empty(), true, second) + line_text(blank_segment(), false, second_a)
            + line_text(blank_segment(), true, second_b),
{
    let tree = TreeView::empty().with_root(first).with_child(0, first_a).with_child(0, first_b).with_root(
        second,
    ).with_child(3, second_a).with_child(3, second_b);
    let graph = tree.graph;
    let none = Seq::<char>::empty();
    assert(graph.labels =~= seq![first, first_a, first_b, second, second_a, second_b]);
    assert(graph.children =~~= seq![
        seq![1int, 2int],
        Seq::<int>::empty(),
        Seq::<int>::empty(),
        seq![4int, 5int],
        Seq::<int>::empty(),
        Seq::<int>::empty(),
    ]);
    assert(tree.roots =~= seq![0int, 3int]);
    assert(graph.wf());
    assert(tree.wf());
    let bar = child_prefix(none, false);
    let blank = child_prefix(none, true);
    assert(bar =~= bar_segment());
    assert(blank =~= blank_segment());
    assert forall|leaf: int, prefix: Seq<char>, is_last: bool|
        leaf == 1 || leaf == 2 || leaf == 4 || leaf == 5 implies #[trigger] graph.render_line(
        leaf,
        prefix,
        is_last,
    ) == line_text(prefix, is_last, graph.labels[leaf]) by {
        assert(graph.render_children(leaf, 0, child_prefix(prefix, is_last)) == none);
        assert(line_text(prefix, is_last, graph.labels[leaf]) + none =~= line_text(
            prefix,
            is_last,
            graph.labels[leaf],
        ));
    }
    assert(graph.children[0] == seq![1int, 2int]);
    assert(graph.children[3] == seq![4int, 5int]);
    assert(graph.render_line(1, bar, false) == line_text(bar, false, first_a));
    assert(graph.render_line(2, bar, true) == line_text(bar, true, first_b));
    assert(graph.render_line(4, blank, false) == line_text(blank, false, second_a));
    assert(graph.render_line(5, blank, true) == line_text(blank, true, second_b));
    assert(graph.render_children(0, 2, bar) == none);
    assert(graph.render_children(0, 1, bar) =~= line_text(bar, true, first_b));
    assert(graph.render_children(0, 0, bar) =~= line_text(bar, false, first_a) + line_text(
        bar,
        true,
        first_b,
    ));
    assert(graph.render_children(3, 2, blank) == none);
    assert(graph.render_children(3, 1, blank) =~= line_text(blank, true, second_b));
    assert(graph.render_children(3, 0, blank) =~= line_text(blank, false, second_a) + line_text(
        blank,
        true,
        second_b,
    ));
    assert(tree.render_roots(2) == none);
    assert(tree.render_roots(1) =~= graph.render_line(3, none, true));
    assert(tree.render_roots(0) =~= graph.render_line(0, none, false) + graph.render_line(
        3,
        none,
        true,
    ));
    assert(tree.render() =~= line_text(none, false, first) + line_text(bar, false, first_a)
        + line_text(bar, true, first_b) + line_text(none, true, second) + line_text(
        blank,
        false,
        second_a,
    ) + line_text(blank, true, second_b));
}

} // verus!
