//! The document tree: what the events of a Markdown source make up.

use vstd::prelude::*;

use crate::agent_markdown_renderer::literal::clean_text;
use crate::agent_markdown_renderer::literal::without_controls;
use crate::text::is_control_char;

verus! {

/// What kind of alert a block quote is.
#[derive(Clone, Copy, Debug, PartialEq, Eq, Structural)]
pub enum QuoteKind {
    Note,
    Tip,
    Important,
    Warning,
    Caution,
}

/// How the cells of a column are aligned.
#[derive(Clone, Copy, Debug, PartialEq, Eq, Structural)]
pub enum Alignment {
    Unset,
    Left,
    Center,
    Right,
}

/// The model of a tag.
#[verifier::ext_equal]
pub enum TagText {
    Paragraph,
    Heading(u8),
    BlockQuote(Option<QuoteKind>),
    IndentedCode,
    FencedCode(Seq<char>),
    HtmlBlock,
    List(Option<u64>),
    Item,
    FootnoteDefinition(Seq<char>),
    DefinitionList,
    DefinitionListTitle,
    DefinitionListDefinition,
    Table(Seq<Alignment>),
    TableHead,
    TableRow,
    TableCell,
    Emphasis,
    Strong,
    Strikethrough,
    Superscript,
    Subscript,
    Link,
    Image(Seq<char>),
    MetadataBlock,
}

/// What an element is: a heading with its level, a fenced code block with its info string, a
/// list with its first number, an image with its address, and so on.
#[derive(Debug)]
pub enum Tag {
    Paragraph,
    Heading(u8),
    BlockQuote(Option<QuoteKind>),
    IndentedCode,
    FencedCode(String),
    HtmlBlock,
    List(Option<u64>),
    Item,
    FootnoteDefinition(String),
    DefinitionList,
    DefinitionListTitle,
    DefinitionListDefinition,
    Table(Vec<Alignment>),
    TableHead,
    TableRow,
    TableCell,
    Emphasis,
    Strong,
    Strikethrough,
    Superscript,
    Subscript,
    Link,
    Image(String),
    MetadataBlock,
}

impl View for Tag {
    type V = TagText;

    open spec fn view(&self) -> TagText {
        match self {
            Tag::Paragraph => TagText::Paragraph,
            Tag::Heading(level) => TagText::Heading(*level),
            Tag::BlockQuote(kind) => TagText::BlockQuote(*kind),
            Tag::IndentedCode => TagText::IndentedCode,
            Tag::FencedCode(info) => TagText::FencedCode(info@),
            Tag::HtmlBlock => TagText::HtmlBlock,
            Tag::List(start) => TagText::List(*start),
            Tag::Item => TagText::Item,
            Tag::FootnoteDefinition(label) => TagText::FootnoteDefinition(label@),
            Tag::DefinitionList => TagText::DefinitionList,
            Tag::DefinitionListTitle => TagText::DefinitionListTitle,
            Tag::DefinitionListDefinition => TagText::DefinitionListDefinition,
            Tag::Table(alignments) => TagText::Table(alignments@),
            Tag::TableHead => TagText::TableHead,
            Tag::TableRow => TagText::TableRow,
            Tag::TableCell => TagText::TableCell,
            Tag::Emphasis => TagText::Emphasis,
            Tag::Strong => TagText::Strong,
            Tag::Strikethrough => TagText::Strikethrough,
            Tag::Superscript => TagText::Superscript,
            Tag::Subscript => TagText::Subscript,
            Tag::Link => TagText::Link,
            Tag::Image(address) => TagText::Image(address@),
            Tag::MetadataBlock => TagText::MetadataBlock,
        }
    }
}

/// The model of an event.
#[verifier::ext_equal]
pub enum EventText {
    Start(TagText),
    End,
    Text(Seq<char>),
    Code(Seq<char>),
    InlineMath(Seq<char>),
    DisplayMath(Seq<char>),
    Html(Seq<char>),
    InlineHtml(Seq<char>),
    FootnoteReference(Seq<char>),
    SoftBreak,
    HardBreak,
    Rule,
    TaskListMarker(bool),
}

/// An event in the course of reading a Markdown source: an element starts or ends, or something
/// stands in it.
#[derive(Debug)]
pub enum Event {
    Start(Tag),
    End,
    Text(String),
    Code(String),
    InlineMath(String),
    DisplayMath(String),
    Html(String),
    InlineHtml(String),
    FootnoteReference(String),
    SoftBreak,
    HardBreak,
    Rule,
    TaskListMarker(bool),
}

impl View for Event {
    type V = EventText;

    open spec fn view(&self) -> EventText {
        match self {
            Event::Start(tag) => EventText::Start(tag@),
            Event::End => EventText::End,
            Event::Text(text) => EventText::Text(text@),
            Event::Code(text) => EventText::Code(text@),
            Event::InlineMath(text) => EventText::InlineMath(text@),
            Event::DisplayMath(text) => EventText::DisplayMath(text@),
            Event::Html(text) => EventText::Html(text@),
            Event::InlineHtml(text) => EventText::InlineHtml(text@),
            Event::FootnoteReference(label) => EventText::FootnoteReference(label@),
            Event::SoftBreak => EventText::SoftBreak,
            Event::HardBreak => EventText::HardBreak,
            Event::Rule => EventText::Rule,
            Event::TaskListMarker(checked) => EventText::TaskListMarker(*checked),
        }
    }
}

/// The models of `events`.
pub open spec fn events_view(events: Seq<Event>) -> Seq<EventText> {
    events.map_values(|event: Event| event@)
}

/// The model of a node.
pub enum NodeText {
    Element(TagText, Seq<NodeText>),
    Text(Seq<char>),
    Code(Seq<char>),
    InlineMath(Seq<char>),
    DisplayMath(Seq<char>),
    Html(Seq<char>),
    InlineHtml(Seq<char>),
    FootnoteReference(Seq<char>),
    SoftBreak,
    HardBreak,
    Rule,
    TaskListMarker(bool),
}

/// A node of the document tree.
#[derive(Debug)]
pub enum Node {
    Element { tag: Tag, children: Vec<Node> },
    Text(String),
    Code(String),
    InlineMath(String),
    DisplayMath(String),
    Html(String),
    InlineHtml(String),
    FootnoteReference(String),
    SoftBreak,
    HardBreak,
    Rule,
    TaskListMarker(bool),
}

/// The model of `node`.
pub open spec fn node_view(node: Node) -> NodeText
    decreases node,
{
    match node {
        Node::Element { tag, children } => NodeText::Element(tag@, nodes_view(children@)),
        Node::Text(text) => NodeText::Text(text@),
        Node::Code(text) => NodeText::Code(text@),
        Node::InlineMath(text) => NodeText::InlineMath(text@),
        Node::DisplayMath(text) => NodeText::DisplayMath(text@),
        Node::Html(text) => NodeText::Html(text@),
        Node::InlineHtml(text) => NodeText::InlineHtml(text@),
        Node::FootnoteReference(label) => NodeText::FootnoteReference(label@),
        Node::SoftBreak => NodeText::SoftBreak,
        Node::HardBreak => NodeText::HardBreak,
        Node::Rule => NodeText::Rule,
        Node::TaskListMarker(checked) => NodeText::TaskListMarker(checked),
    }
}

/// The models of `nodes`.
pub open spec fn nodes_view(nodes: Seq<Node>) -> Seq<NodeText>
    decreases nodes,
{
    if nodes.len() == 0 {
        Seq::empty()
    } else {
        nodes_view(nodes.drop_last()).push(node_view(nodes.last()))
    }
}

/// The models of nodes are the models of each.
pub proof fn lemma_nodes_view(nodes: Seq<Node>)
    ensures
        nodes_view(nodes).len() == nodes.len(),
        forall|i: int|
            0 <= i < nodes.len() ==> #[trigger] nodes_view(nodes)[i] == node_view(nodes[i]),
    decreases nodes.len(),
{
    if nodes.len() > 0 {
        lemma_nodes_view(nodes.drop_last());
    }
}

/// The model of nodes with one more.
proof fn lemma_node_pushed(nodes: Seq<Node>, node: Node)
    ensures
        nodes_view(nodes.push(node)) == nodes_view(nodes).push(node_view(node)),
{
    assert(nodes.push(node).drop_last() =~= nodes);
}

/// Elements that have been started, each with the nodes in it so far, and the nodes outside.
#[verifier::ext_equal]
pub struct Tree {
    pub root: Seq<NodeText>,
    pub open: Seq<(TagText, Seq<NodeText>)>,
}

/// `tree` with `node` in the innermost open element.
pub open spec fn node_added(tree: Tree, node: NodeText) -> Tree {
    if tree.open.len() > 0 {
        let (tag, children) = tree.open.last();
        Tree { open: tree.open.drop_last().push((tag, children.push(node))), ..tree }
    } else {
        Tree { root: tree.root.push(node), ..tree }
    }
}

/// `tree` with the innermost open element ended.
pub open spec fn element_ended(tree: Tree) -> Tree {
    if tree.open.len() > 0 {
        let (tag, children) = tree.open.last();
        node_added(
            Tree { open: tree.open.drop_last(), ..tree },
            NodeText::Element(tag, children),
        )
    } else {
        tree
    }
}

/// Whether `c` is shown or separates lines or columns.
pub open spec fn is_multiline_char(c: char) -> bool {
    c == '\n' || c == '\r' || c == '\t' || !is_control_char(c)
}

/// `s` without its control characters other than line feeds, carriage returns and tabs.
pub open spec fn multiline_text(s: Seq<char>) -> Seq<char>
    decreases s.len(),
{
    if s.len() == 0 {
        s
    } else if is_multiline_char(s.last()) {
        multiline_text(s.drop_last()).push(s.last())
    } else {
        multiline_text(s.drop_last())
    }
}

/// `tree` after one event.
pub open spec fn event_added(tree: Tree, event: EventText) -> Tree {
    match event {
        EventText::Start(tag) => Tree { open: tree.open.push((tag, Seq::empty())), ..tree },
        EventText::End => element_ended(tree),
        EventText::Text(text) => node_added(tree, NodeText::Text(multiline_text(text))),
        EventText::Code(text) => node_added(tree, NodeText::Code(without_controls(text))),
        EventText::InlineMath(text) => node_added(
            tree,
            NodeText::InlineMath(without_controls(text)),
        ),
        EventText::DisplayMath(text) => node_added(
            tree,
            NodeText::DisplayMath(without_controls(text)),
        ),
        EventText::Html(text) => node_added(tree, NodeText::Html(multiline_text(text))),
        EventText::InlineHtml(text) => node_added(
            tree,
            NodeText::InlineHtml(without_controls(text)),
        ),
        EventText::FootnoteReference(label) => node_added(
            tree,
            NodeText::FootnoteReference(without_controls(label)),
        ),
        EventText::SoftBreak => node_added(tree, NodeText::SoftBreak),
        EventText::HardBreak => node_added(tree, NodeText::HardBreak),
        EventText::Rule => node_added(tree, NodeText::Rule),
        EventText::TaskListMarker(checked) => node_added(tree, NodeText::TaskListMarker(checked)),
    }
}

/// The tree that `events` make up.
pub open spec fn tree_of(events: Seq<EventText>) -> Tree
    decreases events.len(),
{
    if events.len() == 0 {
        Tree { root: Seq::empty(), open: Seq::empty() }
    } else {
        event_added(tree_of(events.drop_last()), events.last())
    }
}

/// The nodes of `tree` with all its open elements ended.
pub open spec fn all_ended(tree: Tree) -> Seq<NodeText>
    decreases tree.open.len(),
{
    if tree.open.len() == 0 {
        tree.root
    } else {
        all_ended(element_ended(tree))
    }
}

/// The document that `events` make up.
pub open spec fn document_of(events: Seq<EventText>) -> Seq<NodeText> {
    all_ended(tree_of(events))
}

/// The text without its control characters other than line feeds, carriage returns and tabs.
pub fn clean_multiline_text(text: &str) -> (r: String)
    ensures
        r@ == multiline_text(text@),
{
    let mut r = String::new();
    for c in it: text.chars()
        invariant
            it.seq() == text@,
            r@ == multiline_text(text@.take(it.index() as int)),
    {
        assert(text@.take(it.index() + 1).drop_last() =~= text@.take(it.index() as int));
        if c == '\n' || c == '\r' || c == '\t' || !c.is_control() {
            r.push(c);
        }
    }
    assert(text@.take(text@.len() as int) =~= text@);
    r
}

/// The models of open elements.
spec fn open_view(open: Seq<(Tag, Vec<Node>)>) -> Seq<(TagText, Seq<NodeText>)> {
    open.map_values(|element: (Tag, Vec<Node>)| (element.0@, nodes_view(element.1@)))
}

/// Elements that have been started, each with the nodes in it so far, and the nodes outside.
struct TreeBuilder {
    root: Vec<Node>,
    open: Vec<(Tag, Vec<Node>)>,
}

impl View for TreeBuilder {
    type V = Tree;

    closed spec fn view(&self) -> Tree {
        Tree { root: nodes_view(self.root@), open: open_view(self.open@) }
    }
}

impl TreeBuilder {
    fn push_node(&mut self, node: Node)
        ensures
            final(self)@ == node_added(old(self)@, node_view(node)),
    {
        let ghost before = self@;
        match self.open.pop() {
            Some((tag, children)) => {
                let mut children = children;
                proof {
                    lemma_node_pushed(children@, node);
                }
                let ghost kept = self.open@;
                children.push(node);
                self.open.push((tag, children));
                assert(before.open.drop_last() =~= open_view(kept));
                assert(self@.open =~= node_added(before, node_view(node)).open);
            },
            None => {
                proof {
                    lemma_node_pushed(self.root@, node);
                }
                self.root.push(node);
                assert(self@.open =~= before.open);
            },
        }
    }

    fn start(&mut self, tag: Tag)
        ensures
            final(self)@ == event_added(old(self)@, EventText::Start(tag@)),
    {
        let ghost before = self@;
        let children: Vec<Node> = Vec::new();
        assert(nodes_view(children@) == Seq::<NodeText>::empty());
        self.open.push((tag, children));
        assert(self@.open =~= before.open.push((tag@, Seq::empty())));
    }

    fn end(&mut self)
        ensures
            final(self)@ == element_ended(old(self)@),
            old(self)@.open.len() > 0 ==> final(self)@.open.len() == old(self)@.open.len() - 1,
    {
        let ghost before = self@;
        if let Some((tag, children)) = self.open.pop() {
            assert(self@.open =~= before.open.drop_last());
            self.push_node(Node::Element { tag, children });
        }
    }

    fn event(&mut self, event: Event)
        ensures
            final(self)@ == event_added(old(self)@, event@),
    {
        match event {
            Event::Start(tag) => self.start(tag),
            Event::End => self.end(),
            Event::Text(text) => self.push_node(Node::Text(clean_multiline_text(&text))),
            Event::Code(text) => self.push_node(Node::Code(clean_text(&text))),
            Event::InlineMath(text) => self.push_node(Node::InlineMath(clean_text(&text))),
            Event::DisplayMath(text) => self.push_node(Node::DisplayMath(clean_text(&text))),
            Event::Html(text) => self.push_node(Node::Html(clean_multiline_text(&text))),
            Event::InlineHtml(text) => self.push_node(Node::InlineHtml(clean_text(&text))),
            Event::FootnoteReference(label) => self.push_node(
                Node::FootnoteReference(clean_text(&label)),
            ),
            Event::SoftBreak => self.push_node(Node::SoftBreak),
            Event::HardBreak => self.push_node(Node::HardBreak),
            Event::Rule => self.push_node(Node::Rule),
            Event::TaskListMarker(checked) => self.push_node(Node::TaskListMarker(checked)),
        }
    }
}

/// The document that the events make up. An end with nothing to end is passed over, and what has
/// not ended by the last event ends there.
pub fn build_document(events: Vec<Event>) -> (r: Vec<Node>)
    ensures
        nodes_view(r@) == document_of(events_view(events@)),
{
    let ghost all = events_view(events@);
    let mut builder = TreeBuilder { root: Vec::new(), open: Vec::new() };
    assert(builder@ =~= tree_of(all.take(0)));
    for event in it: events
        invariant
            it.seq() == events@,
            all == events_view(events@),
            builder@ == tree_of(all.take(it.index() as int)),
    {
        assert(all.take(it.index() + 1).drop_last() =~= all.take(it.index() as int));
        assert(all.take(it.index() + 1).last() == event@);
        builder.event(event);
    }
    assert(all.take(all.len() as int) =~= all);
    while builder.open.len() > 0
        invariant
            all_ended(builder@) == document_of(all),
        decreases builder@.open.len(),
    {
        builder.end();
    }
    builder.root
}

} // verus!
