//! The document model: an HTML page as a tree of nodes.
//!
//! The page is parsed by `scraper` (html5ever). What the rest of the library
//! reads of it is handed over as a stream of tokens, one `Open` and one `Close`
//! per node in document order, which this module turns into a tree of plain
//! values.
use ego_tree::iter::Edge;
use scraper::Node::{Element, Text};
use vstd::prelude::*;

verus! {

/// What the library reads of an element: its local name and the four
/// attributes that the Markdown conversion looks at.
pub struct ElementData {
    pub name: String,
    pub href: Option<String>,
    pub class: Option<String>,
    pub alt: Option<String>,
    pub src: Option<String>,
}

/// The kind of a node of the page.
pub enum NodeKind {
    Element(ElementData),
    Text(String),
    /// The document itself, a comment, a doctype, a processing instruction.
    Other,
}

/// One step of a walk through the page in document order.
pub enum HtmlToken {
    Open(NodeKind),
    Close,
}

/// A node of the page; `pos` is the index of its `Open` token in the walk.
pub struct Node {
    pub kind: NodeKind,
    pub pos: usize,
    pub children: Vec<Node>,
}

/// The mathematical model of an element.
pub struct ElementView {
    pub name: Seq<char>,
    pub href: Option<Seq<char>>,
    pub class: Option<Seq<char>>,
    pub alt: Option<Seq<char>>,
    pub src: Option<Seq<char>>,
}

pub enum KindView {
    Element(ElementView),
    Text(Seq<char>),
    Other,
}

pub enum TokenView {
    Open(KindView),
    Close,
}

pub struct NodeView {
    pub kind: KindView,
    pub pos: int,
    pub children: Seq<NodeView>,
}

pub open spec fn opt_view(o: Option<String>) -> Option<Seq<char>> {
    match o {
        Some(s) => Some(s@),
        None => None,
    }
}

impl View for ElementData {
    type V = ElementView;

    open spec fn view(&self) -> ElementView {
        ElementView {
            name: self.name@,
            href: opt_view(self.href),
            class: opt_view(self.class),
            alt: opt_view(self.alt),
            src: opt_view(self.src),
        }
    }
}

impl View for NodeKind {
    type V = KindView;

    open spec fn view(&self) -> KindView {
        match self {
            NodeKind::Element(e) => KindView::Element(e@),
            NodeKind::Text(s) => KindView::Text(s@),
            NodeKind::Other => KindView::Other,
        }
    }
}

impl View for HtmlToken {
    type V = TokenView;

    open spec fn view(&self) -> TokenView {
        match self {
            HtmlToken::Open(k) => TokenView::Open(k@),
            HtmlToken::Close => TokenView::Close,
        }
    }
}

pub open spec fn tokens_view(t: Seq<HtmlToken>) -> Seq<TokenView> {
    t.map_values(|x: HtmlToken| x@)
}

/// The model of a forest of nodes.
pub open spec fn forest_view(ns: Seq<Node>) -> Seq<NodeView>
    decreases ns,
{
    if ns.len() == 0 {
        seq![]
    } else {
        seq![
            NodeView {
                kind: ns[0].kind@,
                pos: ns[0].pos as int,
                children: forest_view(ns[0].children@),
            },
        ] + forest_view(ns.drop_first())
    }
}

impl View for Node {
    type V = NodeView;

    open spec fn view(&self) -> NodeView {
        NodeView { kind: self.kind@, pos: self.pos as int, children: forest_view(self.children@) }
    }
}

/// The walk through a forest: each node is its `Open` token, its children, and a `Close`.
pub open spec fn flatten(f: Seq<NodeView>) -> Seq<TokenView>
    decreases f,
{
    if f.len() == 0 {
        seq![]
    } else {
        seq![TokenView::Open(f[0].kind)] + flatten(f[0].children) + seq![TokenView::Close]
            + flatten(f.drop_first())
    }
}

/// Every node of the forest records where its `Open` token stands in a walk starting at `start`.
pub open spec fn positions_from(f: Seq<NodeView>, start: int) -> bool
    decreases f,
{
    if f.len() == 0 {
        true
    } else {
        &&& f[0].pos == start
        &&& positions_from(f[0].children, start + 1)
        &&& positions_from(
            f.drop_first(),
            start + 2 + flatten(f[0].children).len(),
        )
    }
}

/// Reads a forest off the walk, from index `i` up to the first unmatched `Close`
/// or the end; `None` where a node is not closed.
pub open spec fn parse_forest(t: Seq<TokenView>, i: int) -> Option<(Seq<NodeView>, int)>
    decreases t.len() - i,
{
    if i < 0 || i > t.len() {
        None
    } else if i == t.len() || t[i] is Close {
        Some((seq![], i))
    } else {
        match parse_forest(t, i + 1) {
            Some((children, j)) => if i < j < t.len() && t[j] is Close {
                match parse_forest(t, j + 1) {
                    Some((rest, k)) => Some(
                        (
                            seq![NodeView { kind: t[i]->Open_0, pos: i, children }] + rest,
                            k,
                        ),
                    ),
                    None => None,
                }
            } else {
                None
            },
            None => None,
        }
    }
}

/// The walk is that of a forest.
pub open spec fn is_walk(t: Seq<TokenView>) -> bool {
    exists|f: Seq<NodeView>| flatten(f) == t
}


/// What `parse_forest` reads is the walk of what it returns.
pub proof fn lemma_parse_forest_sound(t: Seq<TokenView>, i: int)
    requires
        parse_forest(t, i) is Some,
    ensures
        ({
            let (f, j) = parse_forest(t, i)->0;
            &&& i <= j <= t.len()
            &&& t.subrange(i, j) == flatten(f)
            &&& (j == t.len() || t[j] is Close)
            &&& positions_from(f, i)
        }),
    decreases t.len() - i,
{
    if i == t.len() || t[i] is Close {
        assert(t.subrange(i, i) =~= Seq::<TokenView>::empty());
    } else {
        let (children, j) = parse_forest(t, i + 1)->0;
        lemma_parse_forest_sound(t, i + 1);
        let (rest, k) = parse_forest(t, j + 1)->0;
        lemma_parse_forest_sound(t, j + 1);
        let f = parse_forest(t, i).unwrap().0;
        let node = NodeView { kind: t[i]->Open_0, pos: i, children };
        assert(f == seq![node] + rest);
        assert(f[0] == node);
        assert(f.drop_first() =~= rest);
        assert(t[i] == TokenView::Open(node.kind));
        assert(t.subrange(i, k) =~= seq![TokenView::Open(node.kind)] + t.subrange(i + 1, j)
            + seq![TokenView::Close] + t.subrange(j + 1, k));
        assert(flatten(f) == seq![TokenView::Open(f[0].kind)] + flatten(f[0].children)
            + seq![TokenView::Close] + flatten(f.drop_first()));
        assert(flatten(children).len() == j - (i + 1));
    }
}

pub proof fn lemma_flatten_len(f: Seq<NodeView>)
    ensures
        f.len() > 0 ==> flatten(f).len() == 2 + flatten(f[0].children).len() + flatten(
            f.drop_first(),
        ).len(),
        f.len() > 0 ==> flatten(f)[0] == TokenView::Open(f[0].kind),
        f.len() == 0 ==> flatten(f).len() == 0,
{
}

/// `parse_forest` reads back any forest whose walk stands at `i`, when the walk
/// is followed by the end or by a `Close`.
pub proof fn lemma_parse_forest_complete(t: Seq<TokenView>, i: int, f: Seq<NodeView>)
    requires
        0 <= i,
        i + flatten(f).len() <= t.len(),
        t.subrange(i, i + flatten(f).len()) == flatten(f),
        i + flatten(f).len() == t.len() || t[i + flatten(f).len()] is Close,
    ensures
        parse_forest(t, i) is Some,
        parse_forest(t, i).unwrap().1 == i + flatten(f).len(),
    decreases f,
{
    lemma_flatten_len(f);
    if f.len() == 0 {
    } else {
        let c = f[0].children;
        let lc: int = flatten(c).len() as int;
        let r = f.drop_first();
        let lr: int = flatten(r).len() as int;
        let whole = flatten(f);
        assert(whole == seq![TokenView::Open(f[0].kind)] + flatten(c) + seq![TokenView::Close]
            + flatten(r));
        assert(t[i] == whole[0]);
        assert(t.subrange(i + 1, i + 1 + lc) =~= whole.subrange(1, 1 + lc));
        assert(whole.subrange(1, 1 + lc) =~= flatten(c));
        assert(t[i + 1 + lc] == whole[1 + lc]);
        lemma_parse_forest_complete(t, i + 1, c);
        let j: int = i + 1 + lc;
        assert(t.subrange(j + 1, j + 1 + lr) =~= whole.subrange(2 + lc, 2 + lc + lr));
        assert(whole.subrange(2 + lc, 2 + lc + lr) =~= flatten(r));
        lemma_parse_forest_complete(t, j + 1, r);
    }
}


pub proof fn lemma_forest_view_index(ns: Seq<Node>)
    ensures
        forest_view(ns).len() == ns.len(),
        forall|k: int| 0 <= k < ns.len() ==> #[trigger] forest_view(ns)[k] == ns[k]@,
    decreases ns,
{
    if ns.len() > 0 {
        lemma_forest_view_index(ns.drop_first());
        assert forall|k: int| 0 <= k < ns.len() implies #[trigger] forest_view(ns)[k] == ns[k]@ by {
            if k > 0 {
                assert(ns.drop_first()[k - 1] == ns[k]);
            }
        }
    }
}

pub proof fn lemma_forest_view_push(ns: Seq<Node>, n: Node)
    ensures
        forest_view(ns.push(n)) == forest_view(ns) + seq![n@],
{
    lemma_forest_view_index(ns);
    lemma_forest_view_index(ns.push(n));
    assert(forest_view(ns.push(n)) =~= forest_view(ns) + seq![n@]);
}

pub open spec fn glue(prefix: Seq<NodeView>, r: Option<(Seq<NodeView>, int)>) -> Option<(Seq<NodeView>, int)> {
    match r {
        Some((f, k)) => Some((prefix + f, k)),
        None => None,
    }
}

fn copy_opt(o: &Option<String>) -> (r: Option<String>)
    ensures
        opt_view(r) == opt_view(*o),
{
    match o {
        Some(s) => Some(s.clone()),
        None => None,
    }
}

impl ElementData {
    pub fn copy(&self) -> (r: ElementData)
        ensures
            r@ == self@,
    {
        ElementData {
            name: self.name.clone(),
            href: copy_opt(&self.href),
            class: copy_opt(&self.class),
            alt: copy_opt(&self.alt),
            src: copy_opt(&self.src),
        }
    }
}

impl NodeKind {
    pub fn copy(&self) -> (r: NodeKind)
        ensures
            r@ == self@,
    {
        match self {
            NodeKind::Element(e) => NodeKind::Element(e.copy()),
            NodeKind::Text(s) => NodeKind::Text(s.clone()),
            NodeKind::Other => NodeKind::Other,
        }
    }
}

/// Builds the forest that the walk holds from `start` up to the first unmatched
/// `Close` or the end, as `parse_forest` reads it.
fn build_forest(tokens: &Vec<HtmlToken>, start: usize) -> (res: Option<(Vec<Node>, usize)>)
    requires
        start <= tokens.len(),
    ensures
        match parse_forest(tokens_view(tokens@), start as int) {
            Some((f, j)) => res matches Some((g, k)) && forest_view(g@) == f && k == j,
            None => res is None,
        },
    decreases tokens.len() - start,
{
    let ghost t = tokens_view(tokens@);
    let mut out: Vec<Node> = Vec::new();
    let mut i: usize = start;
    loop
        invariant
            start <= i <= tokens.len(),
            t == tokens_view(tokens@),
            parse_forest(t, start as int) == glue(forest_view(out@), parse_forest(t, i as int)),
        decreases tokens.len() - i,
    {
        if i == tokens.len() {
            assert(forest_view(out@) + seq![] =~= forest_view(out@));
            return Some((out, i));
        }
        assert(t[i as int] == tokens@[i as int]@);
        match &tokens[i] {
            HtmlToken::Close => {
                assert(forest_view(out@) + seq![] =~= forest_view(out@));
                return Some((out, i));
            },
            HtmlToken::Open(kind) => {
                match build_forest(tokens, i + 1) {
                    None => {
                        return None;
                    },
                    Some((children, j)) => {
                        let closed = j > i && j < tokens.len() && match &tokens[j] {
                            HtmlToken::Close => true,
                            HtmlToken::Open(_) => false,
                        };
                        assert(closed ==> t[j as int] == tokens@[j as int]@);
                        if !closed {
                            return None;
                        }
                        let node = Node { kind: kind.copy(), pos: i, children };
                        proof {
                            lemma_forest_view_push(out@, node);
                            let rest = parse_forest(t, j + 1);
                            if rest is Some {
                                assert(forest_view(out@) + (seq![node@] + rest.unwrap().0)
                                    =~= forest_view(out@) + seq![node@] + rest.unwrap().0);
                            }
                        }
                        out.push(node);
                        i = j + 1;
                    },
                }
            },
        }
    }
}

/// The node matches the selector whose per-token answers are `flags`.
pub open spec fn is_match(n: NodeView, flags: Seq<bool>) -> bool {
    &&& n.kind is Element
    &&& 0 <= n.pos < flags.len()
    &&& flags[n.pos]
}

/// The walk through the page that `scraper::Html::parse_document` builds from `html`.
pub uninterp spec fn parsed_html(html: Seq<char>) -> Seq<TokenView>;

/// For each step of that walk: whether it opens an element that the CSS selector matches.
pub uninterp spec fn selector_matches(html: Seq<char>, selector: Seq<char>) -> Seq<bool>;

/// `ego_tree`'s node id: the index of a node in the arena of the parsed tree.
#[verifier::external_type_specification]
#[verifier::external_body]
pub struct ExNodeId(ego_tree::NodeId);

/// Whether, in the tree that `scraper::Html::parse_document` builds from `html`, the
/// node whose `Open` token stands at step `p` of the walk was created before the node
/// at step `q`: their order in the tree's arena, which `Html::select` follows.
pub uninterp spec fn arena_before(html: Seq<char>, p: int, q: int) -> bool;

/// Parses `html` with `scraper::Html::parse_document` and walks the tree with
/// `ego_tree`'s `Traverse` from the document node. The contract names the walk
/// (`parsed_html`) and says that the tokens are that walk, and that it is the walk
/// of a forest (`Traverse` opens a node, walks its children in turn, then closes
/// it); the element data holds the local name and what
/// `scraper::node::Element::attr` gives for four attributes. Beside each token stands
/// the id of the node it opens or closes.
#[verifier::external_body]
fn html_tokens(html: &str) -> (res: (Vec<HtmlToken>, Vec<ego_tree::NodeId>))
    ensures
        tokens_view(res.0@) == parsed_html(html@),
        is_walk(tokens_view(res.0@)),
        res.1.len() == res.0.len(),
{
    let doc = scraper::Html::parse_document(html);
    doc.tree.root().traverse().map(|edge| match edge {
        Edge::Open(node) => (HtmlToken::Open(match node.value() {
            Text(text) => NodeKind::Text(text.to_string()),
            Element(e) => NodeKind::Element(ElementData {
                name: e.name().to_string(),
                href: e.attr("href").map(String::from),
                class: e.attr("class").map(String::from),
                alt: e.attr("alt").map(String::from),
                src: e.attr("src").map(String::from),
            }),
            _ => NodeKind::Other,
        }), node.id()),
        Edge::Close(node) => (HtmlToken::Close, node.id()),
    }).unzip()
}

/// Parses `html` with `scraper::Html::parse_document` and the selector with
/// `scraper::Selector::parse`, walks the tree as `html_tokens` does, and answers for each
/// step whether it opens an element that `scraper::Selector::matches` accepts (every
/// answer is `false` when the selector does not parse). The contract only names the result.
#[verifier::external_body]
fn selector_flags(html: &str, selector: &str) -> (flags: Vec<bool>)
    ensures
        flags@ == selector_matches(html@, selector@),
{
    let doc = scraper::Html::parse_document(html);
    let sel = scraper::Selector::parse(selector).ok();
    doc.tree.root().traverse().map(|edge| match (edge, &sel) {
        (Edge::Open(node), Some(s)) => scraper::ElementRef::wrap(node).is_some_and(|e| s.matches(&e)),
        _ => false,
    }).collect()
}

/// A parsed page: its source text and the forest of its nodes.
pub struct Document {
    source: String,
    forest: Vec<Node>,
    ids: Vec<ego_tree::NodeId>,
}

impl Document {
    #[verifier::type_invariant]
    spec fn inv(self) -> bool {
        &&& flatten(forest_view(self.forest@)) == parsed_html(self.source@)
        &&& positions_from(forest_view(self.forest@), 0)
        &&& self.ids.len() == flatten(forest_view(self.forest@)).len()
    }

    /// The source text of the page.
    pub closed spec fn source(&self) -> Seq<char> {
        self.source@
    }

    /// The top-level nodes of the page.
    pub closed spec fn nodes(&self) -> Seq<NodeView> {
        forest_view(self.forest@)
    }

    /// The page as `scraper` parses `html`: the tree whose walk is the parser's walk.
    pub fn parse(html: &str) -> (doc: Document)
        ensures
            doc.source() == html@,
            flatten(doc.nodes()) == parsed_html(html@),
            positions_from(doc.nodes(), 0),
    {
        let (tokens, ids) = html_tokens(html);
        let ghost t = tokens_view(tokens@);
        let built = build_forest(&tokens, 0);
        proof {
            let f = choose|f: Seq<NodeView>| flatten(f) == t;
            assert(t.subrange(0, flatten(f).len() as int) =~= t);
            lemma_parse_forest_complete(t, 0, f);
            lemma_parse_forest_sound(t, 0);
            assert(t.subrange(0, t.len() as int) =~= t);
        }
        match built {
            Some((forest, _)) => Document { source: html.to_string(), forest, ids },
            None => {
                assert(false);
                Document { source: html.to_string(), forest: Vec::new(), ids: Vec::new() }
            },
        }
    }

    /// The top-level nodes of the page.
    pub fn forest(&self) -> (f: &Vec<Node>)
        ensures
            forest_view(f@) == self.nodes(),
            positions_from(self.nodes(), 0),
    {
        proof {
            use_type_invariant(self);
        }
        &self.forest
    }

    /// Whether the node at step `p` of the walk was created by the parser before the
    /// node at step `q`: `NodeId`'s order, the order of the nodes in the tree's arena,
    /// where `ego_tree` appends each node as the parser creates it (`ids` holds, for
    /// each step of the walk, the id that `html_tokens` gave beside it).
    #[verifier::external_body]
    pub(crate) fn created_before(&self, p: usize, q: usize) -> (r: bool)
        requires
            p < flatten(self.nodes()).len(),
            q < flatten(self.nodes()).len(),
        ensures
            r == arena_before(self.source(), p as int, q as int),
    {
        self.ids[p] < self.ids[q]
    }

    /// For each step of the walk through the page, whether it opens an element
    /// that `selector` matches.
    pub fn flags(&self, selector: &str) -> (flags: Vec<bool>)
        ensures
            flags@ == selector_matches(self.source(), selector@),
    {
        selector_flags(self.source.as_str(), selector)
    }
}

} // verus!
