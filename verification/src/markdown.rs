//! Conversion of an element of the page into Markdown: emphasis, links,
//! headings, quotes, lists, code, images and tables.
use crate::dom::{forest_view, lemma_forest_view_index, ElementData, KindView, Node, NodeKind, NodeView};
use crate::query::{matches_in, refs_view, select, select_in};
use crate::text::{
    decimal, has_char, has_str, is_blank, blank, push_decimal, repeat, repeat_str, str_eq,
    trim, trim_string, contains_seq, starts_with_char, strings_view,
};
use vstd::prelude::*;

verus! {

/// The state of the conversion that is handed down the tree.
#[derive(Clone, Copy)]
pub struct InlineCtx {
    pub bold: bool,
    pub italic: bool,
    pub in_blockquote: bool,
    pub list_depth: usize,
    pub ordered: bool,
    pub list_counter: usize,
}

pub open spec fn initial_ctx() -> InlineCtx {
    InlineCtx {
        bold: false,
        italic: false,
        in_blockquote: false,
        list_depth: 0,
        ordered: false,
        list_counter: 0,
    }
}

impl Default for InlineCtx {
    fn default() -> (c: InlineCtx)
        ensures
            c == initial_ctx(),
    {
        InlineCtx {
            bold: false,
            italic: false,
            in_blockquote: false,
            list_depth: 0,
            ordered: false,
            list_counter: 0,
        }
    }
}

/// For each step of the walk through the page: whether it opens a `tr`, a `th`, a `td`.
pub struct TableFlags {
    pub tr: Vec<bool>,
    pub th: Vec<bool>,
    pub td: Vec<bool>,
}

pub struct TableSel {
    pub tr: Seq<bool>,
    pub th: Seq<bool>,
    pub td: Seq<bool>,
}

impl View for TableFlags {
    type V = TableSel;

    open spec fn view(&self) -> TableSel {
        TableSel { tr: self.tr@, th: self.th@, td: self.td@ }
    }
}

/// The number of nodes of a forest.
pub open spec fn size_forest(f: Seq<NodeView>) -> nat
    decreases f,
{
    if f.len() == 0 {
        0
    } else {
        1 + size_forest(f[0].children) + size_forest(f.drop_first())
    }
}

/// The number of nodes of the subtree of `n`.
pub open spec fn node_size(n: NodeView) -> nat {
    1 + size_forest(n.children)
}

pub proof fn lemma_member_size(f: Seq<NodeView>, k: int)
    requires
        0 <= k < f.len(),
    ensures
        node_size(f[k]) <= size_forest(f),
    decreases f.len(),
{
    if k > 0 {
        lemma_member_size(f.drop_first(), k - 1);
        assert(f.drop_first()[k - 1] == f[k]);
    }
}

pub proof fn lemma_matches_size(f: Seq<NodeView>, flags: Seq<bool>, k: int)
    requires
        0 <= k < matches_in(f, flags).len(),
    ensures
        node_size(matches_in(f, flags)[k]) <= size_forest(f),
    decreases f,
{
    let own = crate::query::own_match(f[0], flags);
    let inner = matches_in(f[0].children, flags);
    let rest = matches_in(f.drop_first(), flags);
    assert(matches_in(f, flags) == own + inner + rest);
    if k < own.len() {
        assert(matches_in(f, flags)[k] == f[0]);
    } else if k < own.len() + inner.len() {
        assert(matches_in(f, flags)[k] == inner[k - own.len()]);
        lemma_matches_size(f[0].children, flags, k - own.len());
    } else {
        assert(matches_in(f, flags)[k] == rest[k - own.len() - inner.len()]);
        lemma_matches_size(f.drop_first(), flags, k - own.len() - inner.len());
    }
}

/// What `select` picks under `n` is smaller than `n`.
pub proof fn lemma_select_smaller(n: NodeView, flags: Seq<bool>, k: int)
    requires
        0 <= k < select_in(n, flags).len(),
    ensures
        node_size(select_in(n, flags)[k]) < node_size(n),
{
    lemma_matches_size(n.children, flags, k);
}

pub open spec fn sat_inc(x: usize) -> usize {
    if x == usize::MAX {
        x
    } else {
        (x + 1) as usize
    }
}

pub open spec fn sat_dec(x: usize) -> usize {
    if x == 0 {
        0
    } else {
        (x - 1) as usize
    }
}

pub open spec fn or_default(o: Option<Seq<char>>, d: Seq<char>) -> Seq<char> {
    match o {
        Some(s) => s,
        None => d,
    }
}

/// A site-relative URL made absolute on archiveofourown.org.
pub open spec fn absolute_url(u: Seq<char>) -> Seq<char> {
    if u.len() > 0 && u[0] == '/' {
        "https://archiveofourown.org"@ + u
    } else {
        u
    }
}

/// The level of a heading tag `h1` .. `h6`, and 0 for any other name.
pub open spec fn heading_level(name: Seq<char>) -> nat {
    if name == "h1"@ {
        1
    } else if name == "h2"@ {
        2
    } else if name == "h3"@ {
        3
    } else if name == "h4"@ {
        4
    } else if name == "h5"@ {
        5
    } else if name == "h6"@ {
        6
    } else {
        0
    }
}

pub open spec fn quote_mark(ctx: InlineCtx) -> Seq<char> {
    if ctx.in_blockquote {
        "> "@
    } else {
        seq![]
    }
}

pub open spec fn list_ctx(ctx: InlineCtx, ordered: bool) -> InlineCtx {
    InlineCtx { list_depth: sat_inc(ctx.list_depth), ordered, list_counter: 0, ..ctx }
}

pub open spec fn item_ctx(ctx: InlineCtx) -> InlineCtx {
    if ctx.ordered {
        InlineCtx { list_counter: sat_inc(ctx.list_counter), ..ctx }
    } else {
        ctx
    }
}

/// The marker that starts a list item.
pub open spec fn item_marker(ctx: InlineCtx) -> Seq<char> {
    let indent = repeat("  "@, sat_dec(ctx.list_depth) as nat);
    if ctx.ordered {
        "\n"@ + indent + decimal(sat_inc(ctx.list_counter) as nat) + ". "@
    } else {
        "\n"@ + indent + "- "@
    }
}

/// The Markdown of a forest of nodes, in the given state.
pub open spec fn md_forest(f: Seq<NodeView>, ctx: InlineCtx, tf: TableSel) -> Seq<char>
    decreases size_forest(f), 5nat, 0int,
{
    if f.len() == 0 {
        seq![]
    } else {
        md_node(f[0], ctx, tf) + md_forest(f.drop_first(), ctx, tf)
    }
}

/// How the conversion treats an element, by its tag name.
pub enum Tag {
    Paragraph,
    LineBreak,
    Bold,
    Italic,
    Strike,
    Underline,
    Sup,
    Sub,
    Link,
    Heading(usize),
    Rule,
    Quote,
    List(bool),
    Item,
    Pre,
    Code,
    Image,
    Container,
    Center,
    Table,
    Plain,
}

/// The treatment of each tag name.
pub open spec fn tag_of(nm: Seq<char>) -> Tag {
    if nm == "p"@ {
        Tag::Paragraph
    } else if nm == "br"@ {
        Tag::LineBreak
    } else if nm == "strong"@ || nm == "b"@ {
        Tag::Bold
    } else if nm == "em"@ || nm == "i"@ {
        Tag::Italic
    } else if nm == "s"@ || nm == "strike"@ || nm == "del"@ {
        Tag::Strike
    } else if nm == "u"@ {
        Tag::Underline
    } else if nm == "sup"@ {
        Tag::Sup
    } else if nm == "sub"@ {
        Tag::Sub
    } else if nm == "a"@ {
        Tag::Link
    } else if heading_level(nm) > 0 {
        Tag::Heading(heading_level(nm) as usize)
    } else if nm == "hr"@ {
        Tag::Rule
    } else if nm == "blockquote"@ {
        Tag::Quote
    } else if nm == "ul"@ {
        Tag::List(false)
    } else if nm == "ol"@ {
        Tag::List(true)
    } else if nm == "li"@ {
        Tag::Item
    } else if nm == "pre"@ {
        Tag::Pre
    } else if nm == "code"@ {
        Tag::Code
    } else if nm == "img"@ {
        Tag::Image
    } else if nm == "span"@ || nm == "div"@ {
        Tag::Container
    } else if nm == "center"@ {
        Tag::Center
    } else if nm == "table"@ {
        Tag::Table
    } else {
        Tag::Plain
    }
}

/// The Markdown of one node, in the given state.
pub open spec fn md_node(n: NodeView, ctx: InlineCtx, tf: TableSel) -> Seq<char>
    decreases node_size(n), 4nat, 0int,
{
    let ch = n.children;
    match n.kind {
        KindView::Text(t) => if !is_blank(t) || t.contains(' ') {
            t
        } else {
            seq![]
        },
        KindView::Element(e) => match tag_of(e.name) {
            Tag::Paragraph => "\n\n"@ + quote_mark(ctx) + md_forest(ch, ctx, tf) + "\n"@,
            Tag::LineBreak => "\n"@ + quote_mark(ctx),
            Tag::Bold => "**"@ + md_forest(ch, InlineCtx { bold: true, ..ctx }, tf) + "**"@,
            Tag::Italic => "*"@ + md_forest(ch, InlineCtx { italic: true, ..ctx }, tf) + "*"@,
            Tag::Strike => "~~"@ + md_forest(ch, ctx, tf) + "~~"@,
            Tag::Underline => "<u>"@ + md_forest(ch, ctx, tf) + "</u>"@,
            Tag::Sup => "<sup>"@ + md_forest(ch, ctx, tf) + "</sup>"@,
            Tag::Sub => "<sub>"@ + md_forest(ch, ctx, tf) + "</sub>"@,
            Tag::Link => "["@ + md_forest(ch, ctx, tf) + "]("@ + absolute_url(
                or_default(e.href, "#"@),
            ) + ")"@,
            Tag::Heading(level) => {
                let class = or_default(e.class, ""@);
                if contains_seq(class, "landmark"@) || contains_seq(class, "heading"@) {
                    seq![]
                } else {
                    "\n\n"@ + repeat("#"@, level as nat) + " "@ + md_forest(ch, ctx, tf) + "\n\n"@
                }
            },
            Tag::Rule => "\n\n---\n\n"@,
            Tag::Quote => "\n\n"@ + "> "@ + md_forest(ch, InlineCtx { in_blockquote: true, ..ctx }, tf)
                + "\n\n"@,
            Tag::List(ordered) => "\n"@ + md_forest(ch, list_ctx(ctx, ordered), tf) + "\n"@,
            Tag::Item => item_marker(ctx) + md_forest(ch, item_ctx(ctx), tf),
            Tag::Pre => "\n\n```\n"@ + md_forest(ch, ctx, tf) + "\n```\n\n"@,
            Tag::Code => "`"@ + md_forest(ch, ctx, tf) + "`"@,
            Tag::Image => "!["@ + or_default(e.alt, ""@) + "]("@ + absolute_url(
                or_default(e.src, ""@),
            ) + ")"@,
            Tag::Container => if contains_seq(or_default(e.class, ""@), "landmark"@) {
                seq![]
            } else {
                md_forest(ch, ctx, tf)
            },
            Tag::Center => "\n\n<center>\n\n"@ + md_forest(ch, ctx, tf) + "\n\n</center>\n\n"@,
            Tag::Table => "\n\n"@ + table_md(n, tf) + "\n\n"@,
            Tag::Plain => md_forest(ch, ctx, tf),
        },
        KindView::Other => seq![],
    }
}

/// The Markdown of a table: its rows (the `tr` below it), each row its header
/// cells where the first row has any, else its data cells.
pub open spec fn table_md(t: NodeView, tf: TableSel) -> Seq<char>
    decreases node_size(t), 3nat, 0int,
{
    if select_in(t, tf.tr).len() == 0 {
        seq![]
    } else {
        let data = table_rows(t, tf, 0);
        let cols: nat = max_width(data);
        if cols == 0 {
            seq![]
        } else {
            render_rows(data, cols, data.len() as int)
        }
    }
}

/// The cells of the rows of `t` from row `i` on.
pub open spec fn table_rows(t: NodeView, tf: TableSel, i: int) -> Seq<Seq<Seq<char>>>
    decreases node_size(t), 2nat, select_in(t, tf.tr).len() - i,
{
    if i < 0 || i >= select_in(t, tf.tr).len() {
        seq![]
    } else {
        let headers = row_cells(t, tf, i, true, 0);
        let cells = row_cells(t, tf, i, false, 0);
        seq![
            if headers.len() > 0 && i == 0 {
                headers
            } else {
                cells
            },
        ] + table_rows(t, tf, i + 1)
    }
}

/// The Markdown of the header (`th`) or data (`td`) cells of row `i` of `t`, from cell `j` on.
pub open spec fn row_cells(t: NodeView, tf: TableSel, i: int, header: bool, j: int) -> Seq<
    Seq<char>,
>
    decreases node_size(t), 1nat, select_in(
        select_in(t, tf.tr)[i],
        if header {
            tf.th
        } else {
            tf.td
        },
    ).len() - j,
{
    let rows = select_in(t, tf.tr);
    if i < 0 || i >= rows.len() {
        seq![]
    } else {
        let fl = if header {
            tf.th
        } else {
            tf.td
        };
        let cs = select_in(rows[i], fl);
        if j < 0 || j >= cs.len() {
            seq![]
        } else {
            proof {
                lemma_select_smaller(t, tf.tr, i);
                lemma_select_smaller(rows[i], fl, j);
            }
            seq![node_md(cs[j], tf)] + row_cells(t, tf, i, header, j + 1)
        }
    }
}

/// What `html_node_to_md` gives for the element `n`.
pub open spec fn node_md(n: NodeView, tf: TableSel) -> Seq<char>
    decreases node_size(n), 6nat, 0int,
{
    trim(collapse_blank_lines(md_forest(n.children, initial_ctx(), tf)))
}

/// The widest row.
pub open spec fn max_width(data: Seq<Seq<Seq<char>>>) -> nat
    decreases data.len(),
{
    if data.len() == 0 {
        0
    } else {
        let w = max_width(data.drop_last());
        if data.last().len() > w {
            data.last().len()
        } else {
            w
        }
    }
}

pub open spec fn cell_at(row: Seq<Seq<char>>, j: int) -> Seq<char> {
    if 0 <= j < row.len() {
        row[j]
    } else {
        seq![]
    }
}

/// The first `cols` cells of a row, each as ` cell |`.
pub open spec fn cells_text(row: Seq<Seq<char>>, cols: nat) -> Seq<char>
    decreases cols,
{
    if cols == 0 {
        seq![]
    } else {
        cells_text(row, (cols - 1) as nat) + " "@ + cell_at(row, cols - 1) + " |"@
    }
}

pub open spec fn separator_line(cols: nat) -> Seq<char> {
    "|"@ + repeat(" --- |"@, cols) + "\n"@
}

/// The lines of the first `n` rows; the separator line follows the first.
pub open spec fn render_rows(data: Seq<Seq<Seq<char>>>, cols: nat, n: int) -> Seq<char>
    decreases n,
{
    if n <= 0 {
        seq![]
    } else {
        render_rows(data, cols, n - 1) + "|"@ + cells_text(data[n - 1], cols) + "\n"@ + (if n
            == 1 {
            separator_line(cols)
        } else {
            seq![]
        })
    }
}

/// The number of line feeds at the start of `s`.
pub open spec fn newline_run(s: Seq<char>) -> int
    decreases s.len(),
{
    if s.len() > 0 && s[0] == '\n' {
        1 + newline_run(s.drop_first())
    } else {
        0
    }
}

/// Each run of three or more line feeds replaced by two: what
/// `Regex::replace_all` gives for the pattern `\n{3,}` and the replacement `"\n\n"`.
pub open spec fn collapse_blank_lines(s: Seq<char>) -> Seq<char>
    decreases s.len(),
{
    if s.len() == 0 {
        s
    } else {
        let k: int = newline_run(s);
        if k <= 0 || k > s.len() {
            seq![s[0]] + collapse_blank_lines(s.drop_first())
        } else if k >= 3 {
            seq!['\n', '\n'] + collapse_blank_lines(s.skip(k))
        } else {
            s.take(k) + collapse_blank_lines(s.skip(k))
        }
    }
}

/// No three line feeds in a row.
pub open spec fn no_blank_run(s: Seq<char>) -> bool {
    forall|i: int|
        0 <= i && i + 2 < s.len() ==> !(#[trigger] s[i] == '\n' && s[i + 1] == '\n' && s[i + 2]
            == '\n')
}

proof fn lemma_newline_run(s: Seq<char>)
    ensures
        0 <= newline_run(s) <= s.len(),
        forall|m: int| 0 <= m < newline_run(s) ==> #[trigger] s[m] == '\n',
        newline_run(s) < s.len() ==> s[newline_run(s)] != '\n',
    decreases s.len(),
{
    if s.len() > 0 && s[0] == '\n' {
        lemma_newline_run(s.drop_first());
        assert forall|m: int| 0 <= m < newline_run(s) implies #[trigger] s[m] == '\n' by {
            if m > 0 {
                assert(s[m] == s.drop_first()[m - 1]);
            }
        }
    }
}

proof fn lemma_collapse_first(t: Seq<char>)
    requires
        t.len() > 0,
        t[0] != '\n',
    ensures
        collapse_blank_lines(t).len() > 0,
        collapse_blank_lines(t)[0] == t[0],
{
    assert(newline_run(t) == 0);
}

/// Shortening the runs of line feeds leaves no three in a row.
pub proof fn lemma_collapse_no_blank_run(s: Seq<char>)
    ensures
        no_blank_run(collapse_blank_lines(s)),
    decreases s.len(),
{
    if s.len() > 0 {
        lemma_newline_run(s);
        let k: int = newline_run(s);
        let out = collapse_blank_lines(s);
        if k == 0 {
            let r = collapse_blank_lines(s.drop_first());
            lemma_collapse_no_blank_run(s.drop_first());
            assert(out == seq![s[0]] + r);
            assert forall|i: int| 0 <= i && i + 2 < out.len() implies !(#[trigger] out[i] == '\n'
                && out[i + 1] == '\n' && out[i + 2] == '\n') by {
                if i > 0 {
                    assert(out[i] == r[i - 1]);
                    assert(out[i + 1] == r[i]);
                    assert(out[i + 2] == r[i + 1]);
                }
            }
        } else {
            let rest = s.skip(k);
            let r = collapse_blank_lines(rest);
            lemma_collapse_no_blank_run(rest);
            let piece = if k >= 3 {
                seq!['\n', '\n']
            } else {
                s.take(k)
            };
            assert(out == piece + r);
            assert(piece.len() <= 2);
            if rest.len() > 0 {
                assert(rest[0] == s[k]);
                lemma_collapse_first(rest);
            }
            assert forall|i: int| 0 <= i && i + 2 < out.len() implies !(#[trigger] out[i] == '\n'
                && out[i + 1] == '\n' && out[i + 2] == '\n') by {
                if i < piece.len() {
                    let p: int = piece.len() as int;
                    assert(out[p] == r[0]);
                    if i + 1 == p {
                        assert(out[i + 1] == r[0]);
                    } else {
                        assert(out[i + 2] == r[0]);
                    }
                } else {
                    let j: int = i - piece.len();
                    assert(out[i] == r[j]);
                    assert(out[i + 1] == r[j + 1]);
                    assert(out[i + 2] == r[j + 2]);
                }
            }
        }
    }
}

/// What `html_node_to_md` gives holds no three line feeds in a row, and neither
/// starts nor ends with white space.
pub proof fn lemma_node_md_clean(n: NodeView, tf: TableSel)
    ensures
        no_blank_run(node_md(n, tf)),
        node_md(n, tf).len() > 0 ==> !crate::text::is_ws(node_md(n, tf)[0])
            && !crate::text::is_ws(node_md(n, tf).last()),
{
    let c = collapse_blank_lines(md_forest(n.children, initial_ctx(), tf));
    lemma_collapse_no_blank_run(md_forest(n.children, initial_ctx(), tf));
    let (a, b) = crate::text::lemma_trim_ends(c);
    let t = node_md(n, tf);
    assert(t == c.subrange(a, b));
    assert forall|i: int| 0 <= i && i + 2 < t.len() implies !(#[trigger] t[i] == '\n' && t[i + 1]
        == '\n' && t[i + 2] == '\n') by {
        assert(t[i] == c[a + i]);
        assert(t[i + 1] == c[a + i + 1]);
        assert(t[i + 2] == c[a + i + 2]);
    }
}

pub open spec fn blank_line_pattern() -> Seq<char> {
    seq!['\\', 'n', '{', '3', ',', '}']
}

/// `regex::Regex::new(pattern)` and `Regex::replace_all(text, replacement)`, for the
/// pattern `\n{3,}` and the replacement `"\n\n"` alone: every leftmost-first match of
/// the pattern (a whole run of three or more line feeds) is replaced by two line feeds.
#[verifier::external_body]
fn regex_replace_all(pattern: &str, text: &str, replacement: &str) -> (r: String)
    requires
        pattern@ == blank_line_pattern(),
        replacement@ == seq!['\n', '\n'],
    ensures
        r@ == collapse_blank_lines(text@),
{
    regex::Regex::new(pattern).unwrap().replace_all(text, replacement).into_owned()
}


pub proof fn lemma_md_forest_push(f: Seq<NodeView>, n: NodeView, ctx: InlineCtx, tf: TableSel)
    ensures
        md_forest(f.push(n), ctx, tf) == md_forest(f, ctx, tf) + md_node(n, ctx, tf),
    decreases f.len(),
{
    if f.len() == 0 {
        assert(f.push(n).drop_first() =~= Seq::<NodeView>::empty());
        assert(f.push(n)[0] == n);
        assert(md_forest(Seq::<NodeView>::empty(), ctx, tf) =~= Seq::<char>::empty());
        assert(md_forest(f, ctx, tf) =~= Seq::<char>::empty());
        assert(md_forest(f.push(n), ctx, tf) =~= md_forest(f, ctx, tf) + md_node(n, ctx, tf));
    } else {
        lemma_md_forest_push(f.drop_first(), n, ctx, tf);
        assert(f.push(n).drop_first() =~= f.drop_first().push(n));
        assert(f.push(n)[0] == f[0]);
        assert(md_forest(f.push(n), ctx, tf) =~= md_forest(f, ctx, tf) + md_node(n, ctx, tf));
    }
}

fn heading_level_of(nm: &str) -> (l: usize)
    ensures
        l == heading_level(nm@),
{
    if str_eq(nm, "h1") {
        1
    } else if str_eq(nm, "h2") {
        2
    } else if str_eq(nm, "h3") {
        3
    } else if str_eq(nm, "h4") {
        4
    } else if str_eq(nm, "h5") {
        5
    } else if str_eq(nm, "h6") {
        6
    } else {
        0
    }
}

fn opt_str<'a>(o: &'a Option<String>, d: &'a str) -> (r: &'a str)
    ensures
        r@ == or_default(crate::dom::opt_view(*o), d@),
{
    match o {
        Some(s) => s.as_str(),
        None => d,
    }
}

/// Appends the Markdown of the children of `el`.
pub fn process_children(el: &Node, out: &mut String, ctx: &InlineCtx, tf: &TableFlags)
    ensures
        final(out)@ == old(out)@ + md_forest(el@.children, *ctx, tf@),
    decreases node_size(el@), 4nat, 0int,
{
    let ghost fv = el@.children;
    proof {
        lemma_forest_view_index(el.children@);
    }
    let mut k: usize = 0;
    while k < el.children.len()
        invariant
            k <= el.children.len(),
            fv == el@.children,
            fv == forest_view(el.children@),
            fv.len() == el.children@.len(),
            forall|m: int| 0 <= m < fv.len() ==> #[trigger] fv[m] == el.children@[m]@,
            out@ == old(out)@ + md_forest(fv.take(k as int), *ctx, tf@),
        decreases el.children.len() - k,
    {
        proof {
            lemma_md_forest_push(fv.take(k as int), fv[k as int], *ctx, tf@);
            assert(fv.take(k + 1) =~= fv.take(k as int).push(fv[k as int]));
            lemma_member_size(fv, k as int);
        }
        process_node(&el.children[k], out, ctx, tf);
        k = k + 1;
    }
    assert(fv.take(el.children.len() as int) =~= fv);
}

fn classify(nm: &str) -> (t: Tag)
    ensures
        t == tag_of(nm@),
{
    let level: usize = heading_level_of(nm);
    if str_eq(nm, "p") {
        Tag::Paragraph
    } else if str_eq(nm, "br") {
        Tag::LineBreak
    } else if str_eq(nm, "strong") || str_eq(nm, "b") {
        Tag::Bold
    } else if str_eq(nm, "em") || str_eq(nm, "i") {
        Tag::Italic
    } else if str_eq(nm, "s") || str_eq(nm, "strike") || str_eq(nm, "del") {
        Tag::Strike
    } else if str_eq(nm, "u") {
        Tag::Underline
    } else if str_eq(nm, "sup") {
        Tag::Sup
    } else if str_eq(nm, "sub") {
        Tag::Sub
    } else if str_eq(nm, "a") {
        Tag::Link
    } else if level > 0 {
        Tag::Heading(level)
    } else if str_eq(nm, "hr") {
        Tag::Rule
    } else if str_eq(nm, "blockquote") {
        Tag::Quote
    } else if str_eq(nm, "ul") {
        Tag::List(false)
    } else if str_eq(nm, "ol") {
        Tag::List(true)
    } else if str_eq(nm, "li") {
        Tag::Item
    } else if str_eq(nm, "pre") {
        Tag::Pre
    } else if str_eq(nm, "code") {
        Tag::Code
    } else if str_eq(nm, "img") {
        Tag::Image
    } else if str_eq(nm, "span") || str_eq(nm, "div") {
        Tag::Container
    } else if str_eq(nm, "center") {
        Tag::Center
    } else if str_eq(nm, "table") {
        Tag::Table
    } else {
        Tag::Plain
    }
}

/// Appends `before`, the Markdown of the children of `n` in state `ctx`, and `after`.
fn wrap_children(
    n: &Node,
    out: &mut String,
    ctx: &InlineCtx,
    tf: &TableFlags,
    before: &str,
    after: &str,
)
    ensures
        final(out)@ == old(out)@ + before@ + md_forest(n@.children, *ctx, tf@) + after@,
    decreases node_size(n@), 5nat, 0int,
{
    out.append(before);
    process_children(n, out, ctx, tf);
    out.append(after);
}

/// Appends the Markdown of the node `n`.
fn process_node(n: &Node, out: &mut String, ctx: &InlineCtx, tf: &TableFlags)
    ensures
        final(out)@ == old(out)@ + md_node(n@, *ctx, tf@),
    decreases node_size(n@), 5nat, 2int,
{
    let ghost o = out@;
    match &n.kind {
        NodeKind::Text(t) => {
            if !blank(t.as_str()) || has_char(t.as_str(), ' ') {
                out.append(t.as_str());
            } else {
                assert(out@ =~= o + seq![]);
            }
        },
        NodeKind::Other => {
            assert(out@ =~= o + seq![]);
        },
        NodeKind::Element(e) => {
            process_element(n, e, out, ctx, tf);
        },
    }
}

/// Appends the Markdown of the element `n`, whose data is `e`.
fn process_element(n: &Node, e: &ElementData, out: &mut String, ctx: &InlineCtx, tf: &TableFlags)
    requires
        n.kind == NodeKind::Element(*e),
    ensures
        final(out)@ == old(out)@ + md_node(n@, *ctx, tf@),
    decreases node_size(n@), 5nat, 1int,
{
    let tag = classify(e.name.as_str());
    match tag {
        Tag::Bold => {
            let new_ctx = InlineCtx { bold: true, ..*ctx };
            wrap_children(n, out, &new_ctx, tf, "**", "**");
        },
        Tag::Italic => {
            let new_ctx = InlineCtx { italic: true, ..*ctx };
            wrap_children(n, out, &new_ctx, tf, "*", "*");
        },
        Tag::Strike => {
            wrap_children(n, out, ctx, tf, "~~", "~~");
        },
        Tag::Underline => {
            wrap_children(n, out, ctx, tf, "<u>", "</u>");
        },
        Tag::Sup => {
            wrap_children(n, out, ctx, tf, "<sup>", "</sup>");
        },
        Tag::Sub => {
            wrap_children(n, out, ctx, tf, "<sub>", "</sub>");
        },
        Tag::Rule => {
            out.append("\n\n---\n\n");
        },
        Tag::List(ordered) => {
            let new_ctx = InlineCtx {
                list_depth: ctx.list_depth.saturating_add(1),
                ordered,
                list_counter: 0,
                ..*ctx
            };
            assert(new_ctx == list_ctx(*ctx, ordered));
            wrap_children(n, out, &new_ctx, tf, "\n", "\n");
        },
        Tag::Pre => {
            wrap_children(n, out, ctx, tf, "\n\n```\n", "\n```\n\n");
        },
        Tag::Code => {
            wrap_children(n, out, ctx, tf, "`", "`");
        },
        Tag::Center => {
            wrap_children(n, out, ctx, tf, "\n\n<center>\n\n", "\n\n</center>\n\n");
        },
        Tag::Plain => {
            process_children(n, out, ctx, tf);
        },
        _ => {
            process_special(n, e, tag, out, ctx, tf);
        },
    }
}

/// The elements whose Markdown is more than their children between two marks.
fn process_special(
    n: &Node,
    e: &ElementData,
    tag: Tag,
    out: &mut String,
    ctx: &InlineCtx,
    tf: &TableFlags,
)
    requires
        n.kind == NodeKind::Element(*e),
        tag == tag_of(e.name@),
        tag is Paragraph || tag is LineBreak || tag is Link || tag is Heading || tag is Quote
            || tag is Item || tag is Image || tag is Container || tag is Table,
    ensures
        final(out)@ == old(out)@ + md_node(n@, *ctx, tf@),
    decreases node_size(n@), 5nat, 0int,
{
    let ghost o = out@;
    match tag {
        Tag::Paragraph => {
            out.append("\n\n");
            if ctx.in_blockquote {
                out.append("> ");
            }
            assert(out@ =~= o + "\n\n"@ + quote_mark(*ctx));
            process_children(n, out, ctx, tf);
            out.append("\n");
            assert(out@ =~= o + md_node(n@, *ctx, tf@));
        },
        Tag::LineBreak => {
            out.append("\n");
            if ctx.in_blockquote {
                out.append("> ");
            }
            assert(out@ =~= o + md_node(n@, *ctx, tf@));
        },
        Tag::Link => {
            process_link(n, e, out, ctx, tf);
        },
        Tag::Heading(level) => {
            process_heading(n, e, level, out, ctx, tf);
        },
        Tag::Quote => {
            out.append("\n\n");
            let new_ctx = InlineCtx { in_blockquote: true, ..*ctx };
            out.append("> ");
            process_children(n, out, &new_ctx, tf);
            out.append("\n\n");
            assert(out@ =~= o + md_node(n@, *ctx, tf@));
        },
        Tag::Item => {
            process_item(n, e, out, ctx, tf);
        },
        Tag::Image => {
            process_image(n, e, out, ctx, tf);
        },
        Tag::Container => {
            let class = opt_str(&e.class, "");
            if has_str(class, "landmark") {
                assert(out@ =~= o + md_node(n@, *ctx, tf@));
            } else {
                process_children(n, out, ctx, tf);
            }
        },
        Tag::Table => {
            out.append("\n\n");
            process_table(n, out, tf);
            out.append("\n\n");
            assert(out@ =~= o + md_node(n@, *ctx, tf@));
        },
        _ => {
            assert(false);
        },
    }
}

fn process_link(n: &Node, e: &ElementData, out: &mut String, ctx: &InlineCtx, tf: &TableFlags)
    requires
        n.kind == NodeKind::Element(*e),
        tag_of(e.name@) == Tag::Link,
    ensures
        final(out)@ == old(out)@ + md_node(n@, *ctx, tf@),
    decreases node_size(n@), 4nat, 1int,
{
    let ghost o = out@;
    let href = opt_str(&e.href, "#");
    out.append("[");
    process_children(n, out, ctx, tf);
    out.append("](");
    if starts_with_char(href, '/') {
        out.append("https://archiveofourown.org");
    }
    out.append(href);
    out.append(")");
    assert(out@ =~= o + md_node(n@, *ctx, tf@));
}

fn process_heading(
    n: &Node,
    e: &ElementData,
    level: usize,
    out: &mut String,
    ctx: &InlineCtx,
    tf: &TableFlags,
)
    requires
        n.kind == NodeKind::Element(*e),
        tag_of(e.name@) == Tag::Heading(level),
    ensures
        final(out)@ == old(out)@ + md_node(n@, *ctx, tf@),
    decreases node_size(n@), 4nat, 1int,
{
    let ghost o = out@;
    let class = opt_str(&e.class, "");
    if has_str(class, "landmark") || has_str(class, "heading") {
        assert(out@ =~= o + md_node(n@, *ctx, tf@));
    } else {
        let prefix = repeat_str("#", level);
        out.append("\n\n");
        out.append(prefix.as_str());
        out.append(" ");
        process_children(n, out, ctx, tf);
        out.append("\n\n");
        assert(out@ =~= o + md_node(n@, *ctx, tf@));
    }
}

fn process_item(n: &Node, e: &ElementData, out: &mut String, ctx: &InlineCtx, tf: &TableFlags)
    requires
        n.kind == NodeKind::Element(*e),
        tag_of(e.name@) == Tag::Item,
    ensures
        final(out)@ == old(out)@ + md_node(n@, *ctx, tf@),
    decreases node_size(n@), 4nat, 1int,
{
    let ghost o = out@;
    let indent = repeat_str("  ", ctx.list_depth.saturating_sub(1));
    let mut new_ctx = *ctx;
    if ctx.ordered {
        new_ctx.list_counter = ctx.list_counter.saturating_add(1);
        out.append("\n");
        out.append(indent.as_str());
        push_decimal(out, new_ctx.list_counter);
        out.append(". ");
    } else {
        out.append("\n");
        out.append(indent.as_str());
        out.append("- ");
    }
    assert(new_ctx == item_ctx(*ctx));
    assert(out@ =~= o + item_marker(*ctx));
    process_children(n, out, &new_ctx, tf);
    assert(out@ =~= o + md_node(n@, *ctx, tf@));
}

fn process_image(n: &Node, e: &ElementData, out: &mut String, ctx: &InlineCtx, tf: &TableFlags)
    requires
        n.kind == NodeKind::Element(*e),
        tag_of(e.name@) == Tag::Image,
    ensures
        final(out)@ == old(out)@ + md_node(n@, *ctx, tf@),
{
    let ghost o = out@;
    let alt = opt_str(&e.alt, "");
    let src = opt_str(&e.src, "");
    out.append("![");
    out.append(alt);
    out.append("](");
    if starts_with_char(src, '/') {
        out.append("https://archiveofourown.org");
    }
    out.append(src);
    out.append(")");
    assert(out@ =~= o + md_node(n@, *ctx, tf@));
}

/// Appends the Markdown table of the element `table`.
fn process_table(table: &Node, out: &mut String, tf: &TableFlags)
    ensures
        final(out)@ == old(out)@ + table_md(table@, tf@),
    decreases node_size(table@), 3nat, 0int,
{
    let ghost t = table@;
    let rows = select(table, &tf.tr);
    let ghost o = out@;
    if rows.len() == 0 {
        assert(out@ =~= o + table_md(t, tf@));
        return;
    }
    let mut table_data: Vec<Vec<String>> = Vec::new();
    let mut i: usize = 0;
    while i < rows.len()
        invariant
            t == table@,
            refs_view(rows@) == select_in(t, tf@.tr),
            i <= rows.len(),
            rows_view(table_data@) + table_rows(t, tf@, i as int) == table_rows(t, tf@, 0),
        decreases rows.len() - i,
    {
        let headers = row_cells_exec(table, &rows, i, true, tf);
        let cells = row_cells_exec(table, &rows, i, false, tf);
        let ghost before = table_data@;
        let ghost chosen = if headers.len() > 0 && i == 0 { headers@ } else { cells@ };
        if headers.len() > 0 && i == 0 {
            table_data.push(headers);
        } else {
            table_data.push(cells);
        }
        proof {
            assert(table_data@ == before.push(table_data@.last()));
            assert(rows_view(table_data@) =~= rows_view(before).push(strings_view(table_data@.last()@)));
            assert(table_rows(t, tf@, i as int) == seq![strings_view(table_data@.last()@)]
                + table_rows(t, tf@, i + 1));
            assert(rows_view(table_data@) + table_rows(t, tf@, i + 1) =~= rows_view(before)
                + table_rows(t, tf@, i as int));
        }
        i = i + 1;
    }
    assert(table_rows(t, tf@, i as int) =~= Seq::<Seq<Seq<char>>>::empty());
    let ghost data = rows_view(table_data@);
    assert(data =~= table_rows(t, tf@, 0));
    let mut cols: usize = 0;
    let mut k: usize = 0;
    while k < table_data.len()
        invariant
            data == rows_view(table_data@),
            k <= table_data.len(),
            cols == max_width(data.take(k as int)),
        decreases table_data.len() - k,
    {
        assert(data.take(k + 1).drop_last() =~= data.take(k as int));
        assert(data.take(k + 1).last() == data[k as int]);
        if table_data[k].len() > cols {
            cols = table_data[k].len();
        }
        k = k + 1;
    }
    assert(data.take(table_data.len() as int) =~= data);
    if cols == 0 {
        assert(out@ =~= o + table_md(t, tf@));
        return;
    }
    let mut r: usize = 0;
    while r < table_data.len()
        invariant
            data == rows_view(table_data@),
            data == table_rows(t, tf@, 0),
            cols == max_width(data),
            cols > 0,
            r <= table_data.len(),
            out@ == o + render_rows(data, cols as nat, r as int),
        decreases table_data.len() - r,
    {
        let row = &table_data[r];
        let ghost rv = data[r as int];
        assert(rv == strings_view(row@));
        let ghost base = out@;
        out.append("|");
        let mut j: usize = 0;
        while j < cols
            invariant
                rv == strings_view(row@),
                j <= cols,
                out@ == base + "|"@ + cells_text(rv, j as nat),
            decreases cols - j,
        {
            out.append(" ");
            if j < row.len() {
                out.append(row[j].as_str());
            }
            out.append(" |");
            proof {
                if j < row.len() {
                    assert(cell_at(rv, j as int) == row@[j as int]@);
                } else {
                    assert(cell_at(rv, j as int) =~= Seq::<char>::empty());
                }
            }
            assert(cells_text(rv, (j + 1) as nat) == cells_text(rv, j as nat) + " "@ + cell_at(rv, j as int) + " |"@);
            j = j + 1;
        }
        out.append("\n");
        if r == 0 {
            let ghost b2 = out@;
            out.append("|");
            let mut c: usize = 0;
            while c < cols
                invariant
                    c <= cols,
                    out@ == b2 + "|"@ + repeat(" --- |"@, c as nat),
                decreases cols - c,
            {
                out.append(" --- |");
                c = c + 1;
            }
            out.append("\n");
            assert(out@ =~= o + render_rows(data, cols as nat, r + 1));
        } else {
            assert(out@ =~= o + render_rows(data, cols as nat, r + 1));
        }
        r = r + 1;
    }
    assert(out@ =~= o + table_md(t, tf@));
}

pub open spec fn rows_view(s: Seq<Vec<String>>) -> Seq<Seq<Seq<char>>> {
    s.map_values(|r: Vec<String>| strings_view(r@))
}

/// The Markdown of the header or data cells of row `i` of `table`.
fn row_cells_exec(table: &Node, rows: &Vec<&Node>, i: usize, header: bool, tf: &TableFlags) -> (cells: Vec<String>)
    requires
        refs_view(rows@) == select_in(table@, tf@.tr),
        i < rows.len(),
    ensures
        strings_view(cells@) == row_cells(table@, tf@, i as int, header, 0),
    decreases node_size(table@), 2nat, 0int,
{
    let ghost t = table@;
    let flags = if header {
        &tf.th
    } else {
        &tf.td
    };
    let row = rows[i];
    assert(refs_view(rows@)[i as int] == row@);
    let cs = select(row, flags);
    let mut cells: Vec<String> = Vec::new();
    let mut j: usize = 0;
    while j < cs.len()
        invariant
            t == table@,
            refs_view(rows@) == select_in(t, tf@.tr),
            i < rows.len(),
            row@ == select_in(t, tf@.tr)[i as int],
            flags@ == (if header { tf@.th } else { tf@.td }),
            refs_view(cs@) == select_in(row@, flags@),
            j <= cs.len(),
            strings_view(cells@) + row_cells(t, tf@, i as int, header, j as int) == row_cells(
                t,
                tf@,
                i as int,
                header,
                0,
            ),
        decreases cs.len() - j,
    {
        proof {
            lemma_select_smaller(t, tf@.tr, i as int);
            lemma_select_smaller(row@, flags@, j as int);
            assert(refs_view(cs@)[j as int] == cs@[j as int]@);
        }
        let md = html_node_to_md(cs[j], tf);
        let ghost before = cells@;
        cells.push(md);
        proof {
            assert(strings_view(cells@) =~= strings_view(before).push(md@));
            assert(row_cells(t, tf@, i as int, header, j as int) == seq![md@] + row_cells(
                t,
                tf@,
                i as int,
                header,
                j + 1,
            ));
            assert(strings_view(cells@) + row_cells(t, tf@, i as int, header, j + 1)
                =~= strings_view(before) + row_cells(t, tf@, i as int, header, j as int));
        }
        j = j + 1;
    }
    assert(row_cells(t, tf@, i as int, header, j as int) =~= Seq::<Seq<char>>::empty());
    assert(strings_view(cells@) =~= strings_view(cells@) + Seq::<Seq<char>>::empty());
    cells
}

/// The Markdown of the element `el`, with runs of blank lines shortened and the
/// ends trimmed.
pub fn html_node_to_md(el: &Node, tf: &TableFlags) -> (md: String)
    ensures
        md@ == node_md(el@, tf@),
    decreases node_size(el@), 6nat, 0int,
{
    let mut output = String::new();
    let ctx = InlineCtx::default();
    process_children(el, &mut output, &ctx, tf);
    proof {
        reveal_strlit("\\n{3,}");
        reveal_strlit("\n\n");
        assert("\\n{3,}"@ =~= blank_line_pattern());
        assert("\n\n"@ =~= seq!['\n', '\n']);
    }
    let collapsed = regex_replace_all("\\n{3,}", output.as_str(), "\n\n");
    trim_string(&collapsed)
}


/// An image becomes `![alt](src)`, an absent `alt` or `src` standing for the empty
/// text. Its address is kept exactly as it is, unless it starts with `/`: then it is
/// a path on the archive and `https://archiveofourown.org` goes in front of it.
pub proof fn lemma_image_markdown(n: NodeView, ctx: InlineCtx, tf: TableSel)
    requires
        n.kind is Element,
        n.kind->Element_0.name == "img"@,
    ensures
        ({
            let e = n.kind->Element_0;
            let alt = match e.alt {
                Some(a) => a,
                None => Seq::<char>::empty(),
            };
            let src = match e.src {
                Some(s) => s,
                None => Seq::<char>::empty(),
            };
            &&& (src.len() == 0 || src[0] != '/') ==> md_node(n, ctx, tf) == "!["@ + alt + "]("@
                + src + ")"@
            &&& (src.len() > 0 && src[0] == '/') ==> md_node(n, ctx, tf) == "!["@ + alt
                + "](https://archiveofourown.org"@ + src + ")"@
        }),
{
    reveal_strlit("img");
    reveal_strlit("p");
    reveal_strlit("br");
    reveal_strlit("strong");
    reveal_strlit("b");
    reveal_strlit("em");
    reveal_strlit("i");
    reveal_strlit("s");
    reveal_strlit("strike");
    reveal_strlit("del");
    reveal_strlit("u");
    reveal_strlit("sup");
    reveal_strlit("sub");
    reveal_strlit("a");
    reveal_strlit("h1");
    reveal_strlit("h2");
    reveal_strlit("h3");
    reveal_strlit("h4");
    reveal_strlit("h5");
    reveal_strlit("h6");
    reveal_strlit("hr");
    reveal_strlit("blockquote");
    reveal_strlit("ul");
    reveal_strlit("ol");
    reveal_strlit("li");
    reveal_strlit("pre");
    reveal_strlit("code");
    reveal_strlit("](");
    reveal_strlit("](https://archiveofourown.org");
    reveal_strlit("https://archiveofourown.org");
    let nm: Seq<char> = "img"@;
    assert(nm.len() == 3 && nm[0] == 'i' && nm[1] == 'm' && nm[2] == 'g');
    assert(heading_level(nm) == 0);
    assert(tag_of(nm) == Tag::Image);
    let e = n.kind->Element_0;
    let alt = or_default(e.alt, ""@);
    let src = or_default(e.src, ""@);
    assert(""@ =~= Seq::<char>::empty()) by {
        reveal_strlit("");
    }
    assert(md_node(n, ctx, tf) == "!["@ + alt + "]("@ + absolute_url(src) + ")"@);
    if src.len() > 0 && src[0] == '/' {
        assert("!["@ + alt + "]("@ + absolute_url(src) + ")"@ =~= "!["@ + alt
            + "](https://archiveofourown.org"@ + src + ")"@);
    }
}

} // verus!
