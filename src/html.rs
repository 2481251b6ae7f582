//! Rendering parsed markdown as HTML.
use vstd::prelude::*;
use crate::markdown::{Config, ElementView, MarkdownElement, MarkdownError};
use crate::text::{decimal, format_decimal, join, joined};

verus! {

/// What `regex::Regex::new(pattern)` followed by `replace_all(text, rep)`
/// yields: `None` when the pattern does not compile.
pub uninterp spec fn regex_replaced(pattern: Seq<char>, text: Seq<char>, rep: Seq<char>) -> Option<Seq<char>>;

/// Relies on `regex::Regex::new` and `regex::Regex::replace_all`: compiling
/// depends on the pattern alone, and the replacement of every non-overlapping
/// match on the pattern, the text and the replacement template alone.
#[verifier::external_body]
fn replace_matches(pattern: &str, text: &str, rep: &str) -> (r: Option<String>)
    ensures
        r is None <==> regex_replaced(pattern@, text@, rep@) is None,
        r matches Some(s) ==> regex_replaced(pattern@, text@, rep@) == Some(s@),
{
    regex::Regex::new(pattern).ok().map(|re| re.replace_all(text, rep).into_owned())
}

/// One rewriting pass: the replaced text, or the text unchanged where the
/// pattern does not compile.
pub open spec fn rewrite(pattern: Seq<char>, text: Seq<char>, rep: Seq<char>) -> Seq<char> {
    match regex_replaced(pattern, text, rep) {
        Some(s) => s,
        None => text,
    }
}

/// Inline formatting as HTML: bold, then italics, then code, then links.
pub open spec fn inline_html(text: Seq<char>) -> Seq<char> {
    let bold = rewrite("\\*\\*([^*]+)\\*\\*"@, text, "<strong>$1</strong>"@);
    let em = rewrite("\\*([^*]+)\\*"@, bold, "<em>$1</em>"@);
    let code = rewrite("`([^`]+)`"@, em, "<code>$1</code>"@);
    rewrite("\\[(.*?)\\]\\((.*?)\\)"@, code, "<a href=\"$2\">$1</a>"@)
}

fn rewrite_text(pattern: &str, text: String, rep: &str) -> (r: String)
    ensures
        r@ == rewrite(pattern@, text@, rep@),
{
    match replace_matches(pattern, text.as_str(), rep) {
        Some(s) => s,
        None => text,
    }
}

/// Turns inline markdown (`**bold**`, `*italic*`, `` `code` ``, `[text](url)`)
/// into HTML.
pub fn parse_inner(text: &str) -> (r: String)
    ensures
        r@ == inline_html(text@),
{
    let t = String::from_str(text);
    let t = rewrite_text("\\*\\*([^*]+)\\*\\*", t, "<strong>$1</strong>");
    let t = rewrite_text("\\*([^*]+)\\*", t, "<em>$1</em>");
    let t = rewrite_text("`([^`]+)`", t, "<code>$1</code>");
    rewrite_text("\\[(.*?)\\]\\((.*?)\\)", t, "<a href=\"$2\">$1</a>")
}

/// A header element of level `level`.
pub open spec fn header_html(level: u8, text: Seq<char>) -> Seq<char> {
    "<h"@ + decimal(level as nat) + ">"@ + inline_html(text) + "</h"@ + decimal(level as nat)
        + ">"@
}

/// A paragraph element.
pub open spec fn paragraph_html(text: Seq<char>) -> Seq<char> {
    "<p>"@ + inline_html(text) + "</p>"@
}

/// A list item element.
pub open spec fn item_html(text: Seq<char>) -> Seq<char> {
    "<li>"@ + inline_html(text) + "</li>"@
}

/// The HTML of one element.
pub open spec fn element_html(e: ElementView) -> Seq<char> {
    match e {
        ElementView::Header(l, t) => header_html(l, t),
        ElementView::Paragraph(t) => paragraph_html(t),
        ElementView::List(t) => item_html(t),
    }
}

/// A header as HTML.
pub fn parse_header(count: u8, text: &str) -> (r: String)
    ensures
        r@ == header_html(count, text@),
{
    let inner = parse_inner(text);
    let level = format_decimal(count as u64);
    let mut r = String::from_str("<h");
    r.append(level.as_str());
    r.append(">");
    r.append(inner.as_str());
    r.append("</h");
    r.append(level.as_str());
    r.append(">");
    r
}

/// A paragraph as HTML.
pub fn parse_paragraph(text: &str) -> (r: String)
    ensures
        r@ == paragraph_html(text@),
{
    let inner = parse_inner(text);
    let mut r = String::from_str("<p>");
    r.append(inner.as_str());
    r.append("</p>");
    r
}

/// A list item as HTML.
pub fn parse_list(text: &str) -> (r: String)
    ensures
        r@ == item_html(text@),
{
    let inner = parse_inner(text);
    let mut r = String::from_str("<li>");
    r.append(inner.as_str());
    r.append("</li>");
    r
}

/// Whether a piece of HTML is a list item.
pub open spec fn is_item(s: Seq<char>) -> bool {
    s.len() >= 4 && s.subrange(0, 4) == "<li>"@
}

/// Items gathered into one unordered list.
pub open spec fn list_block(items: Seq<Seq<char>>) -> Seq<char> {
    "<ul>\n"@ + joined(items, "\n"@) + "\n</ul>"@
}

/// The number of list items at the front of `v`.
pub open spec fn leading_items(v: Seq<Seq<char>>) -> nat
    decreases v.len(),
{
    if v.len() > 0 && is_item(v[0]) {
        1 + leading_items(v.drop_first())
    } else {
        0
    }
}

/// The pieces with each maximal run of list items replaced by one list of
/// them; other pieces stay as they are.
pub open spec fn grouped(v: Seq<Seq<char>>) -> Seq<Seq<char>>
    decreases v.len(), 1nat,
{
    if v.len() == 0 {
        Seq::empty()
    } else if is_item(v[0]) {
        let k = leading_items(v);
        seq![list_block(v.subrange(0, k as int))] + grouped_rest(v, k)
    } else {
        seq![v[0]] + grouped(v.drop_first())
    }
}

/// `grouped` of what follows the first `k` pieces.
pub open spec fn grouped_rest(v: Seq<Seq<char>>, k: nat) -> Seq<Seq<char>>
    decreases v.len(), 0nat,
{
    if 0 < k <= v.len() {
        grouped(v.subrange(k as int, v.len() as int))
    } else {
        Seq::empty()
    }
}

/// What grouping `w` yields when the items `g` are already gathered ahead
/// of it.
pub open spec fn grouped_after(g: Seq<Seq<char>>, w: Seq<Seq<char>>) -> Seq<Seq<char>> {
    if g.len() == 0 {
        grouped(w)
    } else {
        let k = leading_items(w);
        seq![list_block(g + w.subrange(0, k as int))] + grouped(w.subrange(k as int, w.len() as int))
    }
}

proof fn lemma_leading_items_bound(v: Seq<Seq<char>>)
    ensures
        leading_items(v) <= v.len(),
        forall|i: int| 0 <= i < leading_items(v) ==> is_item(#[trigger] v[i]),
        leading_items(v) < v.len() ==> !is_item(v[leading_items(v) as int]),
    decreases v.len(),
{
    if v.len() > 0 && is_item(v[0]) {
        lemma_leading_items_bound(v.drop_first());
        assert forall|i: int| 0 <= i < leading_items(v) implies is_item(#[trigger] v[i]) by {
            if i > 0 {
                assert(v[i] == v.drop_first()[i - 1]);
            }
        }
    }
}

/// Taking one more piece `w[0]` into the gathered items does not change
/// what the grouping yields.
proof fn lemma_gather_one(g: Seq<Seq<char>>, w: Seq<Seq<char>>)
    requires
        w.len() > 0,
        is_item(w[0]),
    ensures
        grouped_after(g, w) == grouped_after(g.push(w[0]), w.drop_first()),
{
    let t = w.drop_first();
    let k = leading_items(w);
    lemma_leading_items_bound(t);
    assert(k == 1 + leading_items(t));
    assert(g + w.subrange(0, k as int) =~= g.push(w[0]) + t.subrange(0, leading_items(t) as int));
    assert(w.subrange(k as int, w.len() as int) =~= t.subrange(leading_items(t) as int, t.len() as int));
    lemma_leading_items_bound(w);
    if g.len() == 0 {
        assert(g + w.subrange(0, k as int) =~= w.subrange(0, k as int));
        assert(grouped_rest(w, k) == grouped(w.subrange(k as int, w.len() as int)));
        assert(grouped(w) == seq![list_block(w.subrange(0, k as int))] + grouped_rest(w, k));
    }
}

fn starts_with_item(s: &str) -> (r: bool)
    ensures
        r == is_item(s@),
{
    proof {
        reveal_strlit("<li>");
    }
    if s.unicode_len() < 4 {
        return false;
    }
    let c0 = s.get_char(0);
    let c1 = s.get_char(1);
    let c2 = s.get_char(2);
    let c3 = s.get_char(3);
    let r = c0 == '<' && c1 == 'l' && c2 == 'i' && c3 == '>';
    assert("<li>"@ =~= seq!['<', 'l', 'i', '>']);
    if r {
        assert(s@.subrange(0, 4) =~= seq!['<', 'l', 'i', '>']);
    } else {
        assert(s@.subrange(0, 4) != seq!['<', 'l', 'i', '>']) by {
            if s@.subrange(0, 4) == seq!['<', 'l', 'i', '>'] {
                assert(s@.subrange(0, 4)[0] == c0);
                assert(s@.subrange(0, 4)[1] == c1);
                assert(s@.subrange(0, 4)[2] == c2);
                assert(s@.subrange(0, 4)[3] == c3);
            }
        }
    }
    r
}

fn list_of(items: &Vec<String>) -> (r: String)
    ensures
        r@ == list_block(items@.map_values(|x: String| x@)),
{
    let mut r = String::from_str("<ul>\n");
    let body = join(items, "\n");
    r.append(body.as_str());
    r.append("\n</ul>");
    r
}

/// Wraps each run of list items (pieces starting with `<li>`) in one
/// `<ul>` list, items separated by line feeds; other pieces stay as they are.
pub fn group_list(html_el: &Vec<String>) -> (r: Vec<String>)
    ensures
        r@.map_values(|x: String| x@) == grouped(html_el@.map_values(|x: String| x@)),
{
    let ghost v = html_el@.map_values(|x: String| x@);
    let mut new_html: Vec<String> = Vec::new();
    let mut new_group: Vec<String> = Vec::new();
    let n = html_el.len();
    let mut i: usize = 0;
    assert(v.subrange(0, n as int) =~= v);
    assert(new_html@.map_values(|x: String| x@) =~= Seq::<Seq<char>>::empty());
    assert(new_group@.map_values(|x: String| x@) =~= Seq::<Seq<char>>::empty());
    while i < n
        invariant
            n == html_el@.len(),
            v == html_el@.map_values(|x: String| x@),
            i <= n,
            new_html@.map_values(|x: String| x@) + grouped_after(
                new_group@.map_values(|x: String| x@),
                v.subrange(i as int, n as int),
            ) == grouped(v),
            new_group@.len() > 0 && i < n ==> is_item(v[i as int]),
        decreases n - i,
    {
        let ghost out0 = new_html@.map_values(|x: String| x@);
        let ghost items0 = new_group@.map_values(|x: String| x@);
        let ghost w = v.subrange(i as int, n as int);
        assert(w[0] == v[i as int]);
        assert(w.drop_first() =~= v.subrange(i + 1, n as int));
        let cur = &html_el[i];
        let cur_is_item = starts_with_item(cur.as_str());
        if cur_is_item {
            new_group.push(cur.clone());
            proof {
                lemma_gather_one(items0, w);
            }
            assert(new_group@.map_values(|x: String| x@) =~= items0.push(v[i as int]));
        } else {
            new_html.push(cur.clone());
            assert(items0.len() == 0);
            assert(new_html@.map_values(|x: String| x@) =~= out0.push(v[i as int]));
            assert(grouped(w) == seq![w[0]] + grouped(w.drop_first()));
            assert(out0 + grouped(w) =~= out0.push(v[i as int]) + grouped(w.drop_first()));
        }
        if i + 1 < n && !starts_with_item(html_el[i + 1].as_str()) && new_group.len() > 0 {
            let ghost out1 = new_html@.map_values(|x: String| x@);
            let ghost g1 = new_group@.map_values(|x: String| x@);
            let ghost rest = v.subrange(i + 1, n as int);
            assert(rest[0] == v[i + 1]);
            assert(leading_items(rest) == 0);
            assert(rest.subrange(0, 0) =~= Seq::<Seq<char>>::empty());
            assert(g1 + rest.subrange(0, 0) =~= g1);
            assert(rest.subrange(0, rest.len() as int) =~= rest);
            let block = list_of(&new_group);
            new_group = Vec::new();
            new_html.push(block);
            assert(new_html@.map_values(|x: String| x@) =~= out1.push(block@));
            assert(new_group@.map_values(|x: String| x@) =~= Seq::<Seq<char>>::empty());
            assert(out1 + grouped_after(g1, rest) =~= out1.push(block@) + grouped(rest));
        }
        i = i + 1;
    }
    let ghost out1 = new_html@.map_values(|x: String| x@);
    let ghost g1 = new_group@.map_values(|x: String| x@);
    let ghost empty = v.subrange(n as int, n as int);
    assert(empty =~= Seq::<Seq<char>>::empty());
    assert(grouped(empty) =~= Seq::<Seq<char>>::empty());
    if new_group.len() > 0 {
        let block = list_of(&new_group);
        new_html.push(block);
        assert(g1 + empty.subrange(0, 0) =~= g1);
        assert(empty.subrange(0, 0) =~= empty);
        assert(new_html@.map_values(|x: String| x@) =~= out1 + grouped_after(g1, empty));
    } else {
        assert(out1 + grouped_after(g1, empty) =~= out1);
    }
    new_html
}

/// The HTML of a whole document: each element rendered, runs of list items
/// wrapped in lists, the pieces joined by line feeds.
pub open spec fn document_html(es: Seq<ElementView>) -> Seq<char> {
    joined(grouped(es.map_values(|e: ElementView| element_html(e))), "\n"@)
}

/// Turns parsed markdown into an output format.
pub trait Renderer {
    /// What `render` produces for the elements.
    spec fn rendered(&self, es: Seq<ElementView>) -> Seq<char>;

    /// What `render_element` produces for one element.
    spec fn rendered_element(&self, e: ElementView) -> Seq<char>;

    /// Renders a whole document.
    fn render(&self, elements: &[MarkdownElement]) -> (r: Result<String, MarkdownError>)
        ensures
            r matches Ok(s) ==> s@ == self.rendered(elements@.map_values(|e: MarkdownElement| e@));

    /// Renders one element.
    fn render_element(&self, element: &MarkdownElement) -> (r: Result<String, MarkdownError>)
        ensures
            r matches Ok(s) ==> s@ == self.rendered_element(element@);
}

/// Renders markdown as HTML.
pub struct HtmlRenderer {
    pub config: Config,
}

impl HtmlRenderer {
    /// A renderer with these options.
    pub fn new(config: Config) -> (r: HtmlRenderer)
        ensures
            r.config == config,
    {
        HtmlRenderer { config }
    }
}

fn element_to_html(element: &MarkdownElement) -> (r: String)
    ensures
        r@ == element_html(element@),
{
    match element {
        MarkdownElement::Header(x, y) => parse_header(*x, y.as_str()),
        MarkdownElement::List(text) => parse_list(text.as_str()),
        MarkdownElement::Paragraph(text) => parse_paragraph(text.as_str()),
    }
}

impl Renderer for HtmlRenderer {
    open spec fn rendered(&self, es: Seq<ElementView>) -> Seq<char> {
        document_html(es)
    }

    open spec fn rendered_element(&self, e: ElementView) -> Seq<char> {
        element_html(e)
    }

    /// Always succeeds.
    fn render(&self, elements: &[MarkdownElement]) -> (r: Result<String, MarkdownError>) {
        let ghost es = elements@.map_values(|e: MarkdownElement| e@);
        let mut pieces: Vec<String> = Vec::new();
        let n = elements.len();
        let mut i: usize = 0;
        while i < n
            invariant
                n == elements@.len(),
                es == elements@.map_values(|e: MarkdownElement| e@),
                i <= n,
                pieces@.map_values(|x: String| x@) == es.map_values(|e: ElementView| element_html(e)).subrange(0, i as int),
            decreases n - i,
        {
            let ghost before = pieces@.map_values(|x: String| x@);
            let h = element_to_html(&elements[i]);
            pieces.push(h);
            assert(pieces@.map_values(|x: String| x@) =~= before.push(h@));
            assert(es.map_values(|e: ElementView| element_html(e)).subrange(0, i + 1) =~= es.map_values(|e: ElementView| element_html(e)).subrange(0, i as int).push(h@));
            i = i + 1;
        }
        assert(es.map_values(|e: ElementView| element_html(e)).subrange(0, n as int) =~= es.map_values(|e: ElementView| element_html(e)));
        let groups = group_list(&pieces);
        Ok(join(&groups, "\n"))
    }

    /// Always succeeds.
    fn render_element(&self, element: &MarkdownElement) -> (r: Result<String, MarkdownError>) {
        Ok(element_to_html(element))
    }
}

} // verus!
