//! Markdown documents: the parsed elements, the converter's configuration,
//! and the line parser.
use vstd::prelude::*;
use crate::text::{lemma_pieces_nonempty, pieces, trim, trim_leading, trim_start, trimmed};

verus! {

/// A parsed element as the contracts see it.
pub ghost enum ElementView {
    Header(u8, Seq<char>),
    Paragraph(Seq<char>),
    List(Seq<char>),
}

/// One element of a markdown document.
pub enum MarkdownElement {
    /// A header with its level (the number of `#` marks) and its text.
    Header(u8, String),
    /// A paragraph of text, inline formatting still in it.
    Paragraph(String),
    /// One item of an unordered list.
    List(String),
}

impl View for MarkdownElement {
    type V = ElementView;

    open spec fn view(&self) -> ElementView {
        match self {
            MarkdownElement::Header(l, t) => ElementView::Header(*l, t@),
            MarkdownElement::Paragraph(t) => ElementView::Paragraph(t@),
            MarkdownElement::List(t) => ElementView::List(t@),
        }
    }
}

/// Why a document could not be converted.
#[derive(Debug)]
pub enum MarkdownError {
    /// A header has this many `#` marks, more than the configured maximum.
    HeaderTooDeep(usize),
}

/// Options of a conversion.
pub struct Config {
    /// Path of the markdown input.
    pub input_path: String,
    /// Path of the HTML output.
    pub output_path: String,
    /// Whether to wrap the output in a full HTML document.
    pub full_html_document: bool,
    /// The deepest header level accepted.
    pub max_header_level: u8,
}

impl Default for Config {
    fn default() -> (c: Config)
        ensures
            c.input_path@ == "test.md"@,
            c.output_path@ == "output.html"@,
            !c.full_html_document,
            c.max_header_level == 6,
    {
        Config {
            input_path: String::from_str("test.md"),
            output_path: String::from_str("output.html"),
            full_html_document: false,
            max_header_level: 6,
        }
    }
}

impl Config {
    /// The default options with the given paths.
    pub fn new(input_path: &str, output_path: &str) -> (c: Config)
        ensures
            c.input_path@ == input_path@,
            c.output_path@ == output_path@,
            !c.full_html_document,
            c.max_header_level == 6,
    {
        Config {
            input_path: String::from_str(input_path),
            output_path: String::from_str(output_path),
            full_html_document: false,
            max_header_level: 6,
        }
    }

    /// The same options, with the full-document flag set to `full_html`.
    pub fn with_full_html(self, full_html: bool) -> (c: Config)
        ensures
            c == (Config { full_html_document: full_html, ..self }),
    {
        Config { full_html_document: full_html, ..self }
    }

    /// The same options, with the deepest accepted header level set.
    pub fn with_max_header_level(self, header_level: u8) -> (c: Config)
        ensures
            c == (Config { max_header_level: header_level, ..self }),
    {
        Config { max_header_level: header_level, ..self }
    }

    /// The same options, with another input path.
    pub fn with_input_path(self, input_path: &str) -> (c: Config)
        ensures
            c.input_path@ == input_path@,
            c.output_path == self.output_path,
            c.full_html_document == self.full_html_document,
            c.max_header_level == self.max_header_level,
    {
        Config { input_path: String::from_str(input_path), ..self }
    }

    /// The same options, with another output path.
    pub fn with_output_path(self, output_path: &str) -> (c: Config)
        ensures
            c.output_path@ == output_path@,
            c.input_path == self.input_path,
            c.full_html_document == self.full_html_document,
            c.max_header_level == self.max_header_level,
    {
        Config { output_path: String::from_str(output_path), ..self }
    }
}

/// The lines of `s`: the pieces between line feeds.
pub open spec fn split_lines(s: Seq<char>) -> Seq<Seq<char>> {
    pieces(s, '\n')
}

/// The number of `#` marks that `s` starts with.
pub open spec fn leading_hashes(s: Seq<char>) -> nat
    decreases s.len(),
{
    if s.len() > 0 && s[0] == '#' {
        1 + leading_hashes(s.drop_first())
    } else {
        0
    }
}

/// What one line contributes: nothing, an element, or the error of a header
/// deeper than `max`.
pub open spec fn line_element(line: Seq<char>, max: u8) -> Result<Option<ElementView>, nat> {
    let t = trimmed(line);
    if t.len() > 0 && t[0] == '#' {
        let k = leading_hashes(t);
        if k > max {
            Err(k)
        } else {
            Ok(Some(ElementView::Header(k as u8, trimmed(t.subrange(k as int, t.len() as int)))))
        }
    } else if t.len() > 0 && t[0] == '-' {
        Ok(Some(ElementView::List(trim_start(t.drop_first()))))
    } else if t.len() > 0 {
        Ok(Some(ElementView::Paragraph(t)))
    } else {
        Ok(None)
    }
}

/// The elements of `lines`, in order, or the error of the first line that
/// has one.
pub open spec fn parse_lines(lines: Seq<Seq<char>>, max: u8) -> Result<Seq<ElementView>, nat>
    decreases lines.len(),
{
    if lines.len() == 0 {
        Ok(Seq::empty())
    } else {
        match parse_lines(lines.drop_last(), max) {
            Err(k) => Err(k),
            Ok(es) => match line_element(lines.last(), max) {
                Err(k) => Err(k),
                Ok(None) => Ok(es),
                Ok(Some(e)) => Ok(es.push(e)),
            },
        }
    }
}

/// The views of parsed elements.
pub open spec fn elements_view(es: Seq<MarkdownElement>) -> Seq<ElementView> {
    es.map_values(|e: MarkdownElement| e@)
}

/// Counts the `#` marks that `s` starts with.
fn count_leading_hashes(s: &str) -> (k: usize)
    ensures
        k == leading_hashes(s@),
        k <= s@.len(),
{
    let n = s.unicode_len();
    let mut i: usize = 0;
    assert(s@.subrange(0, n as int) =~= s@);
    while i < n && s.get_char(i) == '#'
        invariant
            n == s@.len(),
            i <= n,
            leading_hashes(s@) == i + leading_hashes(s@.subrange(i as int, n as int)),
        decreases n - i,
    {
        assert(s@.subrange(i as int, n as int).drop_first() =~= s@.subrange(i + 1, n as int));
        i = i + 1;
    }
    i
}

/// The lines of a prefix of `s`, all but the last, are the first lines of `s`.
proof fn lemma_split_prefix(s: Seq<char>, j: int)
    requires
        0 <= j <= s.len(),
    ensures
        split_lines(s.subrange(0, j)).len() >= 1,
        split_lines(s.subrange(0, j)).len() <= split_lines(s).len(),
        forall|k: int|
            0 <= k < split_lines(s.subrange(0, j)).len() - 1 ==> #[trigger] split_lines(
                s.subrange(0, j),
            )[k] == split_lines(s)[k],
    decreases s.len() - j,
{
    lemma_split_nonempty(s.subrange(0, j));
    if j == s.len() {
        assert(s.subrange(0, j) =~= s);
    } else {
        lemma_split_prefix(s, j + 1);
        let a = split_lines(s.subrange(0, j));
        let b = split_lines(s.subrange(0, j + 1));
        assert(s.subrange(0, j + 1).drop_last() =~= s.subrange(0, j));
        assert(s.subrange(0, j + 1).last() == s[j]);
        assert forall|k: int| 0 <= k < a.len() - 1 implies #[trigger] a[k] == split_lines(s)[k] by {
            assert(a[k] == b[k]);
        }
    }
}

proof fn lemma_split_nonempty(s: Seq<char>)
    ensures
        split_lines(s).len() >= 1,
{
    lemma_pieces_nonempty(s, '\n');
}

/// Once a prefix of the lines fails, the whole document fails the same way.
proof fn lemma_parse_prefix_err(lines: Seq<Seq<char>>, k: int, max: u8)
    requires
        0 <= k <= lines.len(),
        parse_lines(lines.subrange(0, k), max) is Err,
    ensures
        parse_lines(lines, max) == parse_lines(lines.subrange(0, k), max),
    decreases lines.len() - k,
{
    if k == lines.len() {
        assert(lines.subrange(0, k) =~= lines);
    } else {
        assert(lines.subrange(0, k + 1).drop_last() =~= lines.subrange(0, k));
        lemma_parse_prefix_err(lines, k + 1, max);
    }
}

/// What one line contributes to the document.
fn parse_line(line: &str, max: u8) -> (r: Result<Option<MarkdownElement>, MarkdownError>)
    ensures
        match (r, line_element(line@, max)) {
            (Ok(None), Ok(None)) => true,
            (Ok(Some(e)), Ok(Some(v))) => e@ == v,
            (Err(MarkdownError::HeaderTooDeep(k)), Err(j)) => k == j,
            _ => false,
        },
{
    let t = trim(line);
    let n = t.as_str().unicode_len();
    if n > 0 && t.as_str().get_char(0) == '#' {
        let k = count_leading_hashes(t.as_str());
        if k > max as usize {
            Err(MarkdownError::HeaderTooDeep(k))
        } else {
            let rest = t.as_str().substring_char(k, n);
            let text = trim(rest);
            Ok(Some(MarkdownElement::Header(k as u8, text)))
        }
    } else if n > 0 && t.as_str().get_char(0) == '-' {
        let rest = t.as_str().substring_char(1, n);
        let text = trim_leading(rest);
        assert(rest@ =~= t@.drop_first());
        Ok(Some(MarkdownElement::List(text)))
    } else if n > 0 {
        Ok(Some(MarkdownElement::Paragraph(t)))
    } else {
        Ok(None)
    }
}

/// Parses a markdown document line by line: a line starting with `#` is a
/// header whose level is the number of marks, one starting with `-` is a list
/// item, any other non-blank line is a paragraph, and blank lines are skipped.
/// Fails on the first header deeper than `config.max_header_level`.
pub fn parse_md(content: String, config: &Config) -> (r: Result<Vec<MarkdownElement>, MarkdownError>)
    ensures
        match (r, parse_lines(split_lines(content@), config.max_header_level)) {
            (Ok(es), Ok(vs)) => elements_view(es@) == vs,
            (Err(MarkdownError::HeaderTooDeep(k)), Err(j)) => k == j,
            _ => false,
        },
{
    let s = content.as_str();
    let max = config.max_header_level;
    let n = s.unicode_len();
    let mut out: Vec<MarkdownElement> = Vec::new();
    let mut start: usize = 0;
    let mut i: usize = 0;
    assert(split_lines(s@.subrange(0, 0)).drop_last() =~= Seq::<Seq<char>>::empty());
    assert(elements_view(out@) =~= Seq::<ElementView>::empty());
    while i < n
        invariant
            n == s@.len(),
            s@ == content@,
            max == config.max_header_level,
            start <= i <= n,
            split_lines(s@.subrange(0, i as int)).last() == s@.subrange(start as int, i as int),
            parse_lines(split_lines(s@.subrange(0, i as int)).drop_last(), max) == Ok::<
                Seq<ElementView>,
                nat,
            >(elements_view(out@)),
        decreases n - i,
    {
        let ghost pre = s@.subrange(0, i as int);
        let ghost next = s@.subrange(0, i + 1);
        assert(next.drop_last() =~= pre);
        proof {
            lemma_split_nonempty(pre);
        }
        if s.get_char(i) == '\n' {
            let line = s.substring_char(start, i);
            let ghost lines = split_lines(next);
            let ghost before = elements_view(out@);
            assert(next.last() == '\n');
            assert(lines.drop_last() =~= split_lines(pre));
            assert(split_lines(pre).drop_last() =~= lines.drop_last().drop_last());
            assert(lines.drop_last().last() == line@);
            match parse_line(line, max) {
                Err(e) => {
                    proof {
                        let whole = split_lines(s@);
                        let done = lines.drop_last();
                        lemma_split_prefix(s@, i + 1);
                        assert(done =~= whole.subrange(0, done.len() as int));
                        lemma_parse_prefix_err(whole, done.len() as int, max);
                    }
                    return Err(e);
                },
                Ok(None) => {},
                Ok(Some(e)) => {
                    out.push(e);
                    assert(elements_view(out@) =~= before.push(e@));
                },
            }
            start = i + 1;
            assert(s@.subrange(start as int, i + 1) =~= Seq::<char>::empty());
        } else {
            proof {
                let r = split_lines(pre);
                assert(split_lines(next) == r.update(r.len() - 1, r.last().push(s@[i as int])));
                assert(split_lines(next).drop_last() =~= r.drop_last());
                assert(s@.subrange(start as int, i + 1) =~= s@.subrange(start as int, i as int).push(s@[i as int]));
            }
        }
        i = i + 1;
    }
    assert(s@.subrange(0, n as int) =~= s@);
    let line = s.substring_char(start, n);
    proof {
        let lines = split_lines(s@);
        lemma_split_nonempty(s@);
        assert(lines =~= lines.drop_last().push(lines.last()));
    }
    let ghost before = elements_view(out@);
    match parse_line(line, max) {
        Err(e) => Err(e),
        Ok(None) => Ok(out),
        Ok(Some(e)) => {
            out.push(e);
            assert(elements_view(out@) =~= before.push(e@));
            Ok(out)
        },
    }
}

} // verus!
