use vstd::prelude::*;
use crate::fonts::MAX_TEXT_CHARS;
use crate::style::{Color, Style, StyledString};

verus! {

#[verifier::external_type_specification]
#[verifier::external_body]
pub struct ExSyntaxSet(syntect::parsing::SyntaxSet);

#[verifier::external_type_specification]
#[verifier::external_body]
pub struct ExSyntaxReference(syntect::parsing::SyntaxReference);

#[verifier::external_type_specification]
#[verifier::external_body]
pub struct ExThemeSet(syntect::highlighting::ThemeSet);

#[verifier::external_type_specification]
#[verifier::external_body]
pub struct ExTheme(syntect::highlighting::Theme);

#[verifier::external_type_specification]
#[verifier::external_body]
pub struct ExHighlightLines<'a>(syntect::easy::HighlightLines<'a>);

/// One highlighted span as plain values: its text, its foreground color
/// channels, and its bold and italic flags.
pub struct RawSpan {
    /// The span's text.
    pub text: String,
    /// Red channel of the foreground color.
    pub red: u8,
    /// Green channel of the foreground color.
    pub green: u8,
    /// Blue channel of the foreground color.
    pub blue: u8,
    /// Whether the span is bold.
    pub bold: bool,
    /// Whether the span is italic.
    pub italic: bool,
}

/// Relies on syntect's SyntaxSet::load_defaults_newlines: loads the
/// bundled syntax definitions.
#[verifier::external_body]
fn load_default_syntaxes() -> syntect::parsing::SyntaxSet {
    syntect::parsing::SyntaxSet::load_defaults_newlines()
}

/// Relies on syntect's ThemeSet::load_defaults: loads the bundled themes.
#[verifier::external_body]
fn load_default_themes() -> syntect::highlighting::ThemeSet {
    syntect::highlighting::ThemeSet::load_defaults()
}

/// Whether the syntax set holds a syntax for the given language token:
/// what syntect's SyntaxSet::find_syntax_by_token finds, a pure lookup in
/// the set.
pub uninterp spec fn spec_syntax_lookup(
    syntax_set: syntect::parsing::SyntaxSet,
    token: Seq<char>,
) -> bool;

/// Whether the theme set holds a theme of the given name: what the lookup
/// in the set's theme map finds.
pub uninterp spec fn spec_theme_lookup(
    theme_set: syntect::highlighting::ThemeSet,
    name: Seq<char>,
) -> bool;

/// Relies on syntect's SyntaxSet::find_syntax_by_token: looks a syntax up
/// by its name or file extension; a pure lookup, found exactly when the
/// set holds the token's syntax.
#[verifier::external_body]
fn find_syntax<'a>(
    syntax_set: &'a syntect::parsing::SyntaxSet,
    token: &str,
) -> (r: Option<&'a syntect::parsing::SyntaxReference>)
    ensures
        (r is Some <==> spec_syntax_lookup(*syntax_set, token@)),
{
    syntax_set.find_syntax_by_token(token)
}

/// Relies on the `themes` map of syntect's ThemeSet: looks a theme up by
/// name; a pure lookup, found exactly when the map holds the name.
#[verifier::external_body]
fn find_theme<'a>(
    theme_set: &'a syntect::highlighting::ThemeSet,
    name: &str,
) -> (r: Option<&'a syntect::highlighting::Theme>)
    ensures
        (r is Some <==> spec_theme_lookup(*theme_set, name@)),
{
    theme_set.themes.get(name)
}

/// Relies on syntect's HighlightLines::new: builds the stateful
/// line-by-line highlighter for a syntax and a theme.
#[verifier::external_body]
fn new_highlighter<'a>(
    syntax: &syntect::parsing::SyntaxReference,
    theme: &'a syntect::highlighting::Theme,
) -> syntect::easy::HighlightLines<'a> {
    syntect::easy::HighlightLines::new(syntax, theme)
}

/// The concatenation of the texts of a sequence of spans.
pub open spec fn raw_spans_text(s: Seq<RawSpan>) -> Seq<char>
    decreases s.len(),
{
    if s.len() == 0 {
        Seq::empty()
    } else {
        s.first().text@ + raw_spans_text(s.drop_first())
    }
}

/// Styled runs carrying the same texts as spans concatenate to the same
/// characters.
pub proof fn lemma_styled_matches_raw(a: Seq<StyledString>, b: Seq<RawSpan>)
    requires
        a.len() == b.len(),
        forall|i: int| 0 <= i < a.len() ==> (#[trigger] a[i]).s@ == b[i].text@,
    ensures
        crate::wrap::words_chars(a) == raw_spans_text(b),
    decreases a.len(),
{
    if a.len() > 0 {
        assert(forall|i: int|
            0 <= i < a.drop_first().len() ==> (#[trigger] a.drop_first()[i]).s@
                == b.drop_first()[i].text@);
        lemma_styled_matches_raw(a.drop_first(), b.drop_first());
    }
}

/// Relies on syntect's HighlightLines::highlight_line: highlights one line
/// and hands its spans back as plain values, partitioning the line exactly
/// — the span texts are consecutive slices that concatenate to the line; a
/// parse error becomes `None`.
#[verifier::external_body]
fn highlight_line_spans<'a>(
    highlighter: &mut syntect::easy::HighlightLines<'a>,
    line: &str,
    syntax_set: &syntect::parsing::SyntaxSet,
) -> (r: Option<Vec<RawSpan>>)
    ensures
        (r matches Some(spans) ==> raw_spans_text(spans@) == line@),
{
    match highlighter.highlight_line(line, syntax_set) {
        Ok(spans) => Some(
            spans.into_iter().map(
                |(st, s)| RawSpan {
                    text: s.to_string(),
                    red: st.foreground.r,
                    green: st.foreground.g,
                    blue: st.foreground.b,
                    bold: st.font_style.contains(syntect::highlighting::FontStyle::BOLD),
                    italic: st.font_style.contains(syntect::highlighting::FontStyle::ITALIC),
                },
            ).collect(),
        ),
        Err(_) => None,
    }
}

/// The style a highlighted span is drawn in: the base style recolored
/// with the span's foreground and, unless the regular font is forced,
/// carrying the span's bold and italic flags.
pub open spec fn spec_span_style(base: Style, span: RawSpan, only_regular_font: bool) -> Style {
    Style {
        color: Some(Color::Rgb(span.red, span.green, span.blue)),
        bold: if !only_regular_font && span.bold {
            Some(true)
        } else {
            base.bold
        },
        italic: if !only_regular_font && span.italic {
            Some(true)
        } else {
            base.italic
        },
        ..base
    }
}

/// Turns the plain spans of one highlighted line into styled runs: each
/// run keeps its span's text and wears the span's style over the base
/// style.  Fails exactly when some span is too long for exact width
/// arithmetic.
pub fn styled_line(spans: &Vec<RawSpan>, base_style: Style, only_regular_font: bool) -> (r:
    Option<Vec<StyledString>>)
    ensures
        (r matches Some(runs) ==> {
            &&& runs@.len() == spans@.len()
            &&& (forall|k: int|
                0 <= k < runs@.len() ==> (#[trigger] runs@[k]).s@ == spans@[k].text@
                    && runs@[k].style == spec_span_style(
                    base_style,
                    spans@[k],
                    only_regular_font,
                ))
        }),
        (r is None <==> exists|k: int|
            0 <= k < spans@.len() && (#[trigger] spans@[k]).text@.len() > MAX_TEXT_CHARS),
{
    let m = spans.len();
    let mut runs: Vec<StyledString> = Vec::new();
    let mut k: usize = 0;
    while k < m
        invariant
            0 <= k <= m,
            m == spans@.len(),
            runs@.len() == k,
            forall|q: int|
                0 <= q < k ==> (#[trigger] runs@[q]).s@ == spans@[q].text@ && runs@[q].style
                    == spec_span_style(base_style, spans@[q], only_regular_font),
            forall|q: int| 0 <= q < k ==> (#[trigger] spans@[q]).text@.len() <= MAX_TEXT_CHARS,
        decreases m - k,
    {
        let span = &spans[k];
        if span.text.as_str().unicode_len() > MAX_TEXT_CHARS {
            return None;
        }
        let mut style = base_style.with_color(Color::Rgb(span.red, span.green, span.blue));
        if !only_regular_font {
            if span.bold {
                style.set_bold();
            }
            if span.italic {
                style.set_italic();
            }
        }
        let text = span.text.clone();
        runs.push(StyledString::new(text, style));
        k = k + 1;
    }
    Some(runs)
}

/// The concatenation of the texts of all spans of all lines, in order.
pub open spec fn lines_all_text(lines: Seq<Vec<StyledString>>) -> Seq<char>
    decreases lines.len(),
{
    if lines.len() == 0 {
        Seq::empty()
    } else {
        crate::wrap::words_chars(lines.first()@) + lines_all_text(lines.drop_first())
    }
}

/// Appending a line appends its text to the concatenation.
pub proof fn lemma_lines_all_text_push(lines: Seq<Vec<StyledString>>, v: Vec<StyledString>)
    ensures
        lines_all_text(lines.push(v)) == lines_all_text(lines) + crate::wrap::words_chars(v@),
    decreases lines.len(),
{
    if lines.len() == 0 {
        assert(lines.push(v).drop_first() =~= Seq::<Vec<StyledString>>::empty());
        assert(lines.push(v).first() == v);
        assert(lines_all_text(Seq::<Vec<StyledString>>::empty()) =~= Seq::<char>::empty());
        assert(lines_all_text(lines.push(v)) =~= crate::wrap::words_chars(v@));
        assert(lines_all_text(lines) + crate::wrap::words_chars(v@) =~= crate::wrap::words_chars(
            v@,
        ));
    } else {
        assert(lines.push(v).drop_first() =~= lines.drop_first().push(v));
        lemma_lines_all_text_push(lines.drop_first(), v);
        assert(crate::wrap::words_chars(lines.first()@) + (lines_all_text(lines.drop_first())
            + crate::wrap::words_chars(v@)) == (crate::wrap::words_chars(lines.first()@)
            + lines_all_text(lines.drop_first())) + crate::wrap::words_chars(v@));
    }
}

/// Every span of every line is short enough for exact width arithmetic and
/// keeps the base style's font size, so a highlighted line has the same
/// line height as an unstyled one.
pub open spec fn wf_highlighted(lines: Seq<Vec<StyledString>>, base_style: Style) -> bool {
    forall|i: int, j: int|
        0 <= i < lines.len() && 0 <= j < (#[trigger] lines[i])@.len() ==> (
        #[trigger] lines[i]@[j]).s@.len() <= MAX_TEXT_CHARS && lines[i]@[j].style.font_size
            == base_style.font_size
}

/// Turns code into styled string segments using syntect's syntax
/// definitions and themes.
pub struct SyntaxHighlighter {
    /// The loaded syntax definitions.
    pub syntax_set: syntect::parsing::SyntaxSet,
    /// The loaded themes.
    pub theme_set: syntect::highlighting::ThemeSet,
}

impl SyntaxHighlighter {
    /// Loads the default language support and themes.
    pub fn load_defaults() -> SyntaxHighlighter {
        SyntaxHighlighter { syntax_set: load_default_syntaxes(), theme_set: load_default_themes() }
    }

    /// Highlights the code line by line with the syntax for the given
    /// language token and the given theme; the base style provides the
    /// font size and each span adds the theme's color and, unless the
    /// regular font is forced, its bold and italic flags.  Returns one
    /// span list per line of the code, or nothing when the language or
    /// theme is unknown or a line cannot be parsed.
    pub fn highlight(
        &self,
        code: &str,
        language: &str,
        theme: &str,
        base_style: Style,
        only_regular_font: bool,
    ) -> (r: Option<Vec<Vec<StyledString>>>)
        requires
            code@.len() <= MAX_TEXT_CHARS,
        ensures
            (r matches Some(lines) ==> wf_highlighted(lines@, base_style)),
            (r matches Some(lines) ==> lines_all_text(lines@) == code@),
            !spec_syntax_lookup(self.syntax_set, language@) ==> r is None,
            !spec_theme_lookup(self.theme_set, theme@) ==> r is None,
            (r is Some ==> spec_syntax_lookup(self.syntax_set, language@) && spec_theme_lookup(
                self.theme_set,
                theme@,
            )),
    {
        let syntax = match find_syntax(&self.syntax_set, language) {
            Some(s) => s,
            None => {
                return None;
            },
        };
        let theme_ref = match find_theme(&self.theme_set, theme) {
            Some(t) => t,
            None => {
                return None;
            },
        };
        let mut highlighter = new_highlighter(syntax, theme_ref);
        let len = code.unicode_len();
        let mut lines: Vec<Vec<StyledString>> = Vec::new();
        let mut i: usize = 0;
        proof {
            assert(lines_all_text(lines@) =~= code@.take(0));
        }
        while i < len
            invariant
                0 <= i <= len,
                len == code@.len() <= MAX_TEXT_CHARS,
                wf_highlighted(lines@, base_style),
                lines_all_text(lines@) == code@.take(i as int),
            decreases len - i,
        {
            let mut j: usize = i;
            while j < len && code.get_char(j) != '\n'
                invariant
                    i <= j <= len,
                    len == code@.len(),
                decreases len - j,
            {
                j = j + 1;
            }
            let end = if j < len {
                j + 1
            } else {
                j
            };
            let line = code.substring_char(i, end);
            let raw = match highlight_line_spans(&mut highlighter, line, &self.syntax_set) {
                Some(spans) => spans,
                None => {
                    return None;
                },
            };
            let styled = match styled_line(&raw, base_style, only_regular_font) {
                Some(runs) => runs,
                None => {
                    return None;
                },
            };
            let ghost pre = lines@;
            proof {
                lemma_styled_matches_raw(styled@, raw@);
            }
            lines.push(styled);
            proof {
                assert(lines@ =~= pre.push(styled));
                lemma_lines_all_text_push(pre, styled);
                assert(code@.take(end as int) =~= code@.take(i as int) + code@.subrange(
                    i as int,
                    end as int,
                ));
            }
            i = end;
        }
        proof {
            assert(code@.take(len as int) =~= code@);
        }
        Some(lines)
    }
}


} // verus!
