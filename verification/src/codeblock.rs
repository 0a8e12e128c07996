use vstd::prelude::*;
use crate::error::Error;
use crate::fonts::{MAX_CHAR_WIDTH_UM, MAX_TEXT_CHARS};
use crate::geom::{Mm, Position, Size};
use crate::render::{ops_extended, ops_text, Area, Context, Op, RenderResult};
use crate::style::{Style, StyledString};

verus! {

/// The characters of a text with the newline characters removed: exactly
/// what drawing the text line by line puts on the page, since each line is
/// drawn without its terminator.
pub open spec fn nl_free(s: Seq<char>) -> Seq<char>
    decreases s.len(),
{
    if s.len() == 0 {
        Seq::empty()
    } else if s.first() == '\n' {
        nl_free(s.drop_first())
    } else {
        seq![s.first()] + nl_free(s.drop_first())
    }
}

/// Removing newlines from a text with a newline-free prefix keeps the
/// prefix.
pub proof fn lemma_nl_free_clean_prefix(a: Seq<char>, b: Seq<char>)
    requires
        forall|q: int| 0 <= q < a.len() ==> a[q] != '\n',
    ensures
        nl_free(a + b) == a + nl_free(b),
    decreases a.len(),
{
    if a.len() == 0 {
        assert(a + b =~= b);
        assert(a + nl_free(b) =~= nl_free(b));
    } else {
        assert((a + b).first() == a.first());
        assert((a + b).drop_first() =~= a.drop_first() + b);
        assert(forall|q: int|
            0 <= q < a.drop_first().len() ==> #[trigger] a.drop_first()[q] != '\n');
        lemma_nl_free_clean_prefix(a.drop_first(), b);
        assert(seq![a.first()] + (a.drop_first() + nl_free(b)) =~= a + nl_free(b));
    }
}

/// A block of code, rendered line by line in a fixed base style, with
/// optional syntax highlighting.  When a language and theme are set and a
/// highlighter is available, each line is drawn as the highlighter's
/// styled spans; otherwise, and whenever the language, theme or a line is
/// not understood, the line is drawn whole in the base style.  A cursor
/// remembers how many characters have been drawn, so the block resumes
/// across page breaks.
pub struct CodeBlock {
    /// The code to draw.
    pub code: String,
    /// Index of the first character that has not been drawn yet.
    pub code_idx: usize,
    /// The style providing the font size; highlighting adds color and
    /// effects on top of it.
    pub base_style: Style,
    /// The language token the highlighter looks the syntax up by.
    pub language: String,
    /// The highlighting theme name, if highlighting is wanted.
    pub theme: Option<String>,
    /// When set, the highlighter's bold and italic flags are ignored.
    pub only_regular_font: bool,
}

impl CodeBlock {
    /// Well-formedness: the code is short enough for exact width
    /// arithmetic and the cursor is in range.
    pub open spec fn wf(self) -> bool {
        self.code@.len() <= MAX_TEXT_CHARS && self.code_idx <= self.code@.len()
    }

    /// The characters that have not been drawn yet.
    pub open spec fn spec_pending(self) -> Seq<char> {
        self.code@.skip(self.code_idx as int)
    }

    /// Creates a code block for the given code, language token and
    /// optional theme name, based on the given style.
    pub fn new(code: &str, language: &str, theme: Option<&str>, base_style: Style) -> (r:
        CodeBlock)
        requires
            code@.len() <= MAX_TEXT_CHARS,
        ensures
            r.code@ == code@,
            r.code_idx == 0,
            r.base_style == base_style,
            r.language@ == language@,
            (r.theme matches Some(t) ==> (theme matches Some(t0) && t@ == t0@)),
            (r.theme is Some <==> theme is Some),
            !r.only_regular_font,
            r.wf(),
    {
        let owned_theme = match theme {
            Some(t) => Some(t.to_owned()),
            None => None,
        };
        CodeBlock {
            code: code.to_owned(),
            code_idx: 0,
            base_style,
            language: language.to_owned(),
            theme: owned_theme,
            only_regular_font: false,
        }
    }

    /// Draws the pending lines of code, one per line of the base style's
    /// height, until the code or the area's height is exhausted; the
    /// cursor advances over every drawn line and its terminator, so no
    /// character is drawn twice on a later call.
    pub fn render(
        &mut self,
        context: &Context,
        area: Area,
        _style: Style,
        ops: &mut Vec<Op>,
    ) -> (r: Result<RenderResult, Error>)
        requires
            old(self).wf(),
        ensures
            final(self).wf(),
            ops_extended(old(ops)@, final(ops)@),
            final(self).code == old(self).code,
            old(self).code_idx <= final(self).code_idx,
            r is Ok,
            (r matches Ok(res) ==> (res.has_more <==> final(self).spec_pending().len() > 0)),
            (r matches Ok(res) && !res.has_more) ==> final(self).spec_pending() == Seq::<
                char,
            >::empty(),
            (r matches Ok(res) ==> 0 <= res.size.height.0 <= (if area.size.height.0 >= 0 {
                area.size.height.0 as int
            } else {
                0
            }) && res.size.width.0 >= 0),
            ops_text(old(ops)@) + nl_free(old(self).spec_pending()) == ops_text(final(ops)@)
                + nl_free(final(self).spec_pending()),
            old(self).code_idx >= old(self).code@.len() ==> (r matches Ok(res)
                && res.size.width.0 == 0 && res.size.height.0 == 0 && !res.has_more
                && final(ops)@ == old(ops)@ && *final(self) == *old(self)),
            (old(self).code_idx < old(self).code@.len()
                && context.font_cache.spec_line_height(
                old(self).base_style.effective_font_size() as int,
            ) <= area.size.height.0) ==> final(self).code_idx > old(self).code_idx,
    {
        let ghost ops0 = ops@;
        proof {
            crate::render::lemma_ops_extended_refl(ops@);
        }
        let cache = &context.font_cache;
        let mut result = RenderResult::new();
        let len = self.code.as_str().unicode_len();
        if self.code_idx >= len {
            proof {
                assert(self.spec_pending() =~= Seq::<char>::empty());
                crate::render::lemma_ops_extended_refl(ops@);
            }
            return Ok(result);
        }
        // Highlight the pending code when a theme is set and a highlighter
        // is available; fall back to unstyled lines otherwise.
        let pending = self.code.as_str().substring_char(self.code_idx, len);
        let highlighted: Option<Vec<Vec<StyledString>>> = match (&self.theme, &context.highlighter)
         {
            (Some(theme), Some(hl)) => hl.highlight(
                pending,
                self.language.as_str(),
                theme.as_str(),
                self.base_style,
                self.only_regular_font,
            ),
            _ => None,
        };
        let line_height = self.base_style.line_height(cache);
        let idx0 = self.code_idx;
        let mut y: i64 = 0;
        let mut line_no: usize = 0;
        let mut done = false;
        while !done && self.code_idx < len
            invariant
                cache == &context.font_cache,
                ops0 == old(ops)@,
                self.code == old(self).code,
                self.base_style == old(self).base_style,
                len == self.code@.len(),
                idx0 == old(self).code_idx,
                idx0 <= self.code_idx <= len,
                old(self).wf(),
                self.wf(),
                0 <= y,
                ops_extended(ops0, ops@),
                0 <= line_height.0 <= MAX_CHAR_WIDTH_UM,
                line_height.0 == context.font_cache.spec_line_height(
                    old(self).base_style.effective_font_size() as int,
                ),
                result.size.height.0 == y,
                y <= (if area.size.height.0 >= 0 {
                    area.size.height.0 as int
                } else {
                    0
                }),
                result.size.width.0 >= 0,
                self.code_idx == idx0 ==> y == 0,
                done ==> self.code_idx < len,
                done && self.code_idx == idx0 ==> line_height.0 > area.size.height.0,
                ops_text(ops0) + nl_free(old(self).spec_pending()) == ops_text(ops@) + nl_free(
                    self.spec_pending(),
                ),
                (highlighted matches Some(lines) ==> crate::highlight::wf_highlighted(
                    lines@,
                    self.base_style,
                )),
            decreases len - self.code_idx, (if done { 0int } else { 1int }),
        {
            if !area.fits_line(Position::new(Mm(0), Mm(y)), line_height) {
                done = true;
            } else {
                let start = self.code_idx;
                let mut j: usize = start;
                while j < len && self.code.as_str().get_char(j) != '\n'
                    invariant
                        start <= j <= len,
                        len == self.code@.len(),
                        self.code@.len() <= MAX_TEXT_CHARS,
                        forall|q: int| start <= q < j ==> self.code@[q] != '\n',
                    decreases len - j,
                {
                    j = j + 1;
                }
                let ghost content = self.code@.subrange(start as int, j as int);
                proof {
                    assert(forall|q: int| 0 <= q < content.len() ==> content[q] != '\n');
                }
                // Draw the line's content: either sliced at the
                // highlighter's span boundaries, each slice in its span's
                // style, or whole in the base style.  Either way, exactly
                // the content between the cursor and the terminator is
                // drawn.
                let clen = j - start;
                let ghost ops_line = ops@;
                proof {
                    crate::render::lemma_ops_extended_refl(ops@);
                }
                let mut line_width: i64 = 0;
                let mut pos: usize = 0;
                match &highlighted {
                    Some(lines) => {
                        if line_no < lines.len() {
                            let spans = &lines[line_no];
                            let m = spans.len();
                            let mut k: usize = 0;
                            let mut x: i64 = 0;
                            while k < m && pos < clen
                                invariant
                                    cache == &context.font_cache,
                                    0 <= k <= m,
                                    0 <= pos <= clen,
                                    clen == j - start,
                                    start <= j <= len,
                                    len == self.code@.len() <= MAX_TEXT_CHARS,
                                    content == self.code@.subrange(start as int, j as int),
                                    m == spans@.len(),
                                    ops_extended(ops_line, ops@),
                                    ops_text(ops@) == ops_text(ops_line) + content.take(
                                        pos as int,
                                    ),
                                    forall|q: int|
                                        0 <= q < spans@.len() ==> (
                                        #[trigger] spans@[q]).s@.len() <= MAX_TEXT_CHARS,
                                    -9_000_000_000_000_000 <= x <= 9_000_000_000_000_000,
                                decreases m - k,
                            {
                                let span = &spans[k];
                                let slen = span.s.as_str().unicode_len();
                                let piece_end = if slen < clen - pos {
                                    pos + slen
                                } else {
                                    clen
                                };
                                if piece_end > pos {
                                    let piece = self.code.as_str().substring_char(
                                        start + pos,
                                        start + piece_end,
                                    );
                                    let ghost pre = ops@;
                                    area.put_text(
                                        ops,
                                        Position::new(Mm(x), Mm(y)),
                                        span.style,
                                        piece,
                                        0,
                                    );
                                    proof {
                                        assert(ops@.take(pre.len() as int) =~= ops@.drop_last());
                                        crate::render::lemma_ops_extended_trans(
                                            ops_line,
                                            pre,
                                            ops@,
                                        );
                                        assert(content.take(piece_end as int) =~= content.take(
                                            pos as int,
                                        ) + self.code@.subrange(
                                            start + pos as int,
                                            start + piece_end as int,
                                        ));
                                        assert((ops_text(pre) + self.code@.subrange(
                                            start + pos as int,
                                            start + piece_end as int,
                                        )) =~= ops_text(ops_line) + content.take(
                                            piece_end as int,
                                        ));
                                    }
                                    let w = span.style.str_width(cache, piece);
                                    if x <= 8_000_000_000_000_000 - w.0 {
                                        x = x + w.0;
                                    }
                                }
                                pos = piece_end;
                                k = k + 1;
                            }
                            line_width = x;
                        }
                    },
                    None => {},
                }
                if pos < clen {
                    let piece = self.code.as_str().substring_char(start + pos, j);
                    let ghost pre = ops@;
                    area.put_text(
                        ops,
                        Position::new(Mm(line_width), Mm(y)),
                        self.base_style,
                        piece,
                        0,
                    );
                    proof {
                        assert(ops@.take(pre.len() as int) =~= ops@.drop_last());
                        crate::render::lemma_ops_extended_trans(ops_line, pre, ops@);
                        assert(content =~= content.take(pos as int) + self.code@.subrange(
                            start + pos as int,
                            j as int,
                        ));
                        assert((ops_text(pre) + self.code@.subrange(
                            start + pos as int,
                            j as int,
                        )) =~= ops_text(ops_line) + content);
                    }
                    let w = self.base_style.str_width(cache, piece);
                    if line_width <= 8_000_000_000_000_000 - w.0 {
                        line_width = line_width + w.0;
                    }
                    proof {
                        assert(ops_text(ops@) == ops_text(ops_line) + content);
                    }
                } else {
                    proof {
                        assert(content.take(clen as int) =~= content);
                        assert(ops_text(ops@) == ops_text(ops_line) + content);
                    }
                }
                proof {
                    crate::render::lemma_ops_extended_trans(ops0, ops_line, ops@);
                    // The consumed characters minus the terminator are
                    // exactly the drawn content.
                    let next_idx: int = if j < len {
                        j as int + 1
                    } else {
                        j as int
                    };
                    assert(self.code@.skip(start as int) =~= content + self.code@.skip(j as int));
                    lemma_nl_free_clean_prefix(content, self.code@.skip(j as int));
                    if j < len {
                        assert(self.code@.skip(j as int).first() == self.code@[j as int]);
                        assert(self.code@.skip(j as int).drop_first() =~= self.code@.skip(
                            j as int + 1,
                        ));
                        assert(nl_free(self.code@.skip(j as int)) == nl_free(self.code@.skip(
                            j as int + 1,
                        )));
                    }
                    assert((ops_text(ops_line) + content) + nl_free(self.code@.skip(next_idx))
                        =~= ops_text(ops_line) + (content + nl_free(self.code@.skip(next_idx))));
                }
                self.code_idx = if j < len {
                    j + 1
                } else {
                    j
                };
                result.size = result.size.stack_vertical(
                    Size::new(Mm(line_width), line_height),
                );
                y = y + line_height.0;
                if line_no < usize::MAX {
                    line_no = line_no + 1;
                }
            }
        }
        result.has_more = self.code_idx < len;
        proof {
            if self.code_idx < len {
                assert(self.spec_pending().len() > 0);
            } else {
                assert(self.spec_pending() =~= Seq::<char>::empty());
            }
        }
        Ok(result)
    }
}

impl crate::elements::IntoBoxedElement for CodeBlock {
    open spec fn as_element(self) -> crate::elements::Element {
        crate::elements::Element::Code(self)
    }

    fn into_boxed_element(self) -> (r: Box<crate::elements::Element>) {
        Box::new(crate::elements::Element::Code(self))
    }
}

} // verus!
