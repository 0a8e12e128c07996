use vstd::prelude::*;
use crate::error::{Error, ErrorKind};
use crate::fonts::{MAX_CHAR_WIDTH_UM, MAX_TEXT_CHARS};
use crate::geom::{sat_add, sat_sub, Margins, Mm, Position, Size};
use crate::render::{
    ops_extended, ops_text, Area, Context, Op, RenderResult, MAX_AREA_UM,
};
use crate::style::{Alignment, LineStyle, Style, StyledString};
use crate::wrap::{
    lemma_words_chars_concat, lemma_words_chars_congruent, lemma_words_chars_push, split_words,
    spec_line_end, spec_word_width, take_line, wf_words, words_chars, words_metrics,
    words_width_sum, leading_space_width, trailing_space_width,
};
use crate::render::spec_shift;

verus! {

broadcast use
    vstd::std_specs::vec::axiom_vec_index_decreases,
    vstd::std_specs::vec::axiom_vec_decreases_to_view,
    vstd::seq::axiom_seq_index_decreases;

/// A renderable node of the document tree.
///
/// An element is rendered by repeated calls: each call receives the space
/// currently available and either consumes all remaining content, reporting
/// the size it used, or reports `has_more`, asking the caller for a fresh
/// area.  Internal state is confined to resumption bookkeeping.
pub enum Element {
    /// A sequence of elements stacked vertically.
    Linear(LinearLayout),
    /// A single unwrapped line of styled text.
    Plain(Text),
    /// A wrapped and aligned paragraph of styled text.
    Paragraph(Paragraph),
    /// A number of empty lines.
    Break(Break),
    /// A forced page break.
    PageBreak(PageBreak),
    /// An element with a padding around it.
    Padded(PaddedElement),
    /// An element with a default style for it and its children.
    Styled(StyledElement),
    /// An element with a frame around it.
    Framed(FramedElement),
    /// An element with a bullet label to its left.
    Bullet(BulletPoint),
    /// A list with a shared bullet symbol.
    Unordered(UnorderedList),
    /// A list with auto-incrementing numeric labels.
    Ordered(OrderedList),
    /// Rows of elements arranged in weighted columns.
    Table(crate::table::TableLayout),
    /// A block of laid-out mathematics.
    Math(crate::math::Math),
    /// A block of code drawn line by line.
    Code(crate::codeblock::CodeBlock),
}

/// Builds a boxed element from a concrete element type.
pub trait IntoBoxedElement {
    /// The element tree node this value becomes.
    spec fn as_element(self) -> Element;

    /// Wraps this value as a boxed element tree node.
    fn into_boxed_element(self) -> (r: Box<Element>)
        ensures
            *r == self.as_element(),
    ;
}

impl Element {
    /// Well-formedness of an element tree: every stored length is bounded
    /// so the layout arithmetic below stays exact, and every resume cursor
    /// is in range.
    pub open spec fn wf(self) -> bool
        decreases self,
    {
        match self {
            Element::Linear(l) => l.render_idx <= l.elements@.len() && (forall|i: int|
                0 <= i < l.elements@.len() ==> (#[trigger] l.elements@[i]).wf()) && (forall|
                i: int,
            |
                0 <= i < l.render_idx ==> (*(#[trigger] l.elements@[i])).spec_pending() == Seq::<
                    char,
                >::empty()),
            Element::Plain(t) => t.text.s@.len() <= MAX_TEXT_CHARS,
            Element::Paragraph(p) => p.wf(),
            Element::Break(b) => 0 <= b.milli_lines <= 1_000_000_000,
            Element::PageBreak(_) => true,
            Element::Padded(p) => p.padding.top.0 >= 0 && p.padding.right.0 >= 0
                && p.padding.bottom.0 >= 0 && p.padding.left.0 >= 0 && p.element.wf(),
            Element::Styled(s) => s.element.wf(),
            Element::Framed(f) => f.line_style.wf() && f.line_style.thickness.0 <= MAX_AREA_UM
                && f.element.wf(),
            Element::Bullet(b) => b.indent.0 >= 0 && b.bullet_space.0 >= 0 && b.indent.0
                <= MAX_AREA_UM && b.bullet@.len() <= MAX_TEXT_CHARS && b.element.wf(),
            Element::Unordered(u) => u.layout.render_idx <= u.layout.elements@.len() && (forall|
                i: int,
            |
                0 <= i < u.layout.elements@.len() ==> (#[trigger] u.layout.elements@[i]).wf()) && (
            forall|i: int|
                0 <= i < u.layout.render_idx ==> (*(
                #[trigger] u.layout.elements@[i])).spec_pending() == Seq::<char>::empty()) && (
            u.bullet matches Some(s) ==> s@.len() < MAX_TEXT_CHARS),
            Element::Ordered(o) => o.layout.render_idx <= o.layout.elements@.len() && (forall|
                i: int,
            |
                0 <= i < o.layout.elements@.len() ==> (#[trigger] o.layout.elements@[i]).wf()) && (
            forall|i: int|
                0 <= i < o.layout.render_idx ==> (*(
                #[trigger] o.layout.elements@[i])).spec_pending() == Seq::<char>::empty()),
            Element::Table(t) => {
                &&& (forall|i: int|
                    0 <= i < t.column_weights@.len() ==> t.column_weights@[i] >= 1)
                &&& crate::render::weight_psum(
                    t.column_weights@,
                    t.column_weights@.len() as int,
                ) <= crate::render::MAX_WEIGHT_SUM as int
                &&& t.render_idx <= t.rows@.len()
                &&& (forall|i: int|
                    0 <= i < t.rows@.len() ==> (#[trigger] t.rows@[i])@.len()
                        == t.column_weights@.len())
                &&& (forall|i: int, j: int|
                    0 <= i < t.rows@.len() && 0 <= j < (#[trigger] t.rows@[i])@.len() ==> (
                    #[trigger] t.rows@[i]@[j]).wf())
                &&& (forall|i: int|
                    0 <= i < t.render_idx ==> elements_pending(
                        (#[trigger] t.rows@[i])@,
                        0,
                    ) == Seq::<char>::empty())
                &&& (t.cell_decorator matches Some(d) ==> d.wf())
            },
            Element::Math(m) => m.wf(),
            Element::Code(c) => c.wf(),
        }
    }
}

/// The characters still pending in the elements at and after position
/// `from`: what a sequence of render calls on them would still draw as
/// text.
pub open spec fn elements_pending(s: Seq<Box<Element>>, from: int) -> Seq<char>
    decreases s, s.len() - from,
{
    if from < 0 || from >= s.len() {
        Seq::empty()
    } else {
        (*s[from]).spec_pending() + elements_pending(s, from + 1)
    }
}

/// The characters still pending in the table rows at and after position
/// `from`.
pub open spec fn rows_pending(s: Seq<Vec<Box<Element>>>, from: int) -> Seq<char>
    decreases s, s.len() - from,
{
    if from < 0 || from >= s.len() {
        Seq::empty()
    } else {
        elements_pending(s[from]@, 0) + rows_pending(s, from + 1)
    }
}

/// Elements whose pending text is all empty contribute nothing.
pub proof fn lemma_elements_pending_all_empty(s: Seq<Box<Element>>, from: int)
    requires
        forall|j: int| from <= j < s.len() ==> (*(#[trigger] s[j])).spec_pending() == Seq::<char>::empty(),
    ensures
        elements_pending(s, from) == Seq::<char>::empty(),
    decreases s.len() - from,
{
    if 0 <= from < s.len() {
        lemma_elements_pending_all_empty(s, from + 1);
        assert(elements_pending(s, from) =~= Seq::<char>::empty());
    }
}

impl Element {
    /// The characters this element still draws as text over the rest of
    /// its render calls: the untouched tail of a paragraph's words, of a
    /// code block's code, and of a container's children.  Elements that
    /// draw the same output on every call — a text line, a math block —
    /// and elements that draw no text at all count as having nothing
    /// pending.
    pub open spec fn spec_pending(self) -> Seq<char>
        decreases self, 0int,
    {
        match self {
            Element::Linear(l) => elements_pending(l.elements@, l.render_idx as int),
            Element::Plain(_) => Seq::empty(),
            Element::Paragraph(p) => p.spec_pending(),
            Element::Break(_) => Seq::empty(),
            Element::PageBreak(_) => Seq::empty(),
            Element::Padded(p) => (*p.element).spec_pending(),
            Element::Styled(s) => (*s.element).spec_pending(),
            Element::Framed(f) => (*f.element).spec_pending(),
            Element::Bullet(b) => (*b.element).spec_pending(),
            Element::Unordered(u) => elements_pending(
                u.layout.elements@,
                u.layout.render_idx as int,
            ),
            Element::Ordered(o) => elements_pending(
                o.layout.elements@,
                o.layout.render_idx as int,
            ),
            Element::Table(t) => if t.column_weights@.len() == 0 {
                Seq::empty()
            } else {
                rows_pending(t.rows@, t.render_idx as int)
            },
            Element::Math(_) => Seq::empty(),
            Element::Code(c) => c.spec_pending(),
        }
    }
}

/// Arranges a sequence of elements vertically, resuming after the last
/// fully rendered element on the next call.
pub struct LinearLayout {
    /// The elements, in stacking order.
    pub elements: Vec<Box<Element>>,
    /// Index of the first element that has not been fully rendered.
    pub render_idx: usize,
}

/// A single line of styled text.  The text is not wrapped: it is printed
/// whole if a line of its height fits the area, and left pending otherwise.
pub struct Text {
    /// The text and its style.
    pub text: StyledString,
}

/// A number of empty lines, usable as a vertical spacer.  The height is
/// the line height of the inherited style times the number of lines.
pub struct Break {
    /// The remaining break height, in thousandths of a line.
    pub milli_lines: i64,
}

/// A forced page break: the first render call consumes a minimal size and
/// asks for a fresh area; the second call does nothing.
pub struct PageBreak {
    /// True once the break has been performed.
    pub cont: bool,
}

/// Adds a padding around the wrapped element.  The bottom padding is
/// withheld from the inner area and added to the reported height instead,
/// so trailing padding never causes a spurious page break.
pub struct PaddedElement {
    /// The wrapped element.
    pub element: Box<Element>,
    /// The padding; never negative on any edge.
    pub padding: Margins,
}

/// Merges a fixed style into the inherited style before delegating to the
/// wrapped element.
pub struct StyledElement {
    /// The wrapped element.
    pub element: Box<Element>,
    /// The style merged over the inherited style.
    pub style: Style,
}

/// Draws a frame around the wrapped element.  The top border is drawn only
/// on the first chunk and the bottom border only on the last chunk; the
/// left and right borders are drawn on every chunk.
pub struct FramedElement {
    /// The wrapped element.
    pub element: Box<Element>,
    /// True until the first chunk has been rendered.
    pub is_first: bool,
    /// The style of the frame lines.
    pub line_style: LineStyle,
}

/// Reserves a fixed left indent, renders the wrapped element into the
/// indented area, and prints the bullet label once, right-aligned against
/// the indent gap.
pub struct BulletPoint {
    /// The wrapped element.
    pub element: Box<Element>,
    /// The width of the reserved indent.
    pub indent: Mm,
    /// The gap between the bullet label and the indented content.
    pub bullet_space: Mm,
    /// The bullet label.
    pub bullet: String,
    /// True once the bullet label has been printed.
    pub bullet_rendered: bool,
}

/// An unordered list: every pushed element is wrapped in a bullet point
/// with a shared bullet symbol.
pub struct UnorderedList {
    /// The bullet points, stacked vertically.
    pub layout: LinearLayout,
    /// The bullet symbol, or the default one.
    pub bullet: Option<String>,
}

/// An ordered list: every pushed element is wrapped in a bullet point
/// labeled with an auto-incrementing number followed by a dot.
pub struct OrderedList {
    /// The bullet points, stacked vertically.
    pub layout: LinearLayout,
    /// The number the next pushed element is labeled with.
    pub number: usize,
}

impl IntoBoxedElement for Element {
    open spec fn as_element(self) -> Element {
        self
    }

    fn into_boxed_element(self) -> (r: Box<Element>) {
        Box::new(self)
    }
}

impl IntoBoxedElement for LinearLayout {
    open spec fn as_element(self) -> Element {
        Element::Linear(self)
    }

    fn into_boxed_element(self) -> (r: Box<Element>) {
        Box::new(Element::Linear(self))
    }
}

impl IntoBoxedElement for Text {
    open spec fn as_element(self) -> Element {
        Element::Plain(self)
    }

    fn into_boxed_element(self) -> (r: Box<Element>) {
        Box::new(Element::Plain(self))
    }
}

impl IntoBoxedElement for Paragraph {
    open spec fn as_element(self) -> Element {
        Element::Paragraph(self)
    }

    fn into_boxed_element(self) -> (r: Box<Element>) {
        Box::new(Element::Paragraph(self))
    }
}

impl IntoBoxedElement for Break {
    open spec fn as_element(self) -> Element {
        Element::Break(self)
    }

    fn into_boxed_element(self) -> (r: Box<Element>) {
        Box::new(Element::Break(self))
    }
}

impl IntoBoxedElement for PageBreak {
    open spec fn as_element(self) -> Element {
        Element::PageBreak(self)
    }

    fn into_boxed_element(self) -> (r: Box<Element>) {
        Box::new(Element::PageBreak(self))
    }
}

impl IntoBoxedElement for PaddedElement {
    open spec fn as_element(self) -> Element {
        Element::Padded(self)
    }

    fn into_boxed_element(self) -> (r: Box<Element>) {
        Box::new(Element::Padded(self))
    }
}

impl IntoBoxedElement for StyledElement {
    open spec fn as_element(self) -> Element {
        Element::Styled(self)
    }

    fn into_boxed_element(self) -> (r: Box<Element>) {
        Box::new(Element::Styled(self))
    }
}

impl IntoBoxedElement for FramedElement {
    open spec fn as_element(self) -> Element {
        Element::Framed(self)
    }

    fn into_boxed_element(self) -> (r: Box<Element>) {
        Box::new(Element::Framed(self))
    }
}

impl IntoBoxedElement for BulletPoint {
    open spec fn as_element(self) -> Element {
        Element::Bullet(self)
    }

    fn into_boxed_element(self) -> (r: Box<Element>) {
        Box::new(Element::Bullet(self))
    }
}

impl IntoBoxedElement for UnorderedList {
    open spec fn as_element(self) -> Element {
        Element::Unordered(self)
    }

    fn into_boxed_element(self) -> (r: Box<Element>) {
        Box::new(Element::Unordered(self))
    }
}

impl IntoBoxedElement for OrderedList {
    open spec fn as_element(self) -> Element {
        Element::Ordered(self)
    }

    fn into_boxed_element(self) -> (r: Box<Element>) {
        Box::new(Element::Ordered(self))
    }
}

impl LinearLayout {
    /// Creates an empty vertical layout.
    pub fn vertical() -> (r: LinearLayout)
        ensures
            r.elements@.len() == 0,
            r.render_idx == 0,
            Element::Linear(r).wf(),
    {
        LinearLayout { elements: Vec::new(), render_idx: 0 }
    }

    /// Appends an element to this layout.
    pub fn push<E: IntoBoxedElement>(&mut self, element: E)
        ensures
            final(self).elements@.len() == old(self).elements@.len() + 1,
            forall|i: int|
                0 <= i < old(self).elements@.len() ==> final(self).elements@[i] == old(self).elements@[i],
            final(self).render_idx == old(self).render_idx,
            *final(self).elements@.last() == element.as_element(),
            (Element::Linear(*old(self)).wf() && element.as_element().wf()) ==> Element::Linear(
                *final(self),
            ).wf(),
    {
        self.elements.push(element.into_boxed_element());
    }

    /// Appends an element and returns the layout.
    pub fn element<E: IntoBoxedElement>(self, element: E) -> (r: LinearLayout)
        ensures
            r.elements@.len() == self.elements@.len() + 1,
            forall|i: int|
                0 <= i < self.elements@.len() ==> r.elements@[i] == self.elements@[i],
            r.render_idx == self.render_idx,
            *r.elements@.last() == element.as_element(),
            (Element::Linear(self).wf() && element.as_element().wf()) ==> Element::Linear(r).wf(),
    {
        let mut this = self;
        this.push(element);
        this
    }

    /// Renders the elements in order into the shrinking area, stopping as
    /// soon as a child reports that content remains or the area's height is
    /// exhausted.  The consumed sizes stack vertically: the width is the
    /// maximum and the height the sum of the children's sizes.
    pub fn render_vertical(
        &mut self,
        context: &Context,
        area: Area,
        style: Style,
        ops: &mut Vec<Op>,
    ) -> (r: Result<RenderResult, Error>)
        requires
            Element::Linear(*old(self)).wf(),
            area.size.width.0 <= MAX_AREA_UM,
        ensures
            Element::Linear(*final(self)).wf(),
            ops_extended(old(ops)@, final(ops)@),
            final(self).elements@.len() == old(self).elements@.len(),
            old(self).render_idx <= final(self).render_idx <= final(self).elements@.len(),
            (r matches Ok(res) ==> (res.has_more <==> final(self).render_idx < final(self).elements@.len())),
            (r matches Ok(res) && !res.has_more) ==> elements_pending(
                final(self).elements@,
                final(self).render_idx as int,
            ) == Seq::<char>::empty(),
            forall|j: int|
                0 <= j < old(self).render_idx ==> final(self).elements@[j] == old(self).elements@[j],
            forall|j: int|
                final(self).render_idx < j < final(self).elements@.len() ==> final(self).elements@[j] == old(self).elements@[j],
        decreases *old(self),
    {
        let ghost self0 = *self;
        proof {
            crate::render::lemma_ops_extended_refl(ops@);
        }
        let mut cur = area;
        let mut result = RenderResult::new();
        let n = self.elements.len();
        while cur.size.height.0 > 0 && self.render_idx < n
            invariant
                self0 == *old(self),
                n == self.elements@.len(),
                n == self0.elements@.len(),
                self0.render_idx <= self.render_idx <= n,
                cur.size.width == area.size.width,
                area.size.width.0 <= MAX_AREA_UM,
                forall|i: int|
                    0 <= i < n ==> (#[trigger] self.elements@[i]).wf(),
                forall|j: int|
                    0 <= j < self.render_idx ==> (*(#[trigger] self.elements@[j])).spec_pending()
                        == Seq::<char>::empty(),
                forall|j: int|
                    self.render_idx <= j < n ==> self.elements@[j] == self0.elements@[j],
                forall|j: int|
                    0 <= j < self0.render_idx ==> self.elements@[j] == self0.elements@[j],
                ops_extended(old(ops)@, ops@),
                !result.has_more,
            decreases n - self.render_idx,
        {
            let ghost ops_pre = ops@;
            let idx = self.render_idx;
            proof {
                assert(self.elements@[idx as int] == self0.elements@[idx as int]);
                assert(decreases_to!(self0 => self0.elements));
                assert(decreases_to!(self0.elements => self0.elements@[idx as int]));
            }
            let child: &mut Box<Element> = &mut self.elements[idx];
            let child_result = match child.render(context, cur, style, ops) {
                Ok(res) => res,
                Err(e) => {
                    proof {
                        crate::render::lemma_ops_extended_trans(old(ops)@, ops_pre, ops@);
                    }
                    return Err(e);
                },
            };
            proof {
                crate::render::lemma_ops_extended_trans(old(ops)@, ops_pre, ops@);
            }
            cur.add_offset(Position::new(Mm(0), child_result.size.height));
            result.size = result.size.stack_vertical(child_result.size);
            if child_result.has_more {
                result.has_more = true;
                return Ok(result);
            }
            self.render_idx = idx + 1;
        }
        result.has_more = self.render_idx < n;
        Ok(result)
    }
}

impl Text {
    /// Creates a text element from a styled string.
    pub fn new(text: StyledString) -> (r: Text)
        requires
            text.s@.len() <= MAX_TEXT_CHARS,
        ensures
            r.text == text,
            Element::Plain(r).wf(),
    {
        Text { text }
    }

    /// Prints the line if a line of its height fits the area; otherwise
    /// reports that the content remains.
    pub fn render(
        &mut self,
        context: &Context,
        area: Area,
        style: Style,
        ops: &mut Vec<Op>,
    ) -> (r: Result<RenderResult, Error>)
        requires
            Element::Plain(*old(self)).wf(),
        ensures
            Element::Plain(*final(self)).wf(),
            *final(self) == *old(self),
            ops_extended(old(ops)@, final(ops)@),
            (r matches Ok(res) ==> {
                let merged = crate::style::spec_merge(style, old(self).text.style);
                let fits = area.spec_fits_line(
                    0,
                    context.font_cache.spec_line_height(merged.effective_font_size() as int),
                );
                &&& res.has_more == !fits
                &&& (fits ==> final(ops)@.len() == old(ops)@.len() + 1 && ops_text(final(ops)@)
                    == ops_text(old(ops)@) + old(self).text.s@)
                &&& (fits ==> res.size.width.0 == context.font_cache.spec_str_width(
                    old(self).text.s@,
                    merged.effective_font_size() as int,
                ) && res.size.height.0 == context.font_cache.spec_line_height(
                    merged.effective_font_size() as int,
                ))
                &&& (!fits ==> final(ops)@ == old(ops)@ && res.size.width.0 == 0
                    && res.size.height.0 == 0)
            }),
            r is Ok,
    {
        let mut result = RenderResult::new();
        let mut merged = style;
        merged.merge(self.text.style);
        if area.print_str(ops, &context.font_cache, Position::origin(), merged, self.text.s.as_str())
         {
            result.size = Size::new(
                merged.str_width(&context.font_cache, self.text.s.as_str()),
                merged.line_height(&context.font_cache),
            );
            proof {
                assert(ops@.take(old(ops)@.len() as int) =~= ops@.drop_last());
            }
        } else {
            result.has_more = true;
            proof {
                crate::render::lemma_ops_extended_refl(ops@);
            }
        }
        Ok(result)
    }
}

impl Break {
    /// Creates a break of the given number of lines.
    pub fn new(lines: u32) -> (r: Break)
        requires
            lines <= 1_000_000,
        ensures
            r.milli_lines == lines * 1000,
            Element::Break(r).wf(),
    {
        Break { milli_lines: (lines as i64) * 1000 }
    }

    /// Consumes vertical space worth the remaining number of lines, or as
    /// much of the area as is left, reducing the remaining lines
    /// accordingly.
    pub fn render(
        &mut self,
        context: &Context,
        area: Area,
        style: Style,
        ops: &mut Vec<Op>,
    ) -> (r: Result<RenderResult, Error>)
        requires
            Element::Break(*old(self)).wf(),
        ensures
            Element::Break(*final(self)).wf(),
            final(ops)@ == old(ops)@,
            ops_extended(old(ops)@, final(ops)@),
            (r matches Ok(res) ==> !res.has_more),
            r is Ok,
    {
        proof {
            crate::render::lemma_ops_extended_refl(ops@);
        }
        let mut result = RenderResult::new();
        if self.milli_lines <= 0 {
            return Ok(result);
        }
        let line_height = style.line_height(&context.font_cache);
        // line_height <= MAX_CHAR_WIDTH_UM and milli_lines <= 10^9, so the
        // product stays far from the end of the i64 range.
        proof {
            assert(line_height.0 * self.milli_lines <= 5_895_419 * 1_000_000_000int)
                by (nonlinear_arith)
                requires
                    0 <= line_height.0 <= 5_895_419,
                    0 <= self.milli_lines <= 1_000_000_000,
            ;
            vstd::arithmetic::div_mod::lemma_div_is_ordered(
                0,
                line_height.0 * self.milli_lines,
                1000,
            );
            vstd::arithmetic::div_mod::lemma_div_is_ordered(
                line_height.0 * self.milli_lines,
                5_895_419 * 1_000_000_000int,
                1000,
            );
        }
        let break_height = line_height.0 * self.milli_lines / 1000;
        if break_height < area.size.height.0 {
            result.size = Size::new(Mm(0), Mm(break_height));
            self.milli_lines = 0;
        } else {
            let consumed = if area.size.height.0 >= 0 {
                area.size.height.0
            } else {
                0
            };
            result.size = Size::new(Mm(0), Mm(consumed));
            if line_height.0 > 0 {
                let used = consumed * 1000 / line_height.0;
                proof {
                    vstd::arithmetic::div_mod::lemma_div_is_ordered(
                        0,
                        consumed * 1000,
                        line_height.0 as int,
                    );
                    // consumed <= break_height = lh * ml / 1000, so
                    // consumed * 1000 / lh <= ml.
                    vstd::arithmetic::div_mod::lemma_fundamental_div_mod(
                        line_height.0 * self.milli_lines,
                        1000,
                    );
                    assert(consumed * 1000 <= line_height.0 * self.milli_lines) by (nonlinear_arith)
                        requires
                            consumed <= (line_height.0 * self.milli_lines) / 1000,
                            line_height.0 * self.milli_lines == 1000 * ((line_height.0
                                * self.milli_lines) / 1000) + (line_height.0 * self.milli_lines)
                                % 1000,
                            0 <= (line_height.0 * self.milli_lines) % 1000 < 1000,
                            0 <= consumed,
                    ;
                    vstd::arithmetic::div_mod::lemma_div_is_ordered(
                        consumed * 1000,
                        line_height.0 * self.milli_lines,
                        line_height.0 as int,
                    );
                    vstd::arithmetic::div_mod::lemma_div_multiples_vanish(
                        self.milli_lines as int,
                        line_height.0 as int,
                    );
                    assert(line_height.0 * self.milli_lines == self.milli_lines * line_height.0)
                        by (nonlinear_arith);
                }
                self.milli_lines = self.milli_lines - used;
            } else {
                self.milli_lines = 0;
            }
        }
        Ok(result)
    }
}

impl PageBreak {
    /// Creates a page break.
    pub fn new() -> (r: PageBreak)
        ensures
            !r.cont,
    {
        PageBreak { cont: false }
    }

    /// Asks for a fresh area once; afterwards does nothing.  The first call
    /// reports a minimal non-empty size so that a render driver does not
    /// mistake it for an element that failed to make progress.
    pub fn render(
        &mut self,
        _context: &Context,
        _area: Area,
        _style: Style,
        ops: &mut Vec<Op>,
    ) -> (r: Result<RenderResult, Error>)
        ensures
            final(ops)@ == old(ops)@,
            ops_extended(old(ops)@, final(ops)@),
            final(self).cont,
            (r matches Ok(res) ==> (res.has_more == !old(self).cont)),
            r is Ok,
    {
        proof {
            crate::render::lemma_ops_extended_refl(ops@);
        }
        if self.cont {
            Ok(RenderResult::new())
        } else {
            self.cont = true;
            Ok(
                RenderResult {
                    size: Size::new(Mm(1), Mm(0)),
                    has_more: true,
                },
            )
        }
    }
}


/// The largest width a single line can reach, in thousandths of a
/// millimeter: the widest area plus one word of the largest width.
pub const MAX_LINE_WIDTH_UM: i64 = 1_000_000_000_000_000;

/// The horizontal offset of a line under an alignment: zero for left and
/// justified lines, half the leftover width for centered lines, the whole
/// leftover width for right-aligned lines.  A line wider than the available
/// width is shifted left.
pub open spec fn spec_offset(alignment: Alignment, width: int, max_width: int) -> int {
    match alignment {
        Alignment::Left => 0,
        Alignment::Justified(_) => 0,
        Alignment::Center => if width <= max_width {
            (max_width - width) / 2
        } else {
            -((width - max_width) / 2)
        },
        Alignment::Right => max_width - width,
    }
}

/// The horizontal offset of a box of the given width within the given
/// available width, under an alignment.
pub fn alignment_offset(alignment: Alignment, width: Mm, max_width: Mm) -> (r: Mm)
    requires
        0 <= width.0 <= MAX_LINE_WIDTH_UM,
        -MAX_AREA_UM <= max_width.0 <= MAX_AREA_UM,
    ensures
        r.0 == spec_offset(alignment, width.0 as int, max_width.0 as int),
        -2 * MAX_LINE_WIDTH_UM <= r.0 <= 2 * MAX_LINE_WIDTH_UM,
{
    match alignment {
        Alignment::Left => Mm(0),
        Alignment::Justified(_) => Mm(0),
        Alignment::Center => if width.0 <= max_width.0 {
            Mm((max_width.0 - width.0) / 2)
        } else {
            Mm(-((width.0 - max_width.0) / 2))
        },
        Alignment::Right => Mm(max_width.0 - width.0),
    }
}

/// A wrapped and aligned paragraph of styled text runs.
///
/// On the first render call the pending runs are merged with the inherited
/// style and split into a queue of styled words; each call lays out greedy
/// lines from the queue until the area's height is exhausted, and a cursor
/// remembers where to resume.  The characters drawn across all calls are
/// exactly the characters of the original runs, in order: none is dropped
/// and none is drawn twice.
pub struct Paragraph {
    /// Text runs not yet tokenized into words.
    pub text: Vec<StyledString>,
    /// The queue of styled words, split from the runs.
    pub words: Vec<StyledString>,
    /// Index of the first word that has not been drawn yet.
    pub word_idx: usize,
    /// The paragraph's alignment.
    pub alignment: Alignment,
}

impl Paragraph {
    /// Well-formedness: all stored runs are short enough for exact width
    /// arithmetic, the cursor is in range, and every queued word is
    /// non-empty.
    pub open spec fn wf(self) -> bool {
        &&& wf_words(self.text@)
        &&& wf_words(self.words@)
        &&& self.word_idx <= self.words@.len()
        &&& (forall|i: int|
            0 <= i < self.words@.len() ==> (#[trigger] self.words@[i]).s@.len() >= 1)
    }

    /// The characters that have not been drawn yet: the words at and after
    /// the cursor, followed by the runs not yet tokenized.
    pub open spec fn spec_pending(self) -> Seq<char> {
        words_chars(self.words@.skip(self.word_idx as int)) + words_chars(self.text@)
    }

    /// The paragraph's alignment.
    pub open spec fn spec_alignment(self) -> Alignment {
        self.alignment
    }

    /// Creates a paragraph with one initial text run.
    pub fn new(text: StyledString) -> (r: Paragraph)
        requires
            text.s@.len() <= MAX_TEXT_CHARS,
        ensures
            r.wf(),
            r.spec_pending() == text.s@,
            r.spec_alignment() == Alignment::Left,
    {
        let mut v: Vec<StyledString> = Vec::new();
        v.push(text);
        let r = Paragraph { text: v, words: Vec::new(), word_idx: 0, alignment: Alignment::Left };
        proof {
            assert(r.words@.skip(0) =~= Seq::<StyledString>::empty());
            assert(words_chars(Seq::<StyledString>::empty()) =~= Seq::<char>::empty());
            assert(r.text@.drop_first() =~= Seq::<StyledString>::empty());
            assert(r.spec_pending() =~= text.s@);
        }
        r
    }

    /// Creates an empty paragraph.
    pub fn empty() -> (r: Paragraph)
        ensures
            r.wf(),
            r.spec_pending() == Seq::<char>::empty(),
            r.spec_alignment() == Alignment::Left,
    {
        let r = Paragraph {
            text: Vec::new(),
            words: Vec::new(),
            word_idx: 0,
            alignment: Alignment::Left,
        };
        proof {
            assert(r.words@.skip(0) =~= Seq::<StyledString>::empty());
            assert(words_chars(Seq::<StyledString>::empty()) =~= Seq::<char>::empty());
            assert(r.spec_pending() =~= Seq::<char>::empty());
        }
        r
    }

    /// Sets the alignment.
    pub fn set_alignment(&mut self, alignment: Alignment)
        ensures
            *final(self) == (Paragraph { alignment, ..*old(self) }),
    {
        self.alignment = alignment;
    }

    /// Sets the alignment and returns the paragraph.
    pub fn aligned(self, alignment: Alignment) -> (r: Paragraph)
        ensures
            r == (Paragraph { alignment, ..self }),
    {
        let mut this = self;
        this.set_alignment(alignment);
        this
    }

    /// Appends a text run.
    pub fn push(&mut self, s: StyledString)
        requires
            s.s@.len() <= MAX_TEXT_CHARS,
        ensures
            old(self).wf() ==> final(self).wf(),
            final(self).spec_pending() == old(self).spec_pending() + s.s@,
            final(self).text@ == old(self).text@.push(s),
            final(self).alignment == old(self).alignment,
            final(self).words == old(self).words,
            final(self).word_idx == old(self).word_idx,
    {
        let ghost pre = self.text@;
        self.text.push(s);
        proof {
            lemma_words_chars_push(pre, s);
            assert(self.spec_pending() =~= old(self).spec_pending() + s.s@);
        }
    }

    /// Appends a text run and returns the paragraph.
    pub fn string(self, s: StyledString) -> (r: Paragraph)
        requires
            s.s@.len() <= MAX_TEXT_CHARS,
        ensures
            self.wf() ==> r.wf(),
            r.spec_pending() == self.spec_pending() + s.s@,
            r.spec_alignment() == self.alignment,
    {
        let mut this = self;
        this.push(s);
        this
    }

    /// Appends a text run built from a string and a style.
    pub fn push_styled(&mut self, s: String, style: Style)
        requires
            s@.len() <= MAX_TEXT_CHARS,
        ensures
            old(self).wf() ==> final(self).wf(),
            final(self).spec_pending() == old(self).spec_pending() + s@,
            final(self).alignment == old(self).alignment,
    {
        self.push(StyledString::new(s, style));
    }

    /// Appends a text run built from a string and a style and returns the
    /// paragraph.
    pub fn styled_string(self, s: String, style: Style) -> (r: Paragraph)
        requires
            s@.len() <= MAX_TEXT_CHARS,
        ensures
            self.wf() ==> r.wf(),
            r.spec_pending() == self.spec_pending() + s@,
            r.spec_alignment() == self.alignment,
    {
        let mut this = self;
        this.push_styled(s, style);
        this
    }

    /// Appends a text run if the given check approves of the runs pushed so
    /// far.
    pub fn push_if_text<F: Fn(&Vec<StyledString>) -> bool>(&mut self, s: StyledString, check: F)
        requires
            s.s@.len() <= MAX_TEXT_CHARS,
            forall|v: &Vec<StyledString>| #[trigger] check.requires((v,)),
        ensures
            old(self).wf() ==> final(self).wf(),
            final(self).alignment == old(self).alignment,
            (exists|approved: bool|
                #[trigger] check.ensures((&old(self).text,), approved) && (if approved {
                    final(self).spec_pending() == old(self).spec_pending() + s.s@
                        && final(self).text@ == old(self).text@.push(s)
                } else {
                    *final(self) == *old(self)
                })),
    {
        let approved = check(&self.text);
        proof {
            assert(check.ensures((&old(self).text,), approved));
        }
        if approved {
            self.push(s);
        }
    }

    /// The horizontal offset of a line of the given width within the given
    /// available width, under this paragraph's alignment.
    fn get_offset(&self, width: Mm, max_width: Mm) -> (r: Mm)
        requires
            0 <= width.0 <= MAX_LINE_WIDTH_UM,
            -MAX_AREA_UM <= max_width.0 <= MAX_AREA_UM,
        ensures
            r.0 == spec_offset(self.alignment, width.0 as int, max_width.0 as int),
            -2 * MAX_LINE_WIDTH_UM <= r.0 <= 2 * MAX_LINE_WIDTH_UM,
    {
        alignment_offset(self.alignment, width, max_width)
    }
}


impl Paragraph {
    /// Lays out greedy lines from the word queue into the area until the
    /// queue or the area's height is exhausted.  Pending runs are first
    /// merged with the inherited style and tokenized into the queue.  The
    /// characters drawn, appended to the characters still pending, are
    /// exactly the characters that were pending before the call: rendering
    /// a paragraph to completion draws its text exactly once.  A word wider
    /// than the available width is placed alone on its line, and the call
    /// then fails with a page-overflow error.
    #[verifier::rlimit(60)]
    pub fn render(
        &mut self,
        context: &Context,
        area: Area,
        style: Style,
        ops: &mut Vec<Op>,
    ) -> (r: Result<RenderResult, Error>)
        requires
            old(self).wf(),
            area.size.width.0 <= MAX_AREA_UM,
        ensures
            final(self).wf(),
            ops_extended(old(ops)@, final(ops)@),
            final(self).spec_alignment() == old(self).spec_alignment(),
            final(self).text@.len() == 0,
            ops_text(old(ops)@) + old(self).spec_pending() == ops_text(final(ops)@) + final(self).spec_pending(),
            (r matches Ok(res) ==> (res.has_more <==> final(self).spec_pending().len() > 0)),
            (r matches Ok(res) && !res.has_more) ==> final(self).spec_pending() == Seq::<
                char,
            >::empty(),
            (r matches Ok(res) ==> 0 <= res.size.height.0 <= (if area.size.height.0 >= 0 {
                area.size.height.0 as int
            } else {
                0
            }) && 0 <= res.size.width.0 <= MAX_LINE_WIDTH_UM),
            (r matches Err(e) ==> e.kind == ErrorKind::PageSizeExceeded && final(self).word_idx
                >= 1 && spec_word_width(
                context.font_cache,
                final(self).words@[final(self).word_idx - 1],
            ) > area.size.width.0),
            (old(self).word_idx < final(self).words@.len() && -MAX_AREA_UM
                <= area.size.width.0) ==> {
                let ws = final(self).words@;
                let idx0 = old(self).word_idx as int;
                let e0 = spec_line_end(
                    context.font_cache,
                    ws,
                    idx0,
                    area.size.width.0 as int,
                    idx0 + 1,
                );
                let w0 = words_width_sum(context.font_cache, ws, idx0, e0);
                let m0 = words_metrics(context.font_cache, ws, idx0, e0);
                &&& (m0.line_height.0 > area.size.height.0 ==> final(ops)@ == old(ops)@ && final(self).word_idx == old(self).word_idx)
                &&& (m0.line_height.0 <= area.size.height.0 ==> final(self).word_idx >= e0
                    && final(ops)@.len() > old(ops)@.len() && (final(ops)@[old(ops)@.len() as int] matches Op::Text { position: p, text: t, .. } && t@ == ws[idx0].s@
                    && p == spec_shift(
                    area.origin,
                    Position {
                        x: Mm(
                            spec_offset(
                                old(self).spec_alignment(),
                                w0,
                                area.size.width.0 as int,
                            ) as i64,
                        ),
                        y: Mm(0),
                    },
                )))
                &&& (m0.line_height.0 <= area.size.height.0 && w0 > area.size.width.0 ==> r is Err)
                &&& (m0.line_height.0 <= area.size.height.0 && w0 <= area.size.width.0 && e0
                    == ws.len() ==> (r matches Ok(res) && !res.has_more && res.size.height.0
                    == m0.line_height.0 && res.size.width.0 == w0))
            },
    {
        let ghost ops0 = ops@;
        let ghost pending0 = old(self).spec_pending();
        let cache = &context.font_cache;
        // Merge the inherited style into the pending runs and move them
        // into the word queue.
        if self.text.len() > 0 {
            let n = self.text.len();
            let ghost text0 = self.text@;
            let mut j: usize = 0;
            while j < n
                invariant
                    0 <= j <= n,
                    n == self.text@.len(),
                    text0.len() == n,
                    forall|i: int| 0 <= i < n ==> (#[trigger] self.text@[i]).s@ == text0[i].s@,
                    self.words == old(self).words,
                    self.word_idx == old(self).word_idx,
                    self.alignment == old(self).alignment,
                    old(self).wf(),
                    wf_words(self.text@),
                decreases n - j,
            {
                let st = self.text[j].style;
                let sv = self.text[j].s.clone();
                let merged = style.and(st);
                self.text[j] = StyledString::new(sv, merged);
                j = j + 1;
            }
            proof {
                lemma_words_chars_congruent(self.text@, text0);
            }
            let mut taken: Vec<StyledString> = Vec::new();
            core::mem::swap(&mut taken, &mut self.text);
            let mut fresh = split_words(&taken);
            let ghost words_pre = self.words@;
            let ghost fresh_v = fresh@;
            self.words.append(&mut fresh);
            proof {
                assert(self.words@.skip(self.word_idx as int) =~= words_pre.skip(
                    self.word_idx as int,
                ) + fresh_v);
                lemma_words_chars_concat(
                    words_pre.skip(self.word_idx as int),
                    fresh_v,
                );
                assert(self.spec_pending() =~= (words_chars(words_pre.skip(self.word_idx as int))
                    + words_chars(text0)) + Seq::<char>::empty());
                assert(self.spec_pending() =~= pending0);
            }
        }
        proof {
            assert(self.text@.len() == 0);
            assert(words_chars(self.text@) =~= Seq::<char>::empty());
            assert(self.spec_pending() =~= words_chars(self.words@.skip(self.word_idx as int)));
        }
        // Lay out greedy lines until the queue or the height is exhausted.
        let avail = area.size.width;
        let len = self.words.len();
        let ghost ws = self.words@;
        let ghost idx1 = self.word_idx;
        proof {
            crate::render::lemma_ops_extended_refl(ops@);
        }
        let mut result = RenderResult::new();
        let mut y: i64 = 0;
        let mut done = false;
        while !done && self.word_idx < len
            invariant
                cache == &context.font_cache,
                ops0 == old(ops)@,
                pending0 == old(self).spec_pending(),
                idx1 == old(self).word_idx,
                old(self).text@.len() == 0 ==> ws == old(self).words@,
                self.wf(),
                self.text@.len() == 0,
                self.words@ == ws,
                len == ws.len(),
                self.alignment == old(self).alignment,
                idx1 <= self.word_idx <= len,
                avail == area.size.width,
                avail.0 <= MAX_AREA_UM,
                ops_extended(ops0, ops@),
                ops_text(ops0) + pending0 == ops_text(ops@) + words_chars(
                    ws.skip(self.word_idx as int),
                ),
                0 <= y,
                result.size.height.0 == y,
                y <= (if area.size.height.0 >= 0 {
                    area.size.height.0 as int
                } else {
                    0
                }),
                0 <= result.size.width.0 <= MAX_LINE_WIDTH_UM,
                self.word_idx == idx1 ==> ops@ == ops0 && y == 0 && result.size.width.0 == 0,
                done ==> self.word_idx < len,
                done && self.word_idx == idx1 ==> words_metrics(
                    *cache,
                    ws,
                    idx1 as int,
                    spec_line_end(*cache, ws, idx1 as int, avail.0 as int, idx1 + 1),
                ).line_height.0 > area.size.height.0,
                (self.word_idx > idx1 && -MAX_AREA_UM <= avail.0) ==> {
                    let e0 = spec_line_end(*cache, ws, idx1 as int, avail.0 as int, idx1 + 1);
                    let w0 = words_width_sum(*cache, ws, idx1 as int, e0);
                    &&& self.word_idx >= e0
                    &&& ops@.len() > ops0.len()
                    &&& w0 <= avail.0
                    &&& words_metrics(*cache, ws, idx1 as int, e0).line_height.0
                        <= area.size.height.0
                    &&& (e0 == ws.len() ==> result.size.height.0 == words_metrics(
                        *cache,
                        ws,
                        idx1 as int,
                        e0,
                    ).line_height.0 && result.size.width.0 == w0)
                    &&& (ops@[ops0.len() as int] matches Op::Text { position: p, text: t, .. }
                        && t@ == ws[idx1 as int].s@ && p == spec_shift(
                        area.origin,
                        Position {
                            x: Mm(
                                spec_offset(self.alignment, w0, avail.0 as int) as i64,
                            ),
                            y: Mm(0),
                        },
                    ))
                },
                !result.has_more,
            decreases len - self.word_idx, (if done { 0int } else { 1int }),
        {
            let idx = self.word_idx;
            let lb = take_line(&self.words, idx, cache, avail);
            if !area.fits_line(Position::new(Mm(0), Mm(y)), lb.metrics.line_height) {
                done = true;
            } else {
                proof {
                    crate::wrap::lemma_words_width_nonneg(*cache, ws, idx as int, lb.end as int);
                    assert((MAX_TEXT_CHARS as i64) * MAX_CHAR_WIDTH_UM
                        < MAX_LINE_WIDTH_UM - MAX_AREA_UM);
                }
                let x0: Mm = if avail.0 >= -MAX_AREA_UM {
                    self.get_offset(lb.width, avail)
                } else {
                    Mm(0)
                };
                // Extra spacing per inter-word gap for justified lines that
                // are not the paragraph's last line.
                let count = lb.end - idx;
                let mut extra: i64 = 0;
                if let Alignment::Justified(trim) = self.alignment {
                    if lb.end < len && count >= 2 && count <= 1_000_000_000 {
                        let lead = leading_space_width(cache, &self.words[idx]);
                        let trail = if trim {
                            trailing_space_width(cache, &self.words[lb.end - 1])
                        } else {
                            Mm(0)
                        };
                        let wprime = lb.width.0 - lead.0 - trail.0;
                        let gap = avail.0 - wprime;
                        proof {
                            assert(wprime <= avail.0);
                            vstd::arithmetic::div_mod::lemma_div_is_ordered(
                                0,
                                gap as int,
                                count - 1,
                            );
                        }
                        extra = gap / ((count - 1) as i64);
                        proof {
                            lemma_justified_spacing(avail.0 as int, wprime as int, count as int);
                        }
                    }
                }
                let ghost gap_bound: int = 2_000_000_000_000_000;
                proof {
                    if extra > 0 {
                        vstd::arithmetic::mul::lemma_mul_inequality(
                            1,
                            lb.end - idx - 1,
                            extra as int,
                        );
                    }
                    assert(0 <= (lb.end - idx) * (extra as int) <= 3 * gap_bound) by (nonlinear_arith)
                        requires
                            0 <= extra <= gap_bound,
                            1 <= lb.end - idx,
                            extra > 0 ==> (lb.end - idx - 1) * (extra as int) <= gap_bound,
                    ;
                }
                let mut x: i64 = x0.0;
                let mut k: usize = idx;
                proof {
                    assert(words_width_sum(*cache, ws, idx as int, idx as int) == 0);
                    assert((idx - idx) * (extra as int) == 0) by (nonlinear_arith);
                }
                while k < lb.end
                    invariant
                        cache == &context.font_cache,
                        ops0 == old(ops)@,
                        pending0 == old(self).spec_pending(),
                        idx1 == old(self).word_idx,
                        old(self).text@.len() == 0 ==> ws == old(self).words@,
                        idx <= k <= lb.end,
                        idx < lb.end <= len,
                        len == ws.len(),
                        self.wf(),
                        self.words@ == ws,
                        self.text@.len() == 0,
                        self.word_idx == idx,
                        self.alignment == old(self).alignment,
                        avail == area.size.width,
                        avail.0 <= MAX_AREA_UM,
                        lb.width.0 == words_width_sum(*cache, ws, idx as int, lb.end as int),
                        0 <= lb.width.0 <= MAX_LINE_WIDTH_UM,
                        0 <= lb.metrics.glyph_height.0 <= MAX_CHAR_WIDTH_UM,
                        0 <= lb.metrics.line_height.0 <= MAX_CHAR_WIDTH_UM,
                        lb.end == spec_line_end(*cache, ws, idx as int, avail.0 as int, idx + 1),
                        lb.metrics == words_metrics(*cache, ws, idx as int, lb.end as int),
                        lb.end > idx + 1 ==> lb.width.0 <= avail.0,
                        0 <= y,
                        y + lb.metrics.line_height.0 <= area.size.height.0,
                        idx == idx1 ==> y == 0,
                        -MAX_AREA_UM <= avail.0 ==> x0.0 == spec_offset(
                            self.alignment,
                            lb.width.0 as int,
                            avail.0 as int,
                        ),
                        -2 * MAX_LINE_WIDTH_UM <= x0.0 <= 2 * MAX_LINE_WIDTH_UM,
                        0 <= extra <= 2_000_000_000_000_000,
                        (lb.end - idx) * (extra as int) <= 6_000_000_000_000_000,
                        x == x0.0 + words_width_sum(*cache, ws, idx as int, k as int) + (k - idx)
                            * (extra as int),
                        0 <= y,
                        ops_extended(ops0, ops@),
                        ops_text(ops0) + pending0 == ops_text(ops@) + words_chars(
                            ws.skip(k as int),
                        ),
                        idx == idx1 ==> y == 0,
                        idx == idx1 && k == idx ==> ops@ == ops0,
                        (idx == idx1 && k > idx && -MAX_AREA_UM <= avail.0) ==> ops@.len()
                            > ops0.len() && (ops@[ops0.len() as int] matches Op::Text {
                            position: p,
                            text: t,
                            ..
                        } && t@ == ws[idx1 as int].s@ && p == spec_shift(
                            area.origin,
                            Position {
                                x: Mm(
                                    spec_offset(
                                        self.alignment,
                                        words_width_sum(*cache, ws, idx as int, lb.end as int),
                                        avail.0 as int,
                                    ) as i64,
                                ),
                                y: Mm(0),
                            },
                        )),
                        (idx > idx1 && -MAX_AREA_UM <= avail.0) ==> {
                            let e0 = spec_line_end(
                                *cache,
                                ws,
                                idx1 as int,
                                avail.0 as int,
                                idx1 + 1,
                            );
                            let w0 = words_width_sum(*cache, ws, idx1 as int, e0);
                            &&& idx >= e0
                            &&& ops@.len() > ops0.len()
                            &&& w0 <= avail.0
                            &&& words_metrics(*cache, ws, idx1 as int, e0).line_height.0
                                <= area.size.height.0
                            &&& (ops@[ops0.len() as int] matches Op::Text {
                                position: p,
                                text: t,
                                ..
                            } && t@ == ws[idx1 as int].s@ && p == spec_shift(
                                area.origin,
                                Position {
                                    x: Mm(
                                        spec_offset(self.alignment, w0, avail.0 as int) as i64,
                                    ),
                                    y: Mm(0),
                                },
                            ))
                        },
                    decreases lb.end - k,
                {
                    proof {
                        crate::wrap::lemma_words_width_range_split(
                            *cache,
                            ws,
                            idx as int,
                            k as int,
                            lb.end as int,
                        );
                        crate::wrap::lemma_words_width_nonneg(
                            *cache,
                            ws,
                            idx as int,
                            k as int,
                        );
                        crate::wrap::lemma_words_width_nonneg(
                            *cache,
                            ws,
                            k as int,
                            lb.end as int,
                        );
                        crate::wrap::lemma_words_width_sum_step(*cache, ws, k as int, k as int);
                        if k + 1 <= lb.end {
                            vstd::arithmetic::mul::lemma_mul_inequality(
                                k + 1 - idx,
                                lb.end - idx,
                                extra as int,
                            );
                        }
                        vstd::arithmetic::mul::lemma_mul_inequality(
                            0,
                            k - idx,
                            extra as int,
                        );
                    }
                    let word_style = self.words[k].style;
                    let w_k = word_style.str_width(cache, self.words[k].s.as_str());
                    let ghost ops_pre = ops@;
                    area.put_text(ops, Position::new(Mm(x), Mm(y)), word_style, self.words[k].s.as_str(), extra);
                    proof {
                        crate::render::lemma_ops_extended_push(ops_pre, ops@.last());
                        assert(ops@ =~= ops_pre.push(ops@.last()));
                        crate::render::lemma_ops_extended_trans(ops0, ops_pre, ops@);
                        crate::wrap::lemma_words_chars_skip_step(ws, k as int);
                        assert((ops_text(ops_pre) + ws[k as int].s@) + words_chars(
                            ws.skip(k + 1 as int),
                        ) =~= ops_text(ops_pre) + (ws[k as int].s@ + words_chars(
                            ws.skip(k + 1 as int),
                        )));
                        if idx == idx1 && -MAX_AREA_UM <= avail.0 {
                            if k == idx {
                                assert(ops@.len() == ops0.len() + 1);
                                assert(words_width_sum(*cache, ws, idx as int, k as int) == 0);
                                assert((k - idx) * (extra as int) == 0) by (nonlinear_arith)
                                    requires
                                        k == idx,
                                ;
                                assert(x == x0.0);
                                assert(x0.0 as int == spec_offset(
                                    self.alignment,
                                    words_width_sum(*cache, ws, idx as int, lb.end as int),
                                    avail.0 as int,
                                ));
                                assert(ops@[ops0.len() as int] == ops@.last());
                            } else {
                                assert(ops@[ops0.len() as int] == ops_pre[ops0.len() as int]);
                            }
                        }
                    }
                    if word_style.is_strikethrough() {
                        let gh2 = lb.metrics.glyph_height.half();
                        let mut pts: Vec<Position> = Vec::new();
                        pts.push(Position::new(Mm(x), Mm(y).add_sat(gh2)));
                        pts.push(Position::new(Mm(x).add_sat(w_k), Mm(y).add_sat(gh2)));
                        let ghost ops_pre2 = ops@;
                        area.draw_line(ops, pts, LineStyle::new().with_thickness(Mm(300)));
                        proof {
                            crate::render::lemma_ops_extended_push(ops_pre2, ops@.last());
                            assert(ops@ =~= ops_pre2.push(ops@.last()));
                            crate::render::lemma_ops_extended_trans(ops0, ops_pre2, ops@);
                            if idx == idx1 && -MAX_AREA_UM <= avail.0 {
                                assert(ops@[ops0.len() as int] == ops_pre2[ops0.len() as int]);
                            }
                        }
                    }
                    proof {
                        crate::wrap::lemma_words_width_sum_step(*cache, ws, idx as int, k as int);
                        assert((k + 1 - idx) * (extra as int) == (k - idx) * (extra as int)
                            + extra) by (nonlinear_arith);
                        vstd::arithmetic::mul::lemma_mul_inequality(
                            k - idx,
                            lb.end - idx,
                            extra as int,
                        );
                        assert(ws[k as int].s@.len() <= MAX_TEXT_CHARS);
                        assert(0 <= words_width_sum(*cache, ws, idx as int, k as int)
                            <= lb.width.0);
                        assert(0 <= (k - idx) * (extra as int) <= 6_000_000_000_000_000);
                    }
                    x = x + w_k.0 + extra;
                    k = k + 1;
                }
                self.word_idx = lb.end;
                y = y + lb.metrics.line_height.0;
                result.size = result.size.stack_vertical(Size::new(lb.width, lb.metrics.line_height));
                proof {
                    if idx == idx1 && -MAX_AREA_UM <= avail.0 {
                        assert(lb.end == spec_line_end(
                            *cache,
                            ws,
                            idx1 as int,
                            avail.0 as int,
                            idx1 + 1,
                        ));
                        assert(result.size.height.0 == lb.metrics.line_height.0);
                        assert(0 <= lb.width.0);
                        assert(result.size.width.0 == lb.width.0);
                    }
                }
                if lb.width.0 > avail.0 {
                    proof {
                        assert(lb.end == idx + 1);
                        assert(words_width_sum(*cache, ws, idx as int, idx as int) == 0);
                        crate::wrap::lemma_words_width_sum_step(
                            *cache,
                            ws,
                            idx as int,
                            idx as int,
                        );
                        assert(spec_word_width(*cache, ws[idx as int]) == lb.width.0);
                        assert(words_chars(Seq::<StyledString>::empty()) =~= Seq::<char>::empty());
                        assert(self.spec_pending() =~= words_chars(
                            ws.skip(self.word_idx as int),
                        ));
                        assert(self.word_idx >= 1);
                        assert(self.words@[self.word_idx - 1] == ws[idx as int]);
                        assert(spec_word_width(context.font_cache, self.words@[self.word_idx - 1])
                            > area.size.width.0);
                    }
                    return Err(
                        Error::new(
                            "an unbreakable word is wider than the available width",
                            ErrorKind::PageSizeExceeded,
                        ),
                    );
                }
            }
        }
        result.has_more = self.word_idx < len;
        proof {
            if self.word_idx < len {
                crate::wrap::lemma_words_chars_skip_step(ws, self.word_idx as int);
            } else {
                assert(ws.skip(len as int) =~= Seq::<StyledString>::empty());
                assert(words_chars(Seq::<StyledString>::empty()) =~= Seq::<char>::empty());
                assert(self.spec_pending() =~= Seq::<char>::empty());
            }
        }
        Ok(result)
    }
}

/// The extra inter-word spacing of a justified line with `n` words: the
/// leftover width is spread evenly over the `n - 1` inter-word gaps.  A
/// line that is the paragraph's last line, or has fewer than two words,
/// receives no extra spacing at all, whatever the alignment.
pub open spec fn spec_justified_extra(avail: int, trimmed_width: int, n: int, last_line: bool) -> int {
    if n >= 2 && !last_line {
        (avail - trimmed_width) / (n - 1)
    } else {
        0
    }
}

/// The justified-fill law: for a line of `n >= 2` words that is not the
/// paragraph's last line and whose trimmed width leaves a non-negative
/// leftover, adding the chosen extra spacing to every one of the `n - 1`
/// inter-word gaps stretches the line to the available width exactly, up
/// to the spacing quantum: the stretched width does not exceed the
/// available width and falls short of it by less than `n - 1` thousandths
/// of a millimeter.  A last line is never stretched.
pub proof fn lemma_justified_spacing(avail: int, trimmed_width: int, n: int)
    requires
        n >= 2,
        trimmed_width <= avail,
    ensures
        ({
            let e = spec_justified_extra(avail, trimmed_width, n, false);
            &&& e >= 0
            &&& trimmed_width + (n - 1) * e <= avail
            &&& avail - (trimmed_width + (n - 1) * e) < n - 1
        }),
        spec_justified_extra(avail, trimmed_width, n, true) == 0,
{
    let gap = avail - trimmed_width;
    vstd::arithmetic::div_mod::lemma_fundamental_div_mod(gap, n - 1);
    vstd::arithmetic::div_mod::lemma_mod_bound(gap, n - 1);
    vstd::arithmetic::div_mod::lemma_div_is_ordered(0, gap, n - 1);
}

impl PaddedElement {
    /// Wraps an element with the given non-negative padding.
    pub fn new<E: IntoBoxedElement>(element: E, padding: Margins) -> (r: PaddedElement)
        requires
            padding.top.0 >= 0,
            padding.right.0 >= 0,
            padding.bottom.0 >= 0,
            padding.left.0 >= 0,
        ensures
            *r.element == element.as_element(),
            r.padding == padding,
            element.as_element().wf() ==> Element::Padded(r).wf(),
    {
        PaddedElement { element: element.into_boxed_element(), padding }
    }

    /// Shrinks the area by the left, right and top padding, renders the
    /// wrapped element into it, and reports the element's size grown by the
    /// full padding.  The bottom padding is withheld from the inner area so
    /// that trailing padding never causes a spurious page break.
    pub fn render(
        &mut self,
        context: &Context,
        area: Area,
        style: Style,
        ops: &mut Vec<Op>,
    ) -> (r: Result<RenderResult, Error>)
        requires
            Element::Padded(*old(self)).wf(),
            area.size.width.0 <= MAX_AREA_UM,
        ensures
            Element::Padded(*final(self)).wf(),
            ops_extended(old(ops)@, final(ops)@),
            final(self).padding == old(self).padding,
            (r matches Ok(res) && !res.has_more) ==> (*final(self).element).spec_pending()
                == Seq::<char>::empty(),
        decreases *old(self),
    {
        let mut inner = area;
        inner.add_margins(
            Margins::trbl(self.padding.top, self.padding.right, Mm(0), self.padding.left),
        );
        let child_result = self.element.render(context, inner, style, ops)?;
        let mut result = child_result;
        result.size = Size::new(
            result.size.width.add_sat(self.padding.left).add_sat(self.padding.right),
            result.size.height.add_sat(self.padding.top).add_sat(self.padding.bottom),
        );
        Ok(result)
    }
}

impl StyledElement {
    /// Wraps an element with a style that is merged over the inherited
    /// style before the element renders.
    pub fn new<E: IntoBoxedElement>(element: E, style: Style) -> (r: StyledElement)
        ensures
            *r.element == element.as_element(),
            r.style == style,
            element.as_element().wf() ==> Element::Styled(r).wf(),
    {
        StyledElement { element: element.into_boxed_element(), style }
    }

    /// Merges the stored style into the inherited style and delegates to
    /// the wrapped element.
    pub fn render(
        &mut self,
        context: &Context,
        area: Area,
        style: Style,
        ops: &mut Vec<Op>,
    ) -> (r: Result<RenderResult, Error>)
        requires
            Element::Styled(*old(self)).wf(),
            area.size.width.0 <= MAX_AREA_UM,
        ensures
            Element::Styled(*final(self)).wf(),
            ops_extended(old(ops)@, final(ops)@),
            final(self).style == old(self).style,
            (r matches Ok(res) && !res.has_more) ==> (*final(self).element).spec_pending()
                == Seq::<char>::empty(),
        decreases *old(self),
    {
        let mut merged = style;
        merged.merge(self.style);
        proof {
            assert(decreases_to!(*old(self) => old(self).element));
        }
        self.element.render(context, area, merged, ops)
    }
}

/// What the frame around an element draws in one render call, given the
/// area, the line style, whether this is the element's first chunk, the
/// reported result, and the operation lists before and after the call.
///
/// The frame area is the given area shrunk by half the line thickness on
/// the left and right (and on top for the first chunk), so that each
/// stroked line's centerline sits on the nominal box edge; its height
/// follows the wrapped element's reported height.  The borders are the
/// last operations recorded: a top border only on the first chunk, then
/// the left and the right border, and a bottom border only on the last
/// chunk.  The description is stated for results within the sane height
/// range, where the saturating size arithmetic is exact.
pub open spec fn spec_frame_borders(
    area: Area,
    ls: LineStyle,
    first: bool,
    res: RenderResult,
    pre: Seq<Op>,
    post: Seq<Op>,
) -> bool {
    let t = ls.thickness.0 as int;
    let off = t / 2;
    let fo = Position {
        x: Mm(sat_add(area.origin.x.0 as int, off) as i64),
        y: Mm(
            if first {
                sat_add(area.origin.y.0 as int, off)
            } else {
                area.origin.y.0 as int
            } as i64,
        ),
    };
    let fw = sat_sub(sat_sub(area.size.width.0 as int, off), off);
    let child_h = res.size.height.0 - (if first { t } else { 0 }) - (
    if !res.has_more {
        t
    } else {
        0
    });
    let fh = if res.has_more {
        child_h + off
    } else {
        child_h + t
    };
    let b: int = (if first { 1int } else { 0 }) + 2 + (if !res.has_more { 1int } else { 0 });
    -4_000_000_000_000_000 < res.size.height.0 < 4_000_000_000_000_000 ==> {
        &&& post.len() >= pre.len() + b
        &&& (exists|m: int|
            pre.len() <= m && #[trigger] post.take(m).len() + b == post.len() && ops_extended(
                pre,
                post.take(m),
            ))
        &&& (!res.has_more ==> spec_border_op(fo, Position { x: Mm(0), y: Mm(fh as i64) }, Position { x: Mm(fw as i64), y: Mm(fh as i64) }, ls, post[post.len() - 1]))
        &&& spec_border_op(fo, Position { x: Mm(fw as i64), y: Mm(0) }, Position { x: Mm(fw as i64), y: Mm(fh as i64) }, ls, post[post.len() - 1 - (if !res.has_more { 1int } else { 0 })])
        &&& spec_border_op(fo, Position { x: Mm(0), y: Mm(0) }, Position { x: Mm(0), y: Mm(fh as i64) }, ls, post[post.len() - 2 - (if !res.has_more { 1int } else { 0 })])
        &&& (first ==> spec_border_op(fo, Position { x: Mm(0), y: Mm(0) }, Position { x: Mm(fw as i64), y: Mm(0) }, ls, post[post.len() - 3 - (if !res.has_more { 1int } else { 0 })]))
    }
}

/// Whether an operation is a line from `from` to `to`, relative to the
/// frame origin `fo`, in the given style.
pub open spec fn spec_border_op(
    fo: Position,
    from: Position,
    to: Position,
    ls: LineStyle,
    op: Op,
) -> bool {
    op matches Op::Line { points, style } && points@ == crate::render::spec_shift_points(
        fo,
        seq![from, to],
    ) && style == ls
}

impl FramedElement {
    /// Wraps an element with a frame in the default line style.
    pub fn new<E: IntoBoxedElement>(element: E) -> (r: FramedElement)
        ensures
            *r.element == element.as_element(),
            r.is_first,
            r.line_style == (LineStyle {
                thickness: Mm(100),
                color: crate::style::Color::Rgb(0u8, 0u8, 0u8),
                filled: false,
            }),
            element.as_element().wf() ==> Element::Framed(r).wf(),
    {
        FramedElement {
            element: element.into_boxed_element(),
            is_first: true,
            line_style: LineStyle::new(),
        }
    }

    /// Wraps an element with a frame in the given line style.
    pub fn with_line_style<E: IntoBoxedElement>(element: E, line_style: LineStyle) -> (r:
        FramedElement)
        requires
            line_style.wf(),
            line_style.thickness.0 <= MAX_AREA_UM,
        ensures
            *r.element == element.as_element(),
            r.is_first,
            r.line_style == line_style,
            element.as_element().wf() ==> Element::Framed(r).wf(),
    {
        FramedElement { element: element.into_boxed_element(), is_first: true, line_style }
    }

    /// Renders the wrapped element into the area shrunk by the line
    /// thickness, then strokes the frame: the top border only on the first
    /// chunk, the left and right borders on every chunk, and the bottom
    /// border only on the last chunk, with half-thickness offsets so each
    /// line's centerline sits on the nominal box edge.
    pub fn render(
        &mut self,
        context: &Context,
        area: Area,
        style: Style,
        ops: &mut Vec<Op>,
    ) -> (r: Result<RenderResult, Error>)
        requires
            Element::Framed(*old(self)).wf(),
            area.size.width.0 <= MAX_AREA_UM,
        ensures
            Element::Framed(*final(self)).wf(),
            ops_extended(old(ops)@, final(ops)@),
            final(self).line_style == old(self).line_style,
            (r matches Ok(res) && !res.has_more) ==> (*final(self).element).spec_pending()
                == Seq::<char>::empty(),
            (r matches Ok(res) ==> {
                &&& !final(self).is_first
                &&& res.size.width == area.size.width
                &&& spec_frame_borders(
                    area,
                    old(self).line_style,
                    old(self).is_first,
                    res,
                    old(ops)@,
                    final(ops)@,
                )
            }),
        decreases *old(self),
    {
        let ghost ops0 = ops@;
        let line_thickness = self.line_style.thickness();
        let line_offset = line_thickness.half();

        let mut element_area = area;
        let mut frame_area = area;
        element_area.add_margins(
            Margins::trbl(Mm(0), line_thickness, line_thickness, line_thickness),
        );
        frame_area.add_margins(Margins::trbl(Mm(0), line_offset, Mm(0), line_offset));
        if self.is_first {
            element_area.add_margins(Margins::trbl(line_thickness, Mm(0), Mm(0), Mm(0)));
            frame_area.add_margins(Margins::trbl(line_offset, Mm(0), Mm(0), Mm(0)));
        }

        proof {
            assert(decreases_to!(*old(self) => old(self).element));
            crate::render::lemma_ops_extended_refl(ops@);
        }
        let ghost ops_pre_child = ops@;
        let child = self.element.render(context, element_area, style, ops);
        let mut result = match child {
            Ok(res) => res,
            Err(e) => {
                proof {
                    crate::render::lemma_ops_extended_trans(ops0, ops_pre_child, ops@);
                }
                return Err(e);
            },
        };
        result.size = Size::new(area.size.width, result.size.height);
        if result.has_more {
            frame_area.set_height(result.size.height.add_sat(line_offset));
        } else {
            frame_area.set_height(result.size.height.add_sat(line_thickness));
        }

        let ghost child_ops = ops@;
        proof {
            crate::render::lemma_ops_extended_trans(ops0, ops_pre_child, child_ops);
        }

        let fw = frame_area.size.width;
        let fh = frame_area.size.height;
        if self.is_first {
            result.size = Size::new(result.size.width, result.size.height.add_sat(line_thickness));
            let mut pts: Vec<Position> = Vec::new();
            pts.push(Position::new(Mm(0), Mm(0)));
            pts.push(Position::new(fw, Mm(0)));
            proof {
                assert(pts@ =~= seq![
                    Position { x: Mm(0), y: Mm(0) },
                    Position { x: fw, y: Mm(0) },
                ]);
            }
            let ghost pre = ops@;
            frame_area.draw_line(ops, pts, self.line_style);
            proof {
                assert(ops@.take(pre.len() as int) =~= ops@.drop_last());
                crate::render::lemma_ops_extended_trans(ops0, pre, ops@);
            }
        }
        {
            let mut pts: Vec<Position> = Vec::new();
            pts.push(Position::new(Mm(0), Mm(0)));
            pts.push(Position::new(Mm(0), fh));
            proof {
                assert(pts@ =~= seq![
                    Position { x: Mm(0), y: Mm(0) },
                    Position { x: Mm(0), y: fh },
                ]);
            }
            let ghost pre = ops@;
            frame_area.draw_line(ops, pts, self.line_style);
            proof {
                assert(ops@.take(pre.len() as int) =~= ops@.drop_last());
                crate::render::lemma_ops_extended_trans(ops0, pre, ops@);
            }
        }
        {
            let mut pts: Vec<Position> = Vec::new();
            pts.push(Position::new(fw, Mm(0)));
            pts.push(Position::new(fw, fh));
            proof {
                assert(pts@ =~= seq![
                    Position { x: fw, y: Mm(0) },
                    Position { x: fw, y: fh },
                ]);
            }
            let ghost pre = ops@;
            frame_area.draw_line(ops, pts, self.line_style);
            proof {
                assert(ops@.take(pre.len() as int) =~= ops@.drop_last());
                crate::render::lemma_ops_extended_trans(ops0, pre, ops@);
            }
        }
        if !result.has_more {
            result.size = Size::new(result.size.width, result.size.height.add_sat(line_thickness));
            let mut pts: Vec<Position> = Vec::new();
            pts.push(Position::new(Mm(0), fh));
            pts.push(Position::new(fw, fh));
            proof {
                assert(pts@ =~= seq![
                    Position { x: Mm(0), y: fh },
                    Position { x: fw, y: fh },
                ]);
            }
            let ghost pre = ops@;
            frame_area.draw_line(ops, pts, self.line_style);
            proof {
                assert(ops@.take(pre.len() as int) =~= ops@.drop_last());
                crate::render::lemma_ops_extended_trans(ops0, pre, ops@);
            }
        }

        self.is_first = false;
        proof {
            if -4_000_000_000_000_000 < result.size.height.0 < 4_000_000_000_000_000 {
                assert(ops@.take(child_ops.len() as int) =~= child_ops);
            }
        }
        Ok(result)
    }
}

/// The decimal digit character for a value from zero to nine.
pub open spec fn spec_digit_char(d: int) -> char {
    if d == 0 {
        '0'
    } else if d == 1 {
        '1'
    } else if d == 2 {
        '2'
    } else if d == 3 {
        '3'
    } else if d == 4 {
        '4'
    } else if d == 5 {
        '5'
    } else if d == 6 {
        '6'
    } else if d == 7 {
        '7'
    } else if d == 8 {
        '8'
    } else {
        '9'
    }
}

/// The decimal digits of a number, most significant first.
pub open spec fn spec_num_chars(n: nat) -> Seq<char>
    decreases n,
{
    if n < 10 {
        seq![spec_digit_char(n as int)]
    } else {
        spec_num_chars(n / 10).push(spec_digit_char((n % 10) as int))
    }
}

/// Powers of ten.
pub open spec fn pow10(k: nat) -> nat
    decreases k,
{
    if k == 0 {
        1
    } else {
        10 * pow10((k - 1) as nat)
    }
}

/// A number below the k-th power of ten has at most k digits.
proof fn lemma_num_chars_len(n: nat, k: nat)
    requires
        k >= 1,
        n < pow10(k),
    ensures
        spec_num_chars(n).len() <= k,
    decreases k,
{
    if n >= 10 {
        assert(pow10(k) == 10 * pow10((k - 1) as nat));
        assert(pow10((k - 1) as nat) >= 1) by {
            lemma_pow10_pos((k - 1) as nat);
        }
        assert(n / 10 < pow10((k - 1) as nat)) by (nonlinear_arith)
            requires
                n < 10 * pow10((k - 1) as nat),
                n >= 10,
        ;
        lemma_num_chars_len(n / 10, (k - 1) as nat);
    }
}

/// Powers of ten are positive.
proof fn lemma_pow10_pos(k: nat)
    ensures
        pow10(k) >= 1,
    decreases k,
{
    if k > 0 {
        lemma_pow10_pos((k - 1) as nat);
    }
}

/// Any machine-sized number has at most twenty digits.
proof fn lemma_num_chars_len_usize(n: usize)
    ensures
        spec_num_chars(n as nat).len() <= 20,
{
    assert(pow10(0) == 1);
    assert(pow10(1) == 10);
    assert(pow10(2) == 100);
    assert(pow10(3) == 1000);
    assert(pow10(4) == 10000);
    assert(pow10(5) == 100000);
    assert(pow10(6) == 1000000);
    assert(pow10(7) == 10000000);
    assert(pow10(8) == 100000000);
    assert(pow10(9) == 1000000000);
    assert(pow10(10) == 10000000000);
    assert(pow10(11) == 100000000000);
    assert(pow10(12) == 1000000000000);
    assert(pow10(13) == 10000000000000);
    assert(pow10(14) == 100000000000000);
    assert(pow10(15) == 1000000000000000);
    assert(pow10(16) == 10000000000000000);
    assert(pow10(17) == 100000000000000000);
    assert(pow10(18) == 1000000000000000000);
    assert(pow10(19) == 10000000000000000000);
    assert(pow10(20) == 100000000000000000000);
    lemma_num_chars_len(n as nat, 20);
}

/// The string holding one decimal digit.
fn digit_str(d: u8) -> (r: &'static str)
    requires
        d <= 9,
    ensures
        r@ == seq![spec_digit_char(d as int)],
{
    proof {
        reveal_strlit("0");
        reveal_strlit("1");
        reveal_strlit("2");
        reveal_strlit("3");
        reveal_strlit("4");
        reveal_strlit("5");
        reveal_strlit("6");
        reveal_strlit("7");
        reveal_strlit("8");
        reveal_strlit("9");
    }
    match d {
        0 => "0",
        1 => "1",
        2 => "2",
        3 => "3",
        4 => "4",
        5 => "5",
        6 => "6",
        7 => "7",
        8 => "8",
        _ => "9",
    }
}

/// Appends the decimal digits of a number to a string.
fn push_digits(n: usize, out: &mut String)
    ensures
        final(out)@ == old(out)@ + spec_num_chars(n as nat),
    decreases n,
{
    if n >= 10 {
        push_digits(n / 10, out);
        let d = digit_str((n % 10) as u8);
        out.append(d);
    } else {
        let d = digit_str(n as u8);
        out.append(d);
    }
}

/// The label of an ordered-list entry: the entry's number in decimal
/// followed by a dot.
pub fn number_label(n: usize) -> (r: String)
    ensures
        r@ == spec_num_chars(n as nat).push('.'),
        r@.len() <= 21,
{
    let mut out = String::new();
    push_digits(n, &mut out);
    out.append(".");
    proof {
        reveal_strlit(".");
        lemma_num_chars_len_usize(n);
        assert(out@ =~= spec_num_chars(n as nat).push('.'));
    }
    out
}

impl BulletPoint {
    /// Wraps an element in a bullet point with the default indent, gap and
    /// bullet symbol.
    pub fn new<E: IntoBoxedElement>(element: E) -> (r: BulletPoint)
        ensures
            *r.element == element.as_element(),
            !r.bullet_rendered,
            r.indent.0 == 10_000,
            r.bullet_space.0 == 2_000,
            r.bullet@ == "\u{2013}"@,
            element.as_element().wf() ==> Element::Bullet(r).wf(),
    {
        let r = BulletPoint {
            element: element.into_boxed_element(),
            indent: Mm(10_000),
            bullet_space: Mm(2_000),
            bullet: "\u{2013}".to_owned(),
            bullet_rendered: false,
        };
        proof {
            reveal_strlit("\u{2013}");
        }
        r
    }

    /// Sets the bullet label.
    pub fn set_bullet(&mut self, bullet: String)
        requires
            bullet@.len() <= MAX_TEXT_CHARS,
        ensures
            *final(self) == (BulletPoint { bullet, ..*old(self) }),
    {
        self.bullet = bullet;
    }

    /// Sets the bullet label and returns the bullet point.
    pub fn with_bullet(self, bullet: String) -> (r: BulletPoint)
        requires
            bullet@.len() <= MAX_TEXT_CHARS,
        ensures
            r == (BulletPoint { bullet, ..self }),
    {
        let mut this = self;
        this.set_bullet(bullet);
        this
    }

    /// Renders the wrapped element into the area shifted right by the
    /// indent, and prints the bullet label once, on the first call,
    /// right-aligned against the gap before the indented content.
    pub fn render(
        &mut self,
        context: &Context,
        area: Area,
        style: Style,
        ops: &mut Vec<Op>,
    ) -> (r: Result<RenderResult, Error>)
        requires
            Element::Bullet(*old(self)).wf(),
            area.size.width.0 <= MAX_AREA_UM,
        ensures
            Element::Bullet(*final(self)).wf(),
            ops_extended(old(ops)@, final(ops)@),
            (r is Ok ==> final(self).bullet_rendered),
            final(self).bullet == old(self).bullet,
            old(self).bullet_rendered ==> final(self).bullet_rendered,
            (r matches Ok(res) && !res.has_more) ==> (*final(self).element).spec_pending()
                == Seq::<char>::empty(),
            (r is Ok && !old(self).bullet_rendered && area.spec_fits_line(
                0,
                context.font_cache.spec_line_height(style.effective_font_size() as int),
            )) ==> final(ops)@.len() > old(ops)@.len() && (final(ops)@.last() matches Op::Text {
                position: p,
                text: t,
                ..
            } && t@ == old(self).bullet@ && p == crate::render::spec_shift(
                area.origin,
                Position {
                    x: Mm(
                        sat_sub(
                            sat_sub(
                                old(self).indent.0 as int,
                                context.font_cache.spec_str_width(
                                    old(self).bullet@,
                                    style.effective_font_size() as int,
                                ),
                            ),
                            old(self).bullet_space.0 as int,
                        ) as i64,
                    ),
                    y: Mm(0),
                },
            )),
        decreases *old(self),
    {
        let ghost ops0 = ops@;
        let mut element_area = area;
        element_area.add_offset(Position::new(self.indent, Mm(0)));
        proof {
            assert(decreases_to!(*old(self) => old(self).element));
            crate::render::lemma_ops_extended_refl(ops@);
        }
        let ghost ops_pre_child = ops@;
        let child = self.element.render(context, element_area, style, ops);
        let mut result = match child {
            Ok(res) => res,
            Err(e) => {
                proof {
                    crate::render::lemma_ops_extended_trans(ops0, ops_pre_child, ops@);
                }
                return Err(e);
            },
        };
        result.size = Size::new(result.size.width.add_sat(self.indent), result.size.height);
        proof {
            crate::render::lemma_ops_extended_trans(ops0, ops_pre_child, ops@);
        }
        if !self.bullet_rendered {
            let bullet_width = style.str_width(&context.font_cache, self.bullet.as_str());
            let x = self.indent.sub_sat(bullet_width).sub_sat(self.bullet_space);
            let ghost ops_pre_bullet = ops@;
            area.print_str(
                ops,
                &context.font_cache,
                Position::new(x, Mm(0)),
                style,
                self.bullet.as_str(),
            );
            self.bullet_rendered = true;
            proof {
                if ops@.len() > ops_pre_bullet.len() {
                    assert(ops@.take(ops_pre_bullet.len() as int) =~= ops@.drop_last());
                } else {
                    crate::render::lemma_ops_extended_refl(ops@);
                }
                crate::render::lemma_ops_extended_trans(ops0, ops_pre_bullet, ops@);
            }
        }
        Ok(result)
    }
}

impl UnorderedList {
    /// Creates an empty unordered list with the default bullet symbol.
    pub fn new() -> (r: UnorderedList)
        ensures
            Element::Unordered(r).wf(),
            r.layout.elements@.len() == 0,
            r.bullet is None,
    {
        UnorderedList { layout: LinearLayout::vertical(), bullet: None }
    }

    /// Creates an empty unordered list with the given bullet symbol.
    pub fn with_bullet(bullet: String) -> (r: UnorderedList)
        requires
            bullet@.len() < MAX_TEXT_CHARS,
        ensures
            Element::Unordered(r).wf(),
            r.layout.elements@.len() == 0,
            r.bullet == Some(bullet),
    {
        UnorderedList { layout: LinearLayout::vertical(), bullet: Some(bullet) }
    }

    /// Wraps the element in a bullet point and appends it to the list.
    pub fn push<E: IntoBoxedElement>(&mut self, element: E)
        requires
            Element::Unordered(*old(self)).wf(),
        ensures
            element.as_element().wf() ==> Element::Unordered(*final(self)).wf(),
            final(self).bullet == old(self).bullet,
            final(self).layout.elements@.len() == old(self).layout.elements@.len() + 1,
            forall|j: int|
                0 <= j < old(self).layout.elements@.len() ==> final(self).layout.elements@[j]
                    == old(self).layout.elements@[j],
            (*final(self).layout.elements@.last() matches Element::Bullet(b) && *b.element
                == element.as_element() && !b.bullet_rendered && b.bullet@ == (
            match old(self).bullet {
                Some(s) => s@,
                None => "\u{2013}"@,
            })),
    {
        let mut point = BulletPoint::new(element);
        match &self.bullet {
            Some(bullet) => {
                let b = bullet.clone();
                point.set_bullet(b);
            },
            None => {},
        }
        self.layout.push(point);
    }

    /// Wraps the element in a bullet point with an empty label and appends
    /// it to the list, so that a nested list keeps its own labels.
    pub fn push_no_bullet<E: IntoBoxedElement>(&mut self, element: E)
        requires
            Element::Unordered(*old(self)).wf(),
        ensures
            element.as_element().wf() ==> Element::Unordered(*final(self)).wf(),
            final(self).bullet == old(self).bullet,
            final(self).layout.elements@.len() == old(self).layout.elements@.len() + 1,
            forall|j: int|
                0 <= j < old(self).layout.elements@.len() ==> final(self).layout.elements@[j]
                    == old(self).layout.elements@[j],
            (*final(self).layout.elements@.last() matches Element::Bullet(b) && *b.element
                == element.as_element() && !b.bullet_rendered && b.bullet@ == Seq::<
                char,
            >::empty()),
    {
        let mut point = BulletPoint::new(element);
        let empty = String::new();
        point.set_bullet(empty);
        self.layout.push(point);
    }

    /// Appends an element and returns the list.
    pub fn element<E: IntoBoxedElement>(self, element: E) -> (r: UnorderedList)
        requires
            Element::Unordered(self).wf(),
        ensures
            element.as_element().wf() ==> Element::Unordered(r).wf(),
            r.bullet == self.bullet,
    {
        let mut this = self;
        this.push(element);
        this
    }

    /// Renders the bullet points in order.
    pub fn render(
        &mut self,
        context: &Context,
        area: Area,
        style: Style,
        ops: &mut Vec<Op>,
    ) -> (r: Result<RenderResult, Error>)
        requires
            Element::Unordered(*old(self)).wf(),
            area.size.width.0 <= MAX_AREA_UM,
        ensures
            Element::Unordered(*final(self)).wf(),
            ops_extended(old(ops)@, final(ops)@),
            (r matches Ok(res) ==> (res.has_more <==> final(self).layout.render_idx < final(self).layout.elements@.len())),
            (r matches Ok(res) && !res.has_more) ==> elements_pending(
                final(self).layout.elements@,
                final(self).layout.render_idx as int,
            ) == Seq::<char>::empty(),
        decreases *old(self),
    {
        proof {
            assert(decreases_to!(*old(self) => old(self).layout));
        }
        let r = self.layout.render_vertical(context, area, style, ops);
        r
    }
}

impl OrderedList {
    /// Creates an empty ordered list starting at one.
    pub fn new() -> (r: OrderedList)
        ensures
            Element::Ordered(r).wf(),
            r.layout.elements@.len() == 0,
            r.number == 1,
    {
        OrderedList::with_start(1)
    }

    /// Creates an empty ordered list starting at the given number.
    pub fn with_start(start: usize) -> (r: OrderedList)
        ensures
            Element::Ordered(r).wf(),
            r.layout.elements@.len() == 0,
            r.number == start,
    {
        OrderedList { layout: LinearLayout::vertical(), number: start }
    }

    /// Wraps the element in a bullet point labeled with the next number
    /// and appends it to the list.
    pub fn push<E: IntoBoxedElement>(&mut self, element: E)
        requires
            Element::Ordered(*old(self)).wf(),
            old(self).number < usize::MAX,
        ensures
            element.as_element().wf() ==> Element::Ordered(*final(self)).wf(),
            final(self).number == old(self).number + 1,
            final(self).layout.elements@.len() == old(self).layout.elements@.len() + 1,
            forall|j: int|
                0 <= j < old(self).layout.elements@.len() ==> final(self).layout.elements@[j]
                    == old(self).layout.elements@[j],
            (*final(self).layout.elements@.last() matches Element::Bullet(b) && *b.element
                == element.as_element() && !b.bullet_rendered && b.bullet@ == spec_num_chars(
                old(self).number as nat,
            ).push('.')),
    {
        let mut point = BulletPoint::new(element);
        let label = number_label(self.number);
        point.set_bullet(label);
        self.layout.push(point);
        self.number = self.number + 1;
    }

    /// Appends an element and returns the list.
    pub fn element<E: IntoBoxedElement>(self, element: E) -> (r: OrderedList)
        requires
            Element::Ordered(self).wf(),
            self.number < usize::MAX,
        ensures
            element.as_element().wf() ==> Element::Ordered(r).wf(),
            r.number == self.number + 1,
    {
        let mut this = self;
        this.push(element);
        this
    }

    /// Renders the bullet points in order.
    pub fn render(
        &mut self,
        context: &Context,
        area: Area,
        style: Style,
        ops: &mut Vec<Op>,
    ) -> (r: Result<RenderResult, Error>)
        requires
            Element::Ordered(*old(self)).wf(),
            area.size.width.0 <= MAX_AREA_UM,
        ensures
            Element::Ordered(*final(self)).wf(),
            ops_extended(old(ops)@, final(ops)@),
            (r matches Ok(res) ==> (res.has_more <==> final(self).layout.render_idx < final(self).layout.elements@.len())),
            (r matches Ok(res) && !res.has_more) ==> elements_pending(
                final(self).layout.elements@,
                final(self).layout.render_idx as int,
            ) == Seq::<char>::empty(),
        decreases *old(self),
    {
        proof {
            assert(decreases_to!(*old(self) => old(self).layout));
        }
        let r = self.layout.render_vertical(context, area, style, ops);
        r
    }
}

impl Element {
    /// Renders this element into the area: either all remaining content is
    /// consumed and the used size reported, or the element reports that
    /// content remains and expects a fresh area on the next call.  The
    /// recorded operations are only ever appended to.
    pub fn render(
        &mut self,
        context: &Context,
        area: Area,
        style: Style,
        ops: &mut Vec<Op>,
    ) -> (r: Result<RenderResult, Error>)
        requires
            old(self).wf(),
            area.size.width.0 <= MAX_AREA_UM,
        ensures
            final(self).wf(),
            ops_extended(old(ops)@, final(ops)@),
            (r matches Ok(res) && !res.has_more) ==> final(self).spec_pending() == Seq::<
                char,
            >::empty(),
        decreases *old(self),
    {
        match self {
            Element::Linear(l) => {
                proof {
                    assert(decreases_to!(*old(self) => (*old(self))->Linear_0));
                }
                l.render_vertical(context, area, style, ops)
            },
            Element::Plain(t) => t.render(context, area, style, ops),
            Element::Paragraph(p) => p.render(context, area, style, ops),
            Element::Break(b) => b.render(context, area, style, ops),
            Element::PageBreak(b) => b.render(context, area, style, ops),
            Element::Padded(p) => {
                proof {
                    assert(decreases_to!(*old(self) => (*old(self))->Padded_0));
                }
                p.render(context, area, style, ops)
            },
            Element::Styled(s) => {
                proof {
                    assert(decreases_to!(*old(self) => (*old(self))->Styled_0));
                }
                s.render(context, area, style, ops)
            },
            Element::Framed(f) => {
                proof {
                    assert(decreases_to!(*old(self) => (*old(self))->Framed_0));
                }
                f.render(context, area, style, ops)
            },
            Element::Bullet(b) => {
                proof {
                    assert(decreases_to!(*old(self) => (*old(self))->Bullet_0));
                }
                b.render(context, area, style, ops)
            },
            Element::Unordered(u) => {
                proof {
                    assert(decreases_to!(*old(self) => (*old(self))->Unordered_0));
                }
                u.render(context, area, style, ops)
            },
            Element::Ordered(o) => {
                proof {
                    assert(decreases_to!(*old(self) => (*old(self))->Ordered_0));
                }
                o.render(context, area, style, ops)
            },
            Element::Table(t) => {
                proof {
                    assert(decreases_to!(*old(self) => (*old(self))->Table_0));
                }
                t.render(context, area, style, ops)
            },
            Element::Math(m) => m.render(context, area, style, ops),
            Element::Code(c) => c.render(context, area, style, ops),
        }
    }
}

/// The concatenation of a sequence of drawn chunks, in order.
pub open spec fn concat_chunks(chunks: Seq<Seq<char>>) -> Seq<char>
    decreases chunks.len(),
{
    if chunks.len() == 0 {
        Seq::empty()
    } else {
        chunks.first() + concat_chunks(chunks.drop_first())
    }
}

/// One step of rendering a paragraph: the characters pending before the
/// call are exactly the characters drawn by the call followed by the
/// characters still pending after it.  This is what every render call on a
/// paragraph guarantees.
pub open spec fn render_steps(pendings: Seq<Seq<char>>, drawn: Seq<Seq<char>>) -> bool {
    &&& pendings.len() == drawn.len() + 1
    &&& (forall|i: int| 0 <= i < drawn.len() ==> pendings[i] == #[trigger] drawn[i] + pendings[i + 1])
}

/// The pagination law for paragraphs: rendering a paragraph into a
/// sequence of areas until nothing is pending draws the paragraph's
/// characters exactly once, in order — the concatenation of the characters
/// drawn across all resumptions equals the text that was pending at the
/// start, with nothing dropped and nothing repeated, whatever the
/// alignment.
pub proof fn lemma_paragraph_text_conserved(pendings: Seq<Seq<char>>, drawn: Seq<Seq<char>>)
    requires
        render_steps(pendings, drawn),
        pendings.last() == Seq::<char>::empty(),
    ensures
        concat_chunks(drawn) == pendings.first(),
    decreases drawn.len(),
{
    if drawn.len() == 0 {
        assert(pendings.first() == pendings.last());
        assert(concat_chunks(drawn) =~= pendings.first());
    } else {
        let pendings2 = pendings.drop_first();
        let drawn2 = drawn.drop_first();
        assert(forall|i: int|
            0 <= i < drawn2.len() ==> pendings2[i] == #[trigger] drawn2[i] + pendings2[i + 1]);
        assert(pendings2.last() == pendings.last());
        lemma_paragraph_text_conserved(pendings2, drawn2);
        assert(pendings.first() == drawn.first() + pendings2.first());
        assert(concat_chunks(drawn) == drawn.first() + concat_chunks(drawn2));
    }
}

} // verus!
