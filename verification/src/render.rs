use vstd::prelude::*;
use crate::geom::{sat_add, sat_sub, Mm, Position, Size};
use crate::geom::Margins;
use crate::fonts::{FontCache, MAX_CHAR_WIDTH_UM};
use crate::style::{LineStyle, Style};

verus! {

/// The widest an area may be for the weighted split arithmetic to stay
/// exact, in thousandths of a millimeter (one kilometer).
pub const MAX_AREA_UM: i64 = 1_000_000_000_000;

/// The largest sum of column weights a table may use.
pub const MAX_WEIGHT_SUM: usize = 1_000_000;

/// A drawing operation handed to the page-drawing surface.  Positions are
/// absolute page coordinates in thousandths of a millimeter.
#[derive(Clone, Debug)]
pub enum Op {
    /// A run of text drawn at a position.  `extra_word_spacing` is the
    /// extra inter-word spacing, in thousandths of a millimeter, in effect
    /// on the run's line; the positions of the line's runs already account
    /// for it, so it is informational for surfaces that track spacing.
    Text { position: Position, style: Style, text: String, extra_word_spacing: i64 },
    /// A polyline, stroked or filled.
    Line { points: Vec<Position>, style: LineStyle },
    /// A run of positioned glyphs: glyph identifiers with per-glyph
    /// horizontal offsets in thousandths of an em, at a font size given in
    /// thousandths of a point.
    Glyphs {
        position: Position,
        font_size_mpt: i64,
        x_offsets: Vec<i64>,
        glyph_ids: Vec<u16>,
        style: Style,
    },
}

impl Op {
    /// The characters this operation draws as text.
    pub open spec fn spec_text(self) -> Seq<char> {
        match self {
            Op::Text { text, .. } => text@,
            _ => Seq::empty(),
        }
    }
}

/// The concatenation of all characters drawn as text by a sequence of
/// operations, in order.
pub open spec fn ops_text(ops: Seq<Op>) -> Seq<char>
    decreases ops.len(),
{
    if ops.len() == 0 {
        Seq::empty()
    } else {
        ops_text(ops.drop_last()) + ops.last().spec_text()
    }
}

/// Text concatenation distributes over appending operation sequences.
pub proof fn lemma_ops_text_push(ops: Seq<Op>, op: Op)
    ensures
        ops_text(ops.push(op)) == ops_text(ops) + op.spec_text(),
{
    assert(ops.push(op).drop_last() =~= ops);
    assert(ops.push(op).last() == op);
}

/// The result of one render call on an element.
#[derive(Clone, Copy, Debug, PartialEq, Eq, Structural)]
pub struct RenderResult {
    /// The extent of the area the element used.
    pub size: Size,
    /// True when content remains and the caller should provide a fresh area
    /// and call again.
    pub has_more: bool,
}

impl RenderResult {
    /// An empty result: no size consumed, nothing left over.
    pub fn new() -> (r: RenderResult)
        ensures
            r.size.width.0 == 0,
            r.size.height.0 == 0,
            !r.has_more,
    {
        RenderResult { size: Size::new(Mm(0), Mm(0)), has_more: false }
    }
}

/// The sum of the widths of a sequence of areas, in thousandths of a
/// millimeter.
pub open spec fn areas_width_sum(areas: Seq<Area>) -> int
    decreases areas.len(),
{
    if areas.len() == 0 {
        0
    } else {
        areas_width_sum(areas.drop_last()) + areas.last().size.width.0
    }
}

/// The sum of the first `i` weights.
pub open spec fn weight_psum(ws: Seq<usize>, i: int) -> int
    decreases i,
{
    if i <= 0 {
        0
    } else {
        weight_psum(ws, i - 1) + ws[i - 1]
    }
}

/// A mutable rectangular render target: the space an element may draw into
/// during one render call.  The origin is an absolute page position; the
/// size is what remains available.  Drawing operations are recorded into a
/// caller-provided list.
#[derive(Clone, Copy, Debug)]
pub struct Area {
    /// Absolute position of the top-left corner.
    pub origin: Position,
    /// Remaining extent.
    pub size: Size,
}

impl Area {
    /// Builds an area from its origin and size.
    pub fn new(origin: Position, size: Size) -> (r: Area)
        ensures
            r.origin == origin,
            r.size == size,
    {
        Area { origin, size }
    }

    /// The remaining extent of this area.
    pub fn size(&self) -> (r: Size)
        ensures
            r == self.size,
    {
        self.size
    }

    /// Moves the origin right and down by the given offset and shrinks the
    /// remaining extent accordingly.
    pub fn add_offset(&mut self, offset: Position)
        ensures
            final(self).origin.x.0 == sat_add(old(self).origin.x.0 as int, offset.x.0 as int),
            final(self).origin.y.0 == sat_add(old(self).origin.y.0 as int, offset.y.0 as int),
            final(self).size.width.0 == sat_sub(old(self).size.width.0 as int, offset.x.0 as int),
            final(self).size.height.0 == sat_sub(
                old(self).size.height.0 as int,
                offset.y.0 as int,
            ),
    {
        self.origin = Position::new(
            self.origin.x.add_sat(offset.x),
            self.origin.y.add_sat(offset.y),
        );
        self.size = Size::new(
            self.size.width.sub_sat(offset.x),
            self.size.height.sub_sat(offset.y),
        );
    }

    /// Shrinks this area by the given margins.
    pub fn add_margins(&mut self, margins: Margins)
        ensures
            final(self).origin.x.0 == sat_add(old(self).origin.x.0 as int, margins.left.0 as int),
            final(self).origin.y.0 == sat_add(old(self).origin.y.0 as int, margins.top.0 as int),
            final(self).size.width.0 == sat_sub(
                sat_sub(old(self).size.width.0 as int, margins.left.0 as int),
                margins.right.0 as int,
            ),
            final(self).size.height.0 == sat_sub(
                sat_sub(old(self).size.height.0 as int, margins.top.0 as int),
                margins.bottom.0 as int,
            ),
    {
        self.origin = Position::new(
            self.origin.x.add_sat(margins.left),
            self.origin.y.add_sat(margins.top),
        );
        self.size = Size::new(
            self.size.width.sub_sat(margins.left).sub_sat(margins.right),
            self.size.height.sub_sat(margins.top).sub_sat(margins.bottom),
        );
    }

    /// Sets the remaining height.
    pub fn set_height(&mut self, height: Mm)
        ensures
            *final(self) == (Area {
                size: Size { height, ..old(self).size },
                ..*old(self)
            }),
    {
        self.size = Size::new(self.size.width, height);
    }

    /// Splits this area into adjacent sub-areas whose widths are
    /// proportional to the given weights and sum to this area's full width
    /// exactly.  The i-th sub-area starts at `width * psum(i) / total` from
    /// the left edge, where `psum(i)` is the sum of the first `i` weights.
    pub fn split_horizontally(&self, weights: &Vec<usize>) -> (r: Vec<Area>)
        requires
            weights@.len() >= 1,
            forall|i: int| 0 <= i < weights@.len() ==> weights@[i] >= 1,
            weight_psum(weights@, weights@.len() as int) <= MAX_WEIGHT_SUM,
            0 <= self.size.width.0 <= MAX_AREA_UM,
        ensures
            r@.len() == weights@.len(),
            areas_width_sum(r@) == self.size.width.0,
            forall|i: int| 0 <= i < r@.len() ==> #[trigger] r@[i].origin.y == self.origin.y,
            forall|i: int| 0 <= i < r@.len() ==> #[trigger] r@[i].size.height == self.size.height,
            forall|i: int| 0 <= i < r@.len() ==> #[trigger] r@[i].size.width.0 == (
            self.size.width.0 * weight_psum(weights@, i + 1) / weight_psum(
                weights@,
                weights@.len() as int,
            ) - self.size.width.0 * weight_psum(weights@, i) / weight_psum(
                weights@,
                weights@.len() as int,
            )),
            forall|i: int| 0 <= i < r@.len() ==> #[trigger] r@[i].origin.x.0 == sat_add(
                self.origin.x.0 as int,
                self.size.width.0 * weight_psum(weights@, i) / weight_psum(
                    weights@,
                    weights@.len() as int,
                ),
            ),
            forall|i: int| 0 <= i < r@.len() ==> #[trigger] r@[i].size.width.0 >= 0,
            forall|i: int|
                0 <= i < r@.len() ==> #[trigger] r@[i].size.width.0 <= self.size.width.0,
    {
        proof {
            lemma_weight_psum_bounds(weights@, weights@.len() as int);
        }
        let n = weights.len();
        let mut total: usize = 0;
        let mut k: usize = 0;
        while k < n
            invariant
                n == weights@.len(),
                0 <= k <= n,
                forall|i: int| 0 <= i < weights@.len() ==> weights@[i] >= 1,
                weight_psum(weights@, n as int) <= MAX_WEIGHT_SUM,
                total == weight_psum(weights@, k as int),
                0 <= total <= weight_psum(weights@, n as int),
            decreases n - k,
        {
            proof {
                lemma_weight_psum_bounds(weights@, weights@.len() as int);
                lemma_weight_psum_mono(weights@, k as int + 1, n as int);
            }
            total = total + weights[k];
            k = k + 1;
        }
        let width = self.size.width.0;
        let mut result: Vec<Area> = Vec::new();
        let mut acc: usize = 0;
        let mut prev_x: i64 = 0;
        let mut j: usize = 0;
        proof {
            assert(weight_psum(weights@, 0) == 0);
            assert(width * 0 == 0) by (nonlinear_arith);
            assert(width * weight_psum(weights@, 0) / (total as int) == 0);
        }
        while j < n
            invariant
                n == weights@.len(),
                0 <= j <= n,
                forall|i: int| 0 <= i < weights@.len() ==> weights@[i] >= 1,
                total == weight_psum(weights@, n as int),
                1 <= total <= MAX_WEIGHT_SUM,
                0 <= width <= MAX_AREA_UM,
                width == self.size.width.0,
                acc == weight_psum(weights@, j as int),
                0 <= acc <= total,
                prev_x == width * weight_psum(weights@, j as int) / (total as int),
                0 <= prev_x <= width,
                result@.len() == j,
                areas_width_sum(result@) == prev_x,
                forall|i: int| 0 <= i < j ==> #[trigger] result@[i].origin.y == self.origin.y,
                forall|i: int| 0 <= i < j ==> #[trigger] result@[i].size.height
                    == self.size.height,
                forall|i: int| 0 <= i < j ==> #[trigger] result@[i].size.width.0 == (
                width * weight_psum(weights@, i + 1) / (total as int) - width * weight_psum(
                    weights@,
                    i,
                ) / (total as int)),
                forall|i: int| 0 <= i < j ==> #[trigger] result@[i].origin.x.0 == sat_add(
                    self.origin.x.0 as int,
                    width * weight_psum(weights@, i) / (total as int),
                ),
                forall|i: int| 0 <= i < j ==> #[trigger] result@[i].size.width.0 >= 0,
                forall|i: int| 0 <= i < j ==> #[trigger] result@[i].size.width.0 <= width,
            decreases n - j,
        {
            proof {
                lemma_weight_psum_mono(weights@, j as int + 1, n as int);
                lemma_split_step(width as int, weights@, j as int, total as int);
            }
            let new_acc = acc + weights[j];
            let next_x = mul_div(width, new_acc as i64, total as i64);
            let piece_width = next_x - prev_x;
            let sub = Area {
                origin: Position::new(self.origin.x.add_sat(Mm(prev_x)), self.origin.y),
                size: Size::new(Mm(piece_width), self.size.height),
            };
            let ghost pre = result@;
            result.push(sub);
            proof {
                assert(result@ =~= pre.push(sub));
                lemma_areas_width_sum_push(pre, sub);
            }
            acc = new_acc;
            prev_x = next_x;
            j = j + 1;
        }
        proof {
            assert(weight_psum(weights@, n as int) == total as int);
            vstd::arithmetic::div_mod::lemma_div_multiples_vanish(width as int, total as int);
            assert(width * (total as int) / (total as int) == width);
        }
        result
    }
}

/// Computes `w * num / den` for non-negative operands whose product fits
/// the machine range.
fn mul_div(w: i64, num: i64, den: i64) -> (r: i64)
    requires
        0 <= w <= MAX_AREA_UM,
        0 <= num <= MAX_WEIGHT_SUM as int,
        1 <= den <= MAX_WEIGHT_SUM as int,
    ensures
        r == w * num / (den as int),
        0 <= r,
        num <= den ==> r <= w,
{
    proof {
        assert(0 <= w * num <= MAX_AREA_UM * (MAX_WEIGHT_SUM as int)) by (nonlinear_arith)
            requires
                0 <= w <= MAX_AREA_UM,
                0 <= num <= MAX_WEIGHT_SUM as int,
        ;
        vstd::arithmetic::div_mod::lemma_div_is_ordered(0, w * num, den as int);
        if num <= den {
            assert(w * num <= w * den) by (nonlinear_arith)
                requires
                    0 <= w,
                    num <= den,
            ;
            vstd::arithmetic::div_mod::lemma_div_is_ordered(w * num, w * den, den as int);
            vstd::arithmetic::div_mod::lemma_div_multiples_vanish(w as int, den as int);
        }
    }
    w * num / den
}

/// The prefix sums of positive weights are non-negative and monotone.
proof fn lemma_weight_psum_bounds(ws: Seq<usize>, i: int)
    requires
        0 <= i <= ws.len(),
        forall|k: int| 0 <= k < ws.len() ==> ws[k] >= 1,
    ensures
        weight_psum(ws, i) >= i,
        weight_psum(ws, i) >= 0,
    decreases i,
{
    if i > 0 {
        lemma_weight_psum_bounds(ws, i - 1);
    }
}

/// Prefix sums grow with the prefix length.
proof fn lemma_weight_psum_mono(ws: Seq<usize>, i: int, j: int)
    requires
        0 <= i <= j <= ws.len(),
        forall|k: int| 0 <= k < ws.len() ==> ws[k] >= 1,
    ensures
        weight_psum(ws, i) <= weight_psum(ws, j),
        weight_psum(ws, i) >= 0,
    decreases j - i,
{
    lemma_weight_psum_bounds(ws, i);
    if i < j {
        lemma_weight_psum_mono(ws, i + 1, j);
        lemma_weight_psum_bounds(ws, i + 1);
        assert(weight_psum(ws, i + 1) == weight_psum(ws, i) + ws[i]);
    }
}

/// One step of the split: the boundary at `j + 1` lies at or beyond the
/// boundary at `j`, and within the area.
proof fn lemma_split_step(width: int, ws: Seq<usize>, j: int, total: int)
    requires
        0 <= j < ws.len(),
        forall|k: int| 0 <= k < ws.len() ==> ws[k] >= 1,
        total == weight_psum(ws, ws.len() as int),
        1 <= total,
        0 <= width,
    ensures
        width * weight_psum(ws, j) / total <= width * weight_psum(ws, j + 1) / total,
        width * weight_psum(ws, j + 1) / total <= width,
{
    lemma_weight_psum_mono(ws, j, j + 1);
    lemma_weight_psum_mono(ws, j + 1, ws.len() as int);
    lemma_weight_psum_bounds(ws, j);
    assert(width * weight_psum(ws, j) <= width * weight_psum(ws, j + 1)) by (nonlinear_arith)
        requires
            0 <= width,
            weight_psum(ws, j) <= weight_psum(ws, j + 1),
    ;
    vstd::arithmetic::div_mod::lemma_div_is_ordered(
        width * weight_psum(ws, j),
        width * weight_psum(ws, j + 1),
        total,
    );
    assert(width * weight_psum(ws, j + 1) <= width * total) by (nonlinear_arith)
        requires
            0 <= width,
            weight_psum(ws, j + 1) <= total,
    ;
    vstd::arithmetic::div_mod::lemma_div_is_ordered(
        width * weight_psum(ws, j + 1),
        width * total,
        total,
    );
    vstd::arithmetic::div_mod::lemma_div_multiples_vanish(width, total);
}

/// Appending an area adds its width to the sum.
pub proof fn lemma_areas_width_sum_push(areas: Seq<Area>, a: Area)
    ensures
        areas_width_sum(areas.push(a)) == areas_width_sum(areas) + a.size.width.0,
{
    assert(areas.push(a).drop_last() =~= areas);
    assert(areas.push(a).last() == a);
}

/// The given position translated by an area's origin, saturating.
pub open spec fn spec_shift(origin: Position, p: Position) -> Position {
    Position {
        x: Mm(sat_add(origin.x.0 as int, p.x.0 as int) as i64),
        y: Mm(sat_add(origin.y.0 as int, p.y.0 as int) as i64),
    }
}

/// A sequence of positions translated by an area's origin.
pub open spec fn spec_shift_points(origin: Position, pts: Seq<Position>) -> Seq<Position> {
    pts.map_values(|p: Position| spec_shift(origin, p))
}

impl Area {
    /// True when a line of the given height, placed with its top edge at the
    /// given vertical offset, still fits the remaining height of this area.
    pub open spec fn spec_fits_line(self, y: int, line_height: int) -> bool {
        y + line_height <= self.size.height.0
    }

    /// Checks whether a line of the given metrics, placed at the given
    /// offset, fits the remaining height of this area.
    pub fn fits_line(&self, position: Position, line_height: Mm) -> (r: bool)
        requires
            0 <= line_height.0 <= MAX_CHAR_WIDTH_UM,
        ensures
            r == self.spec_fits_line(position.y.0 as int, line_height.0 as int),
    {
        line_height.0 <= self.size.height.sub_sat(position.y).0
    }

    /// Records a text run at the given position relative to this area's
    /// origin, with the extra inter-word spacing of the run's line, in
    /// thousandths of a millimeter.  The caller has already checked that
    /// the run fits.
    pub fn put_text(
        &self,
        ops: &mut Vec<Op>,
        position: Position,
        style: Style,
        s: &str,
        extra_word_spacing: i64,
    )
        ensures
            final(ops)@.len() == old(ops)@.len() + 1,
            final(ops)@.drop_last() == old(ops)@,
            (final(ops)@.last() matches Op::Text {
                position: p,
                style: st,
                text: t,
                extra_word_spacing: x,
            } && p == spec_shift(self.origin, position) && st == style && t@ == s@ && x
                == extra_word_spacing),
            ops_text(final(ops)@) == ops_text(old(ops)@) + s@,
    {
        let op = Op::Text {
            position: Position::new(
                self.origin.x.add_sat(position.x),
                self.origin.y.add_sat(position.y),
            ),
            style,
            text: s.to_owned(),
            extra_word_spacing,
        };
        let ghost pre = ops@;
        ops.push(op);
        proof {
            assert(ops@.drop_last() =~= pre);
            lemma_ops_text_push(pre, ops@.last());
        }
    }

    /// Records a single-line text run at the given position if it fits the
    /// remaining height of this area; reports whether it did.
    pub fn print_str(
        &self,
        ops: &mut Vec<Op>,
        cache: &FontCache,
        position: Position,
        style: Style,
        s: &str,
    ) -> (r: bool)
        ensures
            r == self.spec_fits_line(
                position.y.0 as int,
                cache.spec_line_height(style.effective_font_size() as int),
            ),
            r ==> {
                &&& final(ops)@.len() == old(ops)@.len() + 1
                &&& final(ops)@.drop_last() == old(ops)@
                &&& (final(ops)@.last() matches Op::Text {
                    position: p,
                    style: st,
                    text: t,
                    extra_word_spacing: x,
                } && p == spec_shift(self.origin, position) && st == style && t@ == s@ && x == 0)
                &&& ops_text(final(ops)@) == ops_text(old(ops)@) + s@
            },
            !r ==> final(ops)@ == old(ops)@,
    {
        let line_height = style.line_height(cache);
        if self.fits_line(position, line_height) {
            self.put_text(ops, position, style, s, 0);
            true
        } else {
            false
        }
    }

    /// Records a polyline with the given relative points.
    pub fn draw_line(&self, ops: &mut Vec<Op>, points: Vec<Position>, line_style: LineStyle)
        ensures
            final(ops)@.len() == old(ops)@.len() + 1,
            final(ops)@.drop_last() == old(ops)@,
            (final(ops)@.last() matches Op::Line { points: p, style: st } && p@
                == spec_shift_points(self.origin, points@) && st == line_style),
            ops_text(final(ops)@) == ops_text(old(ops)@),
    {
        let n = points.len();
        let mut shifted: Vec<Position> = Vec::new();
        let mut i: usize = 0;
        while i < n
            invariant
                n == points@.len(),
                0 <= i <= n,
                shifted@.len() == i,
                forall|k: int| 0 <= k < i ==> shifted@[k] == spec_shift(
                    self.origin,
                    points@[k],
                ),
            decreases n - i,
        {
            let p = points[i];
            shifted.push(
                Position::new(self.origin.x.add_sat(p.x), self.origin.y.add_sat(p.y)),
            );
            i = i + 1;
        }
        proof {
            assert(shifted@ =~= spec_shift_points(self.origin, points@));
        }
        let op = Op::Line { points: shifted, style: line_style };
        let ghost pre = ops@;
        ops.push(op);
        proof {
            assert(ops@.drop_last() =~= pre);
            lemma_ops_text_push(pre, ops@.last());
        }
    }

    /// Records a run of positioned glyphs at the given relative position.
    pub fn put_glyphs(
        &self,
        ops: &mut Vec<Op>,
        position: Position,
        font_size_mpt: i64,
        x_offsets: Vec<i64>,
        glyph_ids: Vec<u16>,
        style: Style,
    )
        ensures
            final(ops)@.len() == old(ops)@.len() + 1,
            final(ops)@.drop_last() == old(ops)@,
            (final(ops)@.last() matches Op::Glyphs {
                position: p,
                font_size_mpt: f,
                x_offsets: xs,
                glyph_ids: gs,
                style: st,
            } && p == spec_shift(self.origin, position) && f == font_size_mpt && xs@
                == x_offsets@ && gs@ == glyph_ids@ && st == style),
            ops_text(final(ops)@) == ops_text(old(ops)@),
    {
        let op = Op::Glyphs {
            position: Position::new(
                self.origin.x.add_sat(position.x),
                self.origin.y.add_sat(position.y),
            ),
            font_size_mpt,
            x_offsets,
            glyph_ids,
            style,
        };
        let ghost pre = ops@;
        ops.push(op);
        proof {
            assert(ops@.drop_last() =~= pre);
            lemma_ops_text_push(pre, ops@.last());
        }
    }
}

/// True when `post` extends `pre`: the old operations are still there, in
/// order, at the front.
pub open spec fn ops_extended(pre: Seq<Op>, post: Seq<Op>) -> bool {
    post.len() >= pre.len() && post.take(pre.len() as int) == pre
}

/// Extension of operation lists is reflexive and transitive.
pub proof fn lemma_ops_extended_trans(a: Seq<Op>, b: Seq<Op>, c: Seq<Op>)
    requires
        ops_extended(a, b),
        ops_extended(b, c),
    ensures
        ops_extended(a, c),
{
    assert(c.take(a.len() as int) =~= b.take(a.len() as int));
    assert(b.take(a.len() as int) =~= b.take(b.len() as int).take(a.len() as int));
}

/// Extension of operation lists is reflexive.
pub proof fn lemma_ops_extended_refl(a: Seq<Op>)
    ensures
        ops_extended(a, a),
{
    assert(a.take(a.len() as int) =~= a);
}

/// Appending one operation extends the list.
pub proof fn lemma_ops_extended_push(a: Seq<Op>, op: Op)
    ensures
        ops_extended(a, a.push(op)),
{
    assert(a.push(op).take(a.len() as int) =~= a);
}

/// The collaborators available to elements during a render pass.
pub struct Context {
    /// The font metrics the engine measures text with.
    pub font_cache: FontCache,
    /// The syntax highlighter for code blocks, if one is available.
    pub highlighter: Option<crate::highlight::SyntaxHighlighter>,
}

impl Context {
    /// Builds a context from a font cache, without a syntax highlighter.
    pub fn new(font_cache: FontCache) -> (r: Context)
        ensures
            r.font_cache == font_cache,
            r.highlighter is None,
    {
        Context { font_cache, highlighter: None }
    }

    /// Builds a context from a font cache and a syntax highlighter.
    pub fn with_highlighter(
        font_cache: FontCache,
        highlighter: crate::highlight::SyntaxHighlighter,
    ) -> (r: Context)
        ensures
            r.font_cache == font_cache,
            r.highlighter is Some,
    {
        Context { font_cache, highlighter: Some(highlighter) }
    }
}

} // verus!
