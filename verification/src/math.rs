use vstd::prelude::*;
use crate::error::{Error, ErrorKind};
use crate::geom::{Mm, Position, Size};
use crate::render::{ops_extended, ops_text, Area, Context, Op, RenderResult, MAX_AREA_UM};
use crate::style::{Alignment, Color, LineStyle, Style};

verus! {

/// The largest difference between two vertical origins that still lands
/// two glyphs in the same batch, in thousandths of a millimeter.
pub const POSITIONING_ACCURACY_UM: i64 = 10;

/// The largest magnitude a stored horizontal offset may reach, in
/// thousandths of an em.
pub const MAX_EM_OFFSET: i64 = 4_000_000_000_000_000;

/// A batch of glyphs sharing one vertical origin (within the positioning
/// tolerance), one font size and one color, drawable as a single
/// positioned-glyph run.  Horizontal offsets are stored as deltas from the
/// previous glyph's right edge, in thousandths of an em relative to the
/// batch's font size.
pub struct TextSection {
    /// Vertical origin of the batch, in thousandths of a millimeter.
    pub y_origin: Mm,
    /// Font size of the batch, in thousandths of a point.
    pub font_size_mpt: i64,
    /// Horizontal offsets of the glyphs, in thousandths of an em.
    pub x_offsets: Vec<i64>,
    /// The glyph identifiers, in emission order.
    pub glyph_ids: Vec<u16>,
    /// Color of the batch.
    pub color: Color,
    /// The right edge of the last glyph, in thousandths of an em.
    pub last_x: i64,
}

/// An axis-aligned filled rectangle in physical units, used for fraction
/// bars, radical overbars and similar rules.
pub struct Rule {
    /// Left edge, in thousandths of a millimeter.
    pub x: Mm,
    /// Top edge, in thousandths of a millimeter.
    pub y: Mm,
    /// Width, in thousandths of a millimeter.
    pub width: Mm,
    /// Height, in thousandths of a millimeter.
    pub height: Mm,
    /// Fill color.
    pub color: Color,
}

/// A drawing command produced by the glyph batcher.
pub enum MathOp {
    /// A batched run of glyphs.
    TextSection(TextSection),
    /// A filled rectangle.
    Rule(Rule),
}

/// Whether a glyph event with the given vertical origin, font size and
/// color may join the given batch: the origins differ by at most the
/// positioning tolerance and the font size and color are equal.
pub open spec fn spec_can_append(sec: TextSection, y: int, font_size_mpt: i64, color: Color) -> bool {
    &&& -POSITIONING_ACCURACY_UM <= sec.y_origin.0 - y <= POSITIONING_ACCURACY_UM
    &&& sec.font_size_mpt == font_size_mpt
    &&& sec.color == color
}

/// The first batch at or after position `i` that the given glyph event may
/// join, if any.
pub open spec fn spec_find_match_from(
    ops: Seq<MathOp>,
    i: int,
    y: int,
    font_size_mpt: i64,
    color: Color,
) -> Option<int>
    decreases ops.len() - i,
{
    if i < 0 || i >= ops.len() {
        None
    } else if ops[i] matches MathOp::TextSection(sec) && spec_can_append(
        sec,
        y,
        font_size_mpt,
        color,
    ) {
        Some(i)
    } else {
        spec_find_match_from(ops, i + 1, y, font_size_mpt, color)
    }
}

/// How appending a new batch changes the matching: an event that already
/// had a matching batch keeps it — batches are matched in first-occurrence
/// order — and an event without one matches the new batch exactly when it
/// may join it.
pub proof fn lemma_find_match_push(
    ops: Seq<MathOp>,
    sec: TextSection,
    i: int,
    y: int,
    font_size_mpt: i64,
    color: Color,
)
    requires
        0 <= i <= ops.len(),
    ensures
        spec_find_match_from(ops.push(MathOp::TextSection(sec)), i, y, font_size_mpt, color)
            == (match spec_find_match_from(ops, i, y, font_size_mpt, color) {
            Some(k) => Some(k),
            None => if spec_can_append(sec, y, font_size_mpt, color) {
                Some(ops.len() as int)
            } else {
                None
            },
        }),
    decreases ops.len() - i,
{
    let pushed = ops.push(MathOp::TextSection(sec));
    if i == ops.len() {
        assert(pushed[i] == MathOp::TextSection(sec));
        assert(spec_find_match_from(pushed, i + 1, y, font_size_mpt, color) is None);
    } else {
        assert(pushed[i] == ops[i]);
        lemma_find_match_push(ops, sec, i + 1, y, font_size_mpt, color);
    }
}

/// The glyph batching law: given a batcher state in which the event
/// `(y2, font size, color)` has no matching batch, appending a batch that
/// starts at `y1` with the same font size and color makes the event match
/// that new batch exactly when the two vertical origins differ by at most
/// the positioning tolerance; beyond the tolerance the event still has no
/// batch to join and must start its own.
pub proof fn lemma_glyph_batching(
    ops: Seq<MathOp>,
    sec: TextSection,
    y1: int,
    y2: int,
    font_size_mpt: i64,
    color: Color,
)
    requires
        sec.y_origin.0 == y1,
        sec.font_size_mpt == font_size_mpt,
        sec.color == color,
        spec_find_match_from(ops, 0, y2, font_size_mpt, color) is None,
    ensures
        (-POSITIONING_ACCURACY_UM <= y1 - y2 <= POSITIONING_ACCURACY_UM) ==> spec_find_match_from(
            ops.push(MathOp::TextSection(sec)),
            0,
            y2,
            font_size_mpt,
            color,
        ) == Some(ops.len() as int),
        (y1 - y2 > POSITIONING_ACCURACY_UM || y1 - y2 < -POSITIONING_ACCURACY_UM)
            ==> spec_find_match_from(
            ops.push(MathOp::TextSection(sec)),
            0,
            y2,
            font_size_mpt,
            color,
        ) is None,
{
    lemma_find_match_push(ops, sec, 0, y2, font_size_mpt, color);
}

/// Converts a distance in thousandths of a millimeter into thousandths of
/// an em at the given font size in thousandths of a point.  One point is
/// 127/360 thousandths of a millimeter per thousandth of an em, so the
/// exact ratio is 360000/127 per point; both signs round toward zero.
pub open spec fn spec_um_to_em_milli(um: int, font_size_mpt: int) -> int {
    if um >= 0 {
        um * 360_000 / (127 * font_size_mpt)
    } else {
        -((-um) * 360_000 / (127 * font_size_mpt))
    }
}

/// Converts a distance in thousandths of a millimeter into thousandths of
/// an em at the given font size.
pub fn um_to_em_milli(um: i64, font_size_mpt: i64) -> (r: i64)
    requires
        -MAX_AREA_UM <= um <= MAX_AREA_UM,
        1 <= font_size_mpt <= 1_000_000,
    ensures
        r == spec_um_to_em_milli(um as int, font_size_mpt as int),
        -MAX_EM_OFFSET <= r <= MAX_EM_OFFSET,
{
    proof {
        assert(0 <= MAX_AREA_UM * 360_000) by (nonlinear_arith);
        if um >= 0 {
            assert(um * 360_000 <= MAX_AREA_UM * 360_000) by (nonlinear_arith)
                requires
                    0 <= um <= MAX_AREA_UM,
            ;
            assert(0 <= um * 360_000) by (nonlinear_arith)
                requires
                    um >= 0,
            ;
            vstd::arithmetic::div_mod::lemma_div_is_ordered(
                0,
                um * 360_000,
                127 * font_size_mpt,
            );
            vstd::arithmetic::div_mod::lemma_div_is_ordered_by_denominator(
                um * 360_000,
                127,
                127 * font_size_mpt,
            );
            vstd::arithmetic::div_mod::lemma_div_is_ordered(
                um * 360_000,
                MAX_AREA_UM * 360_000,
                127,
            );
        } else {
            assert((-um) * 360_000 <= MAX_AREA_UM * 360_000) by (nonlinear_arith)
                requires
                    0 <= -um <= MAX_AREA_UM,
            ;
            assert(0 <= (-um) * 360_000) by (nonlinear_arith)
                requires
                    -um >= 0,
            ;
            vstd::arithmetic::div_mod::lemma_div_is_ordered(
                0,
                (-um) * 360_000,
                127 * font_size_mpt,
            );
            vstd::arithmetic::div_mod::lemma_div_is_ordered_by_denominator(
                (-um) * 360_000,
                127,
                127 * font_size_mpt,
            );
            vstd::arithmetic::div_mod::lemma_div_is_ordered(
                (-um) * 360_000,
                MAX_AREA_UM * 360_000,
                127,
            );
        }
    }
    if um >= 0 {
        um * 360_000 / (127 * font_size_mpt)
    } else {
        -((-um) * 360_000 / (127 * font_size_mpt))
    }
}

/// Receives glyph, rule and color events from a math layout engine and
/// batches them into a minimal ordered list of drawing commands.  Output
/// order is preserved relative to input order: a glyph joins the first
/// existing batch it may join and new batches and rules are appended at
/// the end, so overlapping rules and text keep their stacking order.
pub struct MathBlock {
    /// Bounding box of the laid-out math, in thousandths of a millimeter.
    pub size: Size,
    /// The drawing commands batched so far.
    pub math_ops: Vec<MathOp>,
    /// The color stamped on subsequent events, toggled by color events.
    pub current_color: Color,
}

impl MathBlock {
    /// Every stored batch keeps its running right edge within the exact
    /// arithmetic range.
    pub open spec fn wf(self) -> bool {
        forall|i: int|
            0 <= i < self.math_ops@.len() ==> ((#[trigger] self.math_ops@[i]) matches
            MathOp::TextSection(sec) ==> -2 * MAX_EM_OFFSET <= sec.last_x <= 2 * MAX_EM_OFFSET)
    }

    /// Creates an empty math block with the given bounding box and black
    /// as the current color.
    pub fn new(size: Size) -> (r: MathBlock)
        ensures
            r.size == size,
            r.math_ops@.len() == 0,
            r.current_color == Color::Rgb(0u8, 0u8, 0u8),
            r.wf(),
    {
        MathBlock { size, math_ops: Vec::new(), current_color: Color::Rgb(0, 0, 0) }
    }

    /// The drawing commands batched so far.
    pub fn ops(&self) -> (r: &Vec<MathOp>)
        ensures
            r == &self.math_ops,
    {
        &self.math_ops
    }

    /// Records a glyph event: the glyph is appended to the first batch
    /// whose vertical origin is within the positioning tolerance and whose
    /// font size and color equal the event's, with its horizontal offset
    /// stored as the delta from that batch's previous right edge; when no
    /// batch matches, a new batch holding just this glyph is appended.
    pub fn push_glyph(
        &mut self,
        x: Mm,
        y: Mm,
        glyph_id: u16,
        font_size_mpt: i64,
        advance_em_milli: i64,
    )
        requires
            old(self).wf(),
            -MAX_AREA_UM <= x.0 <= MAX_AREA_UM,
            1 <= font_size_mpt <= 1_000_000,
            -1_000_000_000 <= advance_em_milli <= 1_000_000_000,
        ensures
            final(self).wf(),
            final(self).size == old(self).size,
            final(self).current_color == old(self).current_color,
            ({
                let x_em = spec_um_to_em_milli(x.0 as int, font_size_mpt as int);
                match spec_find_match_from(
                    old(self).math_ops@,
                    0,
                    y.0 as int,
                    font_size_mpt,
                    old(self).current_color,
                ) {
                    Some(k) => {
                        &&& final(self).math_ops@.len() == old(self).math_ops@.len()
                        &&& (forall|j: int|
                            0 <= j < old(self).math_ops@.len() && j != k ==> final(self).math_ops@[j] == old(self).math_ops@[j])
                        &&& (old(self).math_ops@[k] matches MathOp::TextSection(s1) && (final(self).math_ops@[k] matches MathOp::TextSection(s2) && s2.x_offsets@
                            == s1.x_offsets@.push((x_em - s1.last_x) as i64) && s2.glyph_ids@
                            == s1.glyph_ids@.push(glyph_id) && s2.last_x == x_em
                            + advance_em_milli && s2.y_origin == s1.y_origin && s2.font_size_mpt
                            == s1.font_size_mpt && s2.color == s1.color))
                    },
                    None => {
                        &&& final(self).math_ops@.len() == old(self).math_ops@.len() + 1
                        &&& (forall|j: int|
                            0 <= j < old(self).math_ops@.len() ==> final(self).math_ops@[j] == old(self).math_ops@[j])
                        &&& (final(self).math_ops@.last() matches MathOp::TextSection(s)
                            && s.y_origin == y && s.font_size_mpt == font_size_mpt && s.color
                            == old(self).current_color && s.x_offsets@ == seq![x_em as i64]
                            && s.glyph_ids@ == seq![glyph_id] && s.last_x == x_em
                            + advance_em_milli)
                    },
                }
            }),
    {
        let x_em = um_to_em_milli(x.0, font_size_mpt);
        let color = self.current_color;
        let n = self.math_ops.len();
        let mut i: usize = 0;
        let mut found: Option<usize> = None;
        while found.is_none() && i < n
            invariant
                n == self.math_ops@.len(),
                0 <= i <= n,
                (found matches Some(k) ==> 0 <= k < n && spec_find_match_from(
                    self.math_ops@,
                    0,
                    y.0 as int,
                    font_size_mpt,
                    color,
                ) == Some(k as int) && (self.math_ops@[k as int] is TextSection)),
                found is None ==> spec_find_match_from(
                    self.math_ops@,
                    0,
                    y.0 as int,
                    font_size_mpt,
                    color,
                ) == spec_find_match_from(
                    self.math_ops@,
                    i as int,
                    y.0 as int,
                    font_size_mpt,
                    color,
                ),
            decreases n - i, (if found is None { 1int } else { 0int }),
        {
            let matches_here = match &self.math_ops[i] {
                MathOp::TextSection(sec) => {
                    let dy = sec.y_origin.sub_sat(y);
                    -POSITIONING_ACCURACY_UM <= dy.0 && dy.0 <= POSITIONING_ACCURACY_UM
                        && sec.font_size_mpt == font_size_mpt && color_eq(sec.color, color)
                },
                MathOp::Rule(_) => false,
            };
            proof {
                if matches_here {
                    assert(self.math_ops@[i as int] matches MathOp::TextSection(sec)
                        && spec_can_append(sec, y.0 as int, font_size_mpt, color));
                }
            }
            if matches_here {
                found = Some(i);
            } else {
                i = i + 1;
            }
        }
        match found {
            Some(k) => {
                let section: &mut MathOp = &mut self.math_ops[k];
                match section {
                    MathOp::TextSection(sec) => {
                        sec.x_offsets.push(x_em - sec.last_x);
                        sec.glyph_ids.push(glyph_id);
                        sec.last_x = x_em + advance_em_milli;
                    },
                    MathOp::Rule(_) => {},
                }
            },
            None => {
                let mut x_offsets: Vec<i64> = Vec::new();
                x_offsets.push(x_em);
                let mut glyph_ids: Vec<u16> = Vec::new();
                glyph_ids.push(glyph_id);
                let section = TextSection {
                    y_origin: y,
                    font_size_mpt,
                    x_offsets,
                    glyph_ids,
                    color,
                    last_x: x_em + advance_em_milli,
                };
                self.math_ops.push(MathOp::TextSection(section));
            },
        }
    }

    /// Records a filled rectangle in the current color.
    pub fn push_rule(&mut self, x: Mm, y: Mm, width: Mm, height: Mm)
        requires
            old(self).wf(),
        ensures
            final(self).wf(),
            final(self).size == old(self).size,
            final(self).current_color == old(self).current_color,
            final(self).math_ops@.len() == old(self).math_ops@.len() + 1,
            forall|j: int|
                0 <= j < old(self).math_ops@.len() ==> final(self).math_ops@[j] == old(self).math_ops@[j],
            (final(self).math_ops@.last() matches MathOp::Rule(r) && r.x == x && r.y == y
                && r.width == width && r.height == height && r.color == old(self).current_color),
    {
        let rule = Rule { x, y, width, height, color: self.current_color };
        self.math_ops.push(MathOp::Rule(rule));
    }

    /// Starts a color span: subsequent glyphs and rules carry this color.
    pub fn begin_color(&mut self, red: u8, green: u8, blue: u8)
        ensures
            *final(self) == (MathBlock {
                current_color: Color::Rgb(red, green, blue),
                ..*old(self)
            }),
    {
        self.current_color = Color::Rgb(red, green, blue);
    }

    /// Ends a color span: subsequent glyphs and rules are black again.
    pub fn end_color(&mut self)
        ensures
            *final(self) == (MathBlock {
                current_color: Color::Rgb(0u8, 0u8, 0u8),
                ..*old(self)
            }),
    {
        self.current_color = Color::Rgb(0, 0, 0);
    }
}

/// Compares two colors.
fn color_eq(a: Color, b: Color) -> (r: bool)
    ensures
        r == (a == b),
{
    match (a, b) {
        (Color::Rgb(r1, g1, b1), Color::Rgb(r2, g2, b2)) => r1 == r2 && g1 == g2 && b1 == b2,
    }
}

/// The local (unshifted) polyline of a filled rule, at the given
/// horizontal alignment offset: the rectangle's four corners and the
/// starting corner again, so the closed outline can be filled.
pub open spec fn spec_rule_points(x_off: int, rl: Rule) -> Seq<Position> {
    let x0 = crate::geom::sat_add(x_off, rl.x.0 as int);
    let x1 = crate::geom::sat_add(x0, rl.width.0 as int);
    let y0 = rl.y.0 as int;
    let y1 = crate::geom::sat_add(y0, rl.height.0 as int);
    seq![
        Position { x: Mm(x0 as i64), y: Mm(y0 as i64) },
        Position { x: Mm(x1 as i64), y: Mm(y0 as i64) },
        Position { x: Mm(x1 as i64), y: Mm(y1 as i64) },
        Position { x: Mm(x0 as i64), y: Mm(y1 as i64) },
        Position { x: Mm(x0 as i64), y: Mm(y0 as i64) },
    ]
}

/// What one batched math command draws: a glyph batch becomes one
/// positioned-glyph operation at the alignment offset and the batch's
/// vertical origin, in the inherited style recolored with the batch's
/// color; a rule becomes one filled closed polyline.
pub open spec fn spec_math_op_drawn(
    area: Area,
    x_off: int,
    style: Style,
    mop: MathOp,
    op: Op,
) -> bool {
    match mop {
        MathOp::TextSection(sec) => op matches Op::Glyphs {
            position,
            font_size_mpt,
            x_offsets,
            glyph_ids,
            style: st,
        } && position == crate::render::spec_shift(
            area.origin,
            Position { x: Mm(x_off as i64), y: sec.y_origin },
        ) && font_size_mpt == sec.font_size_mpt && x_offsets@ == sec.x_offsets@ && glyph_ids@
            == sec.glyph_ids@ && st == (Style { color: Some(sec.color), ..style }),
        MathOp::Rule(rl) => op matches Op::Line { points, style: st } && points@
            == crate::render::spec_shift_points(area.origin, spec_rule_points(x_off, rl)) && st
            == (LineStyle {
            thickness: Mm(100),
            color: rl.color,
            filled: true,
        }),
    }
}

/// An element that draws a block of laid-out mathematics.  The math layout
/// engine is an external collaborator: it turns the formula source into a
/// glyph and rule event stream, which the host feeds into a [`MathBlock`];
/// the element then aligns the block horizontally and hands its batched
/// commands to the drawing surface.  Rendering without an attached block
/// is a usage error, reported as a missing capability.
pub struct Math {
    /// The formula source the block was laid out from.
    pub source: String,
    /// The block's horizontal alignment within the area.
    pub alignment: Alignment,
    /// The laid-out and batched glyph block, once the host attached it.
    pub block: Option<MathBlock>,
}

impl Math {
    /// Well-formedness: an attached block has a sane bounding box and
    /// well-formed batches.
    pub open spec fn wf(self) -> bool {
        self.block matches Some(b) ==> b.wf() && 0 <= b.size.width.0
            <= crate::elements::MAX_LINE_WIDTH_UM
    }

    /// Creates a math element for the given formula source, left-aligned,
    /// with no laid-out block attached yet.
    pub fn new(source: &str) -> (r: Math)
        ensures
            r.source@ == source@,
            r.alignment == Alignment::Left,
            r.block is None,
            r.wf(),
    {
        Math { source: source.to_owned(), alignment: Alignment::Left, block: None }
    }

    /// Sets the horizontal alignment and returns the element.
    pub fn aligned(self, alignment: Alignment) -> (r: Math)
        ensures
            r == (Math { alignment, ..self }),
    {
        Math { alignment, ..self }
    }

    /// Attaches the laid-out glyph block produced by the math layout
    /// engine for this element's source.
    pub fn set_block(&mut self, block: MathBlock)
        requires
            block.wf(),
            0 <= block.size.width.0 <= crate::elements::MAX_LINE_WIDTH_UM,
        ensures
            *final(self) == (Math { block: Some(block), ..*old(self) }),
            final(self).wf(),
    {
        self.block = Some(block);
    }

    /// Draws the attached block: every batched command becomes exactly one
    /// drawing operation, in order, shifted right by the alignment offset
    /// of the block's width within the area.  Glyph runs are drawn in the
    /// inherited style recolored with each batch's color, so a dedicated
    /// math font family must be set on the style handed to this element.
    /// Without an attached block the call fails with a missing-capability
    /// error and draws nothing.
    pub fn render(
        &mut self,
        context: &Context,
        area: Area,
        style: Style,
        ops: &mut Vec<Op>,
    ) -> (r: Result<RenderResult, Error>)
        requires
            old(self).wf(),
            area.size.width.0 <= MAX_AREA_UM,
        ensures
            final(self).wf(),
            *final(self) == *old(self),
            ops_extended(old(ops)@, final(ops)@),
            (r is Err <==> old(self).block is None),
            (r matches Err(e) ==> e.kind == ErrorKind::MissingCapability && final(ops)@ == old(
                ops,
            )@),
            (old(self).block matches Some(b) ==> {
                let x_off = if -MAX_AREA_UM <= area.size.width.0 {
                    crate::elements::spec_offset(
                        old(self).alignment,
                        b.size.width.0 as int,
                        area.size.width.0 as int,
                    )
                } else {
                    0
                };
                &&& (r matches Ok(res) && !res.has_more && res.size == b.size)
                &&& final(ops)@.len() == old(ops)@.len() + b.math_ops@.len()
                &&& (forall|k: int|
                    0 <= k < b.math_ops@.len() ==> spec_math_op_drawn(
                        area,
                        x_off,
                        style,
                        b.math_ops@[k],
                        #[trigger] final(ops)@[old(ops)@.len() + k],
                    ))
                &&& ops_text(final(ops)@) == ops_text(old(ops)@)
            }),
    {
        let ghost ops0 = ops@;
        proof {
            crate::render::lemma_ops_extended_refl(ops@);
        }
        let block = match &self.block {
            Some(b) => b,
            None => {
                return Err(
                    Error::new(
                        "math element rendered without an attached laid-out block",
                        ErrorKind::MissingCapability,
                    ),
                );
            },
        };
        let x_off: i64 = if area.size.width.0 >= -MAX_AREA_UM {
            crate::elements::alignment_offset(self.alignment, block.size.width, area.size.width).0
        } else {
            0
        };
        let n = block.math_ops.len();
        let mut k: usize = 0;
        while k < n
            invariant
                self.block matches Some(b2) && b2 == block,
                n == block.math_ops@.len(),
                0 <= k <= n,
                block.wf(),
                ops0 == old(ops)@,
                ops@.len() == ops0.len() + k,
                ops_extended(ops0, ops@),
                ops_text(ops@) == ops_text(ops0),
                forall|j: int|
                    0 <= j < k ==> spec_math_op_drawn(
                        area,
                        x_off as int,
                        style,
                        block.math_ops@[j],
                        #[trigger] ops@[ops0.len() + j],
                    ),
            decreases n - k,
        {
            let ghost pre = ops@;
            match &block.math_ops[k] {
                MathOp::TextSection(sec) => {
                    let xs = copy_i64s(&sec.x_offsets);
                    let gs = copy_u16s(&sec.glyph_ids);
                    area.put_glyphs(
                        ops,
                        Position::new(Mm(x_off), sec.y_origin),
                        sec.font_size_mpt,
                        xs,
                        gs,
                        style.with_color(sec.color),
                    );
                },
                MathOp::Rule(rl) => {
                    let x0 = Mm(x_off).add_sat(rl.x);
                    let x1 = x0.add_sat(rl.width);
                    let y0 = rl.y;
                    let y1 = y0.add_sat(rl.height);
                    let mut pts: Vec<Position> = Vec::new();
                    pts.push(Position::new(x0, y0));
                    pts.push(Position::new(x1, y0));
                    pts.push(Position::new(x1, y1));
                    pts.push(Position::new(x0, y1));
                    pts.push(Position::new(x0, y0));
                    proof {
                        assert(pts@ =~= spec_rule_points(
                            x_off as int,
                            block.math_ops@[k as int]->Rule_0,
                        ));
                    }
                    area.draw_line(
                        ops,
                        pts,
                        LineStyle::new().with_color(rl.color).with_filled(true),
                    );
                },
            }
            proof {
                assert(ops@.take(pre.len() as int) =~= ops@.drop_last());
                crate::render::lemma_ops_extended_trans(ops0, pre, ops@);
                assert forall|j: int| 0 <= j < pre.len() implies ops@[j] == pre[j] by {
                    assert(ops@.drop_last()[j] == ops@[j]);
                }
                assert(ops@[ops0.len() + k] == ops@.last());
                assert(spec_math_op_drawn(
                    area,
                    x_off as int,
                    style,
                    block.math_ops@[k as int],
                    ops@.last(),
                ));
                assert forall|j: int|
                    0 <= j < k implies spec_math_op_drawn(
                        area,
                        x_off as int,
                        style,
                        block.math_ops@[j],
                        ops@[ops0.len() + j],
                    ) by {
                    assert(ops@[ops0.len() + j] == pre[ops0.len() + j]);
                    assert(spec_math_op_drawn(
                        area,
                        x_off as int,
                        style,
                        block.math_ops@[j],
                        pre[ops0.len() + j],
                    ));
                }
            }
            k = k + 1;
        }
        let mut result = RenderResult::new();
        result.size = block.size;
        Ok(result)
    }
}

impl crate::elements::IntoBoxedElement for Math {
    open spec fn as_element(self) -> crate::elements::Element {
        crate::elements::Element::Math(self)
    }

    fn into_boxed_element(self) -> (r: Box<crate::elements::Element>) {
        Box::new(crate::elements::Element::Math(self))
    }
}

/// Copies a list of offsets.
fn copy_i64s(v: &Vec<i64>) -> (r: Vec<i64>)
    ensures
        r@ == v@,
{
    let mut out: Vec<i64> = Vec::new();
    let n = v.len();
    let mut i: usize = 0;
    while i < n
        invariant
            0 <= i <= n,
            n == v@.len(),
            out@ == v@.take(i as int),
        decreases n - i,
    {
        out.push(v[i]);
        proof {
            assert(out@ =~= v@.take(i + 1 as int));
        }
        i = i + 1;
    }
    proof {
        assert(v@.take(n as int) =~= v@);
    }
    out
}

/// Copies a list of glyph identifiers.
fn copy_u16s(v: &Vec<u16>) -> (r: Vec<u16>)
    ensures
        r@ == v@,
{
    let mut out: Vec<u16> = Vec::new();
    let n = v.len();
    let mut i: usize = 0;
    while i < n
        invariant
            0 <= i <= n,
            n == v@.len(),
            out@ == v@.take(i as int),
        decreases n - i,
    {
        out.push(v[i]);
        proof {
            assert(out@ =~= v@.take(i + 1 as int));
        }
        i = i + 1;
    }
    proof {
        assert(v@.take(n as int) =~= v@);
    }
    out
}

} // verus!
