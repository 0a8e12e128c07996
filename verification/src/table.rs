use vstd::prelude::*;
use crate::elements::{Element, IntoBoxedElement};
use crate::error::{Error, ErrorKind};
use crate::geom::{sat_add, Margins, Mm, Position, Size};
use crate::render::{
    ops_extended, ops_text, weight_psum, Area, Context, Op, RenderResult, MAX_AREA_UM,
    MAX_WEIGHT_SUM,
};
use crate::style::{LineStyle, Style};

verus! {

broadcast use vstd::std_specs::vec::axiom_vec_index_decreases;

/// A pluggable border and background strategy for the cells of a table.
/// The decorator is stateful across one table render pass: it learns the
/// table's shape once, may shrink each cell's drawable area before the cell
/// renders, and draws around each cell after it has rendered.
pub trait CellDecorator {
    /// Tells the decorator the table's column and row counts.  Called once
    /// before any cell is prepared or decorated.
    fn set_table_size(&mut self, num_columns: usize, num_rows: usize);

    /// Returns the area the cell at the given column and row may draw into.
    fn prepare_cell(&self, column: usize, row: usize, area: Area) -> Area;

    /// Draws around the cell at the given column and row, rendered within
    /// the given area at the given row height, and returns the total row
    /// height including any drawn borders.
    fn decorate_cell(
        &mut self,
        column: usize,
        row: usize,
        has_more: bool,
        area: Area,
        row_height: Mm,
        ops: &mut Vec<Op>,
    ) -> Mm;
}

/// A cell decorator that draws frames around table cells.  Outer borders
/// are drawn at the table's true first and last row and column, inner
/// borders between interior rows and columns, and a separate continuation
/// border at a row that pauses because of a page break, so a genuinely
/// final bottom border is distinguishable from a page-break cut.  The
/// decorator remembers the last fully completed row to tell a fresh row
/// from a resumed one.
pub struct FrameCellDecorator {
    /// Whether borders between interior rows and columns are drawn.
    pub inner: bool,
    /// Whether borders at the table's outer edges are drawn.
    pub outer: bool,
    /// Whether continuation borders are drawn at page-break cuts.
    pub cont: bool,
    /// The style of the border lines.
    pub line_style: LineStyle,
    /// The table's column count.
    pub num_columns: usize,
    /// The table's row count.
    pub num_rows: usize,
    /// The last row that was fully rendered, if any.
    pub last_row: Option<usize>,
}

impl FrameCellDecorator {
    /// A well-formed decorator has a sane line thickness.
    pub open spec fn wf(self) -> bool {
        self.line_style.wf() && self.line_style.thickness.0 <= MAX_AREA_UM
    }

    /// Whether a border is drawn left of the given column: the outer
    /// setting at the first column, the inner setting elsewhere.
    pub open spec fn spec_print_left(self, column: int) -> bool {
        if column == 0 {
            self.outer
        } else {
            self.inner
        }
    }

    /// Whether a border is drawn right of the given column: the outer
    /// setting at the last column, nothing elsewhere.
    pub open spec fn spec_print_right(self, column: int) -> bool {
        if column + 1 == self.num_columns {
            self.outer
        } else {
            false
        }
    }

    /// Whether a border is drawn above the given row: for a fresh row, the
    /// outer setting at the first row and the inner setting elsewhere; for
    /// a row resumed after a page break, the continuation setting.
    pub open spec fn spec_print_top(self, row: int) -> bool {
        if match self.last_row {
            Some(last) => row > last,
            None => true,
        } {
            if row == 0 {
                self.outer
            } else {
                self.inner
            }
        } else {
            self.cont
        }
    }

    /// Whether a border is drawn below the given row: the continuation
    /// setting when the row pauses at a page break, the outer setting at
    /// the table's last row, nothing elsewhere.
    pub open spec fn spec_print_bottom(self, row: int, has_more: bool) -> bool {
        if has_more {
            self.cont
        } else if row + 1 == self.num_rows {
            self.outer
        } else {
            false
        }
    }

    /// Creates a frame cell decorator with the given settings for inner,
    /// outer and continuation borders, in the default line style.
    pub fn new(inner: bool, outer: bool, cont: bool) -> (r: FrameCellDecorator)
        ensures
            r.inner == inner,
            r.outer == outer,
            r.cont == cont,
            r.last_row is None,
            r.num_columns == 0,
            r.num_rows == 0,
            r.line_style == (LineStyle {
                thickness: Mm(100),
                color: crate::style::Color::Rgb(0u8, 0u8, 0u8),
                filled: false,
            }),
            r.wf(),
    {
        FrameCellDecorator {
            inner,
            outer,
            cont,
            line_style: LineStyle::new(),
            num_columns: 0,
            num_rows: 0,
            last_row: None,
        }
    }

    /// Creates a frame cell decorator with the given border settings and
    /// line style.
    pub fn with_line_style(inner: bool, outer: bool, cont: bool, line_style: LineStyle) -> (r:
        FrameCellDecorator)
        requires
            line_style.wf(),
            line_style.thickness.0 <= MAX_AREA_UM,
        ensures
            r.inner == inner,
            r.outer == outer,
            r.cont == cont,
            r.line_style == line_style,
            r.last_row is None,
            r.num_columns == 0,
            r.num_rows == 0,
            r.wf(),
    {
        FrameCellDecorator {
            inner,
            outer,
            cont,
            line_style,
            num_columns: 0,
            num_rows: 0,
            last_row: None,
        }
    }

    fn print_left(&self, column: usize) -> (r: bool)
        ensures
            r == self.spec_print_left(column as int),
    {
        if column == 0 {
            self.outer
        } else {
            self.inner
        }
    }

    fn print_right(&self, column: usize) -> (r: bool)
        ensures
            r == self.spec_print_right(column as int),
    {
        if column < usize::MAX && column + 1 == self.num_columns {
            self.outer
        } else {
            false
        }
    }

    fn print_top(&self, row: usize) -> (r: bool)
        ensures
            r == self.spec_print_top(row as int),
    {
        let fresh = match self.last_row {
            Some(last) => row > last,
            None => true,
        };
        if fresh {
            if row == 0 {
                self.outer
            } else {
                self.inner
            }
        } else {
            self.cont
        }
    }

    fn print_bottom(&self, row: usize, has_more: bool) -> (r: bool)
        ensures
            r == self.spec_print_bottom(row as int, has_more),
    {
        if has_more {
            self.cont
        } else if row < usize::MAX && row + 1 == self.num_rows {
            self.outer
        } else {
            false
        }
    }
}

/// The value `t` when the flag is set and zero otherwise.
pub open spec fn spec_border_margin(b: bool, t: int) -> int {
    if b {
        t
    } else {
        0
    }
}

/// One when the flag is set and zero otherwise: how many border lines a
/// printed edge contributes.
pub open spec fn spec_border_count(b: bool) -> int {
    if b {
        1
    } else {
        0
    }
}

/// Exactly which border lines decorating one cell appends: a top rule if
/// and only if a border is printed above the row, then a right, a bottom
/// and a left rule for their printed edges, in that order, each inset by
/// half the line thickness so its centerline lies on the nominal cell
/// edge, and nothing else.
pub open spec fn spec_cell_borders(
    dec: FrameCellDecorator,
    column: int,
    row: int,
    has_more: bool,
    area: Area,
    row_height: Mm,
    pre: Seq<Op>,
    post: Seq<Op>,
) -> bool {
    let t = dec.line_style.thickness.0 as int;
    let off = t / 2;
    let pt = dec.spec_print_top(row);
    let pr = dec.spec_print_right(column);
    let pb = dec.spec_print_bottom(row, has_more);
    let pl = dec.spec_print_left(column);
    let w = area.size.width;
    let btm = Mm(
        sat_add(
            sat_add(row_height.0 as int, spec_border_margin(pb, t)),
            spec_border_margin(pt, t),
        ) as i64,
    );
    let c0 = pre.len() as int;
    let n_top = spec_border_count(pt);
    let n_right = spec_border_count(pr);
    let n_bottom = spec_border_count(pb);
    &&& post.len() == pre.len() + n_top + n_right + n_bottom + spec_border_count(pl)
    &&& (pt ==> crate::elements::spec_border_op(
        area.origin,
        Position { x: Mm(0), y: Mm(off as i64) },
        Position { x: w, y: Mm(off as i64) },
        dec.line_style,
        post[c0],
    ))
    &&& (pr ==> crate::elements::spec_border_op(
        area.origin,
        Position { x: Mm(crate::geom::sat_sub(w.0 as int, off) as i64), y: Mm(0) },
        Position { x: Mm(crate::geom::sat_sub(w.0 as int, off) as i64), y: btm },
        dec.line_style,
        post[c0 + n_top],
    ))
    &&& (pb ==> crate::elements::spec_border_op(
        area.origin,
        Position { x: Mm(0), y: Mm(crate::geom::sat_sub(btm.0 as int, off) as i64) },
        Position { x: w, y: Mm(crate::geom::sat_sub(btm.0 as int, off) as i64) },
        dec.line_style,
        post[c0 + n_top + n_right],
    ))
    &&& (pl ==> crate::elements::spec_border_op(
        area.origin,
        Position { x: Mm(sat_add(0, off) as i64), y: Mm(0) },
        Position { x: Mm(sat_add(0, off) as i64), y: btm },
        dec.line_style,
        post[c0 + n_top + n_right + n_bottom],
    ))
}

impl CellDecorator for FrameCellDecorator {
    fn set_table_size(&mut self, num_columns: usize, num_rows: usize) {
        self.set_table_shape(num_columns, num_rows);
    }

    fn prepare_cell(&self, column: usize, row: usize, area: Area) -> Area {
        self.prepare_cell_framed(column, row, area)
    }

    fn decorate_cell(
        &mut self,
        column: usize,
        row: usize,
        has_more: bool,
        area: Area,
        row_height: Mm,
        ops: &mut Vec<Op>,
    ) -> Mm {
        self.decorate_cell_framed(column, row, has_more, area, row_height, ops)
    }
}

impl FrameCellDecorator {
    /// Tells the decorator the table's column and row counts.
    pub fn set_table_shape(&mut self, num_columns: usize, num_rows: usize)
        ensures
            *final(self) == (FrameCellDecorator { num_columns, num_rows, ..*old(self) }),
    {
        self.num_columns = num_columns;
        self.num_rows = num_rows;
    }

    /// Returns the cell's drawable area: the column's area shrunk by the
    /// line thickness on every edge whose border will be drawn.
    pub fn prepare_cell_framed(&self, column: usize, row: usize, area: Area) -> (r: Area)
        ensures
            self.wf() ==> ({
                let t = self.line_style.thickness.0 as int;
                let top = spec_border_margin(self.spec_print_top(row as int), t);
                let right = spec_border_margin(self.spec_print_right(column as int), t);
                let bottom = spec_border_margin(
                    self.spec_print_bottom(row as int, false),
                    t,
                );
                let left = spec_border_margin(self.spec_print_left(column as int), t);
                &&& r.origin.x.0 == sat_add(area.origin.x.0 as int, left)
                &&& r.origin.y.0 == sat_add(area.origin.y.0 as int, top)
                &&& r.size.width.0 == crate::geom::sat_sub(
                    crate::geom::sat_sub(area.size.width.0 as int, left),
                    right,
                )
                &&& r.size.height.0 == crate::geom::sat_sub(
                    crate::geom::sat_sub(area.size.height.0 as int, top),
                    bottom,
                )
            }),
            r.size.width.0 <= area.size.width.0,
            r.size.height.0 <= area.size.height.0,
    {
        let margin = if self.line_style.thickness.0 >= 0 {
            self.line_style.thickness()
        } else {
            Mm(0)
        };
        let zero = Mm(0);
        let mut shrunk = area;
        shrunk.add_margins(
            Margins::trbl(
                if self.print_top(row) {
                    margin
                } else {
                    zero
                },
                if self.print_right(column) {
                    margin
                } else {
                    zero
                },
                if self.print_bottom(row, false) {
                    margin
                } else {
                    zero
                },
                if self.print_left(column) {
                    margin
                } else {
                    zero
                },
            ),
        );
        shrunk
    }
    /// Draws the borders around a rendered cell: a top border above a fresh
    /// or resumed row, side borders at the configured columns, and a bottom
    /// border at the table's end or at a page-break cut, with
    /// half-thickness offsets so each line's centerline sits on the nominal
    /// cell edge.  Returns the row height grown by the thickness of the
    /// drawn top and bottom borders, and remembers the row as completed
    /// once its last column is decorated.
    pub fn decorate_cell_framed(
        &mut self,
        column: usize,
        row: usize,
        has_more: bool,
        area: Area,
        row_height: Mm,
        ops: &mut Vec<Op>,
    ) -> (r: Mm)
        ensures
            old(self).wf() ==> final(self).wf(),
            ops_extended(old(ops)@, final(ops)@),
            ops_text(final(ops)@) == ops_text(old(ops)@),
            old(self).wf() ==> spec_cell_borders(
                *old(self),
                column as int,
                row as int,
                has_more,
                area,
                row_height,
                old(ops)@,
                final(ops)@,
            ),
            old(self).wf() ==> r.0 == sat_add(
                sat_add(
                    row_height.0 as int,
                    spec_border_margin(
                        old(self).spec_print_top(row as int),
                        old(self).line_style.thickness.0 as int,
                    ),
                ),
                spec_border_margin(
                    old(self).spec_print_bottom(row as int, has_more),
                    old(self).line_style.thickness.0 as int,
                ),
            ),
            final(self).last_row == if column + 1 == old(self).num_columns {
                Some(row)
            } else {
                old(self).last_row
            },
            final(self).num_columns == old(self).num_columns,
            final(self).num_rows == old(self).num_rows,
            final(self).line_style == old(self).line_style,
            final(self).inner == old(self).inner,
            final(self).outer == old(self).outer,
            final(self).cont == old(self).cont,
    {
        let ghost ops0 = ops@;
        proof {
            crate::render::lemma_ops_extended_refl(ops@);
        }
        let print_top = self.print_top(row);
        let print_bottom = self.print_bottom(row, has_more);
        let print_left = self.print_left(column);
        let print_right = self.print_right(column);

        let thickness = if self.line_style.thickness.0 >= 0 {
            self.line_style.thickness()
        } else {
            Mm(0)
        };
        let line_offset = thickness.half();

        let left = Mm(0);
        let right = area.size.width;
        let top = Mm(0);
        let bottom = row_height.add_sat(
            if print_bottom {
                thickness
            } else {
                Mm(0)
            },
        ).add_sat(
            if print_top {
                thickness
            } else {
                Mm(0)
            },
        );

        let mut total_height = row_height;

        if print_top {
            let y_line = top.add_sat(line_offset);
            let mut pts: Vec<Position> = Vec::new();
            pts.push(Position::new(left, y_line));
            pts.push(Position::new(right, y_line));
            proof {
                assert(pts@ =~= seq![
                    Position { x: left, y: y_line },
                    Position { x: right, y: y_line },
                ]);
            }
            let ghost pre = ops@;
            area.draw_line(ops, pts, self.line_style);
            proof {
                assert(ops@.take(pre.len() as int) =~= ops@.drop_last());
                crate::render::lemma_ops_extended_trans(ops0, pre, ops@);
                assert forall|q: int| 0 <= q < pre.len() implies ops@[q] == pre[q] by {
                    assert(ops@.drop_last()[q] == ops@[q]);
                }
                assert(ops@[pre.len() as int] == ops@.last());
            }
            total_height = total_height.add_sat(thickness);
        }

        if print_right {
            let x_line = right.sub_sat(line_offset);
            let mut pts: Vec<Position> = Vec::new();
            pts.push(Position::new(x_line, top));
            pts.push(Position::new(x_line, bottom));
            proof {
                assert(pts@ =~= seq![
                    Position { x: x_line, y: top },
                    Position { x: x_line, y: bottom },
                ]);
            }
            let ghost pre = ops@;
            area.draw_line(ops, pts, self.line_style);
            proof {
                assert(ops@.take(pre.len() as int) =~= ops@.drop_last());
                crate::render::lemma_ops_extended_trans(ops0, pre, ops@);
                assert forall|q: int| 0 <= q < pre.len() implies ops@[q] == pre[q] by {
                    assert(ops@.drop_last()[q] == ops@[q]);
                }
                assert(ops@[pre.len() as int] == ops@.last());
            }
        }

        if print_bottom {
            let y_line = bottom.sub_sat(line_offset);
            let mut pts: Vec<Position> = Vec::new();
            pts.push(Position::new(left, y_line));
            pts.push(Position::new(right, y_line));
            proof {
                assert(pts@ =~= seq![
                    Position { x: left, y: y_line },
                    Position { x: right, y: y_line },
                ]);
            }
            let ghost pre = ops@;
            area.draw_line(ops, pts, self.line_style);
            proof {
                assert(ops@.take(pre.len() as int) =~= ops@.drop_last());
                crate::render::lemma_ops_extended_trans(ops0, pre, ops@);
                assert forall|q: int| 0 <= q < pre.len() implies ops@[q] == pre[q] by {
                    assert(ops@.drop_last()[q] == ops@[q]);
                }
                assert(ops@[pre.len() as int] == ops@.last());
            }
            total_height = total_height.add_sat(thickness);
        }

        if print_left {
            let x_line = left.add_sat(line_offset);
            let mut pts: Vec<Position> = Vec::new();
            pts.push(Position::new(x_line, top));
            pts.push(Position::new(x_line, bottom));
            proof {
                assert(pts@ =~= seq![
                    Position { x: x_line, y: top },
                    Position { x: x_line, y: bottom },
                ]);
            }
            let ghost pre = ops@;
            area.draw_line(ops, pts, self.line_style);
            proof {
                assert(ops@.take(pre.len() as int) =~= ops@.drop_last());
                crate::render::lemma_ops_extended_trans(ops0, pre, ops@);
                assert forall|q: int| 0 <= q < pre.len() implies ops@[q] == pre[q] by {
                    assert(ops@.drop_last()[q] == ops@[q]);
                }
                assert(ops@[pre.len() as int] == ops@.last());
            }
        }

        if column < usize::MAX && column + 1 == self.num_columns {
            self.last_row = Some(row);
        }

        total_height
    }
}

/// A builder for one table row: elements are collected here and the row is
/// then pushed to the table, which checks that its length matches the
/// table's column count.
pub struct TableLayoutRow {
    /// The row's cells, one element per column.
    pub elements: Vec<Box<Element>>,
}

impl TableLayoutRow {
    /// Whether all collected cells are well-formed.
    pub open spec fn wf(self) -> bool {
        forall|i: int| 0 <= i < self.elements@.len() ==> (#[trigger] self.elements@[i]).wf()
    }

    /// Adds an element to this row.
    pub fn push_element<E: IntoBoxedElement>(&mut self, element: E)
        ensures
            final(self).elements@.len() == old(self).elements@.len() + 1,
            final(self).elements@.last() == element.as_element(),
            forall|i: int|
                0 <= i < old(self).elements@.len() ==> final(self).elements@[i] == old(
                    self,
                ).elements@[i],
            (old(self).wf() && element.as_element().wf()) ==> final(self).wf(),
    {
        self.elements.push(element.into_boxed_element());
    }

    /// Adds an element to this row and returns the row.
    #[must_use]
    pub fn element<E: IntoBoxedElement>(self, element: E) -> (r: TableLayoutRow)
        ensures
            r.elements@.len() == self.elements@.len() + 1,
            (self.wf() && element.as_element().wf()) ==> r.wf(),
    {
        let mut this = self;
        this.push_element(element);
        this
    }

    /// Tries to append this row to the table: succeeds exactly when the
    /// number of collected elements equals the table's column count.
    pub fn push(self, table: &mut TableLayout) -> (r: Result<(), Error>)
        requires
            self.wf(),
            Element::Table(*old(table)).wf(),
        ensures
            Element::Table(*final(table)).wf(),
            (r is Ok <==> self.elements@.len() == old(table).column_weights@.len()),
            (r is Ok ==> final(table).rows@ == old(table).rows@.push(self.elements)),
            (r is Err ==> *final(table) == *old(table) && (r matches Err(e) && e.kind
                == ErrorKind::InvalidData)),
    {
        table.push_row(self.elements)
    }
}

/// Arranges rows of elements in columns whose widths are proportional to
/// fixed positive integer weights; the column widths always sum to the full
/// width of the given area, exactly.  A row's height is the maximum of its
/// cells' heights, and a row whose cells cannot finish in the available
/// area pauses the whole table at a page break and resumes on the next
/// call.
pub struct TableLayout {
    /// The relative column widths; one weight per column.
    pub column_weights: Vec<usize>,
    /// The rows pushed so far; every row has one cell per column.
    pub rows: Vec<Vec<Box<Element>>>,
    /// Index of the first row that has not been fully rendered.
    pub render_idx: usize,
    /// The pluggable cell decorator, if one is set.
    pub cell_decorator: Option<FrameCellDecorator>,
}

impl IntoBoxedElement for TableLayout {
    open spec fn as_element(self) -> Element {
        Element::Table(self)
    }

    fn into_boxed_element(self) -> (r: Box<Element>) {
        Box::new(Element::Table(self))
    }
}

impl TableLayout {
    /// Creates a table with the given positive column weights.
    pub fn new(column_weights: Vec<usize>) -> (r: TableLayout)
        requires
            forall|i: int| 0 <= i < column_weights@.len() ==> column_weights@[i] >= 1,
            weight_psum(column_weights@, column_weights@.len() as int) <= MAX_WEIGHT_SUM,
        ensures
            r.column_weights == column_weights,
            r.rows@.len() == 0,
            r.render_idx == 0,
            r.cell_decorator is None,
            Element::Table(r).wf(),
    {
        TableLayout { column_weights, rows: Vec::new(), render_idx: 0, cell_decorator: None }
    }

    /// Sets the cell decorator.
    pub fn set_cell_decorator(&mut self, decorator: FrameCellDecorator)
        requires
            decorator.wf(),
        ensures
            *final(self) == (TableLayout { cell_decorator: Some(decorator), ..*old(self) }),
    {
        self.cell_decorator = Some(decorator);
    }

    /// Starts a new row for this table.
    pub fn row(&self) -> (r: TableLayoutRow)
        ensures
            r.elements@.len() == 0,
            r.wf(),
    {
        TableLayoutRow { elements: Vec::new() }
    }

    /// Appends a row: succeeds exactly when the row's length equals the
    /// column count.  A rejected row leaves the table unchanged, so it can
    /// never appear in a later render pass.
    pub fn push_row(&mut self, row: Vec<Box<Element>>) -> (r: Result<(), Error>)
        requires
            forall|i: int| 0 <= i < row@.len() ==> (#[trigger] row@[i]).wf(),
            Element::Table(*old(self)).wf(),
        ensures
            Element::Table(*final(self)).wf(),
            (r is Ok <==> row@.len() == old(self).column_weights@.len()),
            (r is Ok ==> final(self).rows@ == old(self).rows@.push(row)),
            (r is Err ==> *final(self) == *old(self) && (r matches Err(e) && e.kind
                == ErrorKind::InvalidData)),
    {
        if row.len() == self.column_weights.len() {
            self.rows.push(row);
            Ok(())
        } else {
            Err(
                Error::new(
                    "the number of elements in the row differs from the table's column count",
                    ErrorKind::InvalidData,
                ),
            )
        }
    }
}

/// Renders one table row: the area is split into weighted columns, the
/// decorator may shrink each column's drawable area, every cell renders
/// into its column, the row height is the maximum of the cells' heights,
/// and the decorator then draws around each cell and may grow the row
/// height by its borders.  If any cell reports that content remains, the
/// whole row does.
pub fn render_table_row(
    context: &Context,
    area: Area,
    style: Style,
    ops: &mut Vec<Op>,
    weights: &Vec<usize>,
    decorator: &mut Option<FrameCellDecorator>,
    row: &mut Vec<Box<Element>>,
    row_idx: usize,
) -> (r: Result<RenderResult, Error>)
    requires
        weights@.len() >= 1,
        forall|i: int| 0 <= i < weights@.len() ==> weights@[i] >= 1,
        weight_psum(weights@, weights@.len() as int) <= MAX_WEIGHT_SUM,
        old(row)@.len() == weights@.len(),
        forall|i: int| 0 <= i < old(row)@.len() ==> (#[trigger] old(row)@[i]).wf(),
        (*old(decorator) matches Some(d) ==> d.wf()),
        area.size.width.0 <= MAX_AREA_UM,
    ensures
        final(row)@.len() == old(row)@.len(),
        forall|i: int| 0 <= i < final(row)@.len() ==> (#[trigger] final(row)@[i]).wf(),
        (*final(decorator) matches Some(d) ==> d.wf()),
        ops_extended(old(ops)@, final(ops)@),
        (r matches Ok(res) && !res.has_more) ==> crate::elements::elements_pending(
            final(row)@,
            0,
        ) == Seq::<char>::empty(),
        (r matches Ok(res) ==> res.size.width.0 == (if area.size.width.0 >= 0 {
            area.size.width.0 as int
        } else {
            0
        })),
        (r matches Ok(res) ==> res.size.height.0 >= 0),
    decreases *old(row),
{
    let ghost ops0 = ops@;
    let ghost row0 = *row;
    proof {
        crate::render::lemma_ops_extended_refl(ops@);
    }
    let mut result = RenderResult::new();

    let mut base = area;
    if base.size.width.0 < 0 {
        base = Area::new(base.origin, Size::new(Mm(0), base.size.height));
    }
    let areas = base.split_horizontally(weights);

    let n = weights.len();
    let mut row_height = Mm(0);
    let mut i: usize = 0;
    while i < n
        invariant
            row0 == *old(row),
            0 <= i <= n,
            n == weights@.len(),
            n == row@.len(),
            row@.len() == row0@.len(),
            areas@.len() == n,
            forall|k: int| 0 <= k < n ==> (#[trigger] areas@[k]).size.width.0 <= MAX_AREA_UM,
            forall|k: int| 0 <= k < row@.len() ==> (#[trigger] row@[k]).wf(),
            forall|k: int| i <= k < n ==> row@[k] == row0@[k],
            !result.has_more ==> (forall|k: int|
                0 <= k < i ==> (*(#[trigger] row@[k])).spec_pending() == Seq::<char>::empty()),
            base.size.width.0 == (if area.size.width.0 >= 0 {
                area.size.width.0 as int
            } else {
                0
            }),
            ((*decorator) matches Some(d) ==> d.wf()),
            ops_extended(ops0, ops@),
            ops0 == old(ops)@,
            row_height.0 >= 0,
        decreases n - i,
    {
        let cell_area = match decorator {
            Some(d) => d.prepare_cell_framed(i, row_idx, areas[i]),
            None => areas[i],
        };
        proof {
            assert(decreases_to!(row0 => row0@[i as int]));
            assert(row@[i as int] == row0@[i as int]);
        }
        let cell: &mut Box<Element> = &mut row[i];
        let ghost ops_pre = ops@;
        let cell_result = match cell.render(context, cell_area, style, ops) {
            Ok(res) => res,
            Err(e) => {
                proof {
                    crate::render::lemma_ops_extended_trans(ops0, ops_pre, ops@);
                }
                return Err(e);
            },
        };
        proof {
            crate::render::lemma_ops_extended_trans(ops0, ops_pre, ops@);
        }
        if cell_result.has_more {
            result.has_more = true;
        }
        row_height = row_height.max_mm(cell_result.size.height);
        i = i + 1;
    }
    result.size = Size::new(base.size.width, row_height);
    proof {
        if !result.has_more {
            crate::elements::lemma_elements_pending_all_empty(row@, 0);
        }
    }
    let ghost cells_done = row@;

    if decorator.is_some() {
        let mut j: usize = 0;
        while j < n
            invariant
                0 <= j <= n,
                n == weights@.len(),
                areas@.len() == n,
                row@ == cells_done,
                !result.has_more ==> crate::elements::elements_pending(row@, 0) == Seq::<
                    char,
                >::empty(),
                result.size.width.0 == (if area.size.width.0 >= 0 {
                    area.size.width.0 as int
                } else {
                    0
                }),
                result.size.height.0 >= 0,
                ((*decorator) matches Some(d) ==> d.wf()),
                ops_extended(ops0, ops@),
                ops0 == old(ops)@,
            decreases n - j,
        {
            match decorator {
                Some(d) => {
                    let ghost ops_pre = ops@;
                    let height = d.decorate_cell_framed(
                        j,
                        row_idx,
                        result.has_more,
                        areas[j],
                        row_height,
                        ops,
                    );
                    proof {
                        crate::render::lemma_ops_extended_trans(ops0, ops_pre, ops@);
                    }
                    result.size = Size::new(
                        result.size.width,
                        result.size.height.max_mm(height),
                    );
                },
                None => {},
            }
            j = j + 1;
        }
    }

    Ok(result)
}

impl TableLayout {
    /// Renders the table's rows in order into the shrinking area, pausing
    /// at the first row that cannot finish and resuming at that row on the
    /// next call.  The reported width is the full width of the area, since
    /// the columns always fill it.
    pub fn render(
        &mut self,
        context: &Context,
        area: Area,
        style: Style,
        ops: &mut Vec<Op>,
    ) -> (r: Result<RenderResult, Error>)
        requires
            Element::Table(*old(self)).wf(),
            area.size.width.0 <= MAX_AREA_UM,
        ensures
            Element::Table(*final(self)).wf(),
            ops_extended(old(ops)@, final(ops)@),
            final(self).rows@.len() == old(self).rows@.len(),
            old(self).render_idx <= final(self).render_idx <= final(self).rows@.len(),
            (r matches Ok(res) ==> (res.has_more <==> (final(self).render_idx < final(self).rows@.len() && final(self).column_weights@.len() > 0))),
            (r matches Ok(res) && !res.has_more) ==> Element::Table(*final(self)).spec_pending()
                == Seq::<char>::empty(),
            (r matches Ok(res) ==> res.size.width == (if final(self).column_weights@.len() == 0 {
                Mm(0)
            } else {
                area.size.width
            })),
        decreases *old(self),
    {
        let ghost self0 = *self;
        let ghost ops0 = ops@;
        proof {
            crate::render::lemma_ops_extended_refl(ops@);
        }
        let mut result = RenderResult::new();
        if self.column_weights.len() == 0 {
            proof {
                assert(Element::Table(*self).spec_pending() == Seq::<char>::empty());
            }
            return Ok(result);
        }
        let num_rows = self.rows.len();
        let num_columns = self.column_weights.len();
        match &mut self.cell_decorator {
            Some(d) => {
                d.set_table_shape(num_columns, num_rows);
            },
            None => {},
        }
        result.size = Size::new(area.size.width, Mm(0));
        let mut cur = area;
        let n = num_rows;
        while self.render_idx < n
            invariant
                self0 == *old(self),
                ops0 == old(ops)@,
                n == self.rows@.len(),
                n == self0.rows@.len(),
                self0.render_idx <= self.render_idx <= n,
                self.column_weights == self0.column_weights,
                self.column_weights@.len() >= 1,
                forall|i: int|
                    0 <= i < self.column_weights@.len() ==> self.column_weights@[i] >= 1,
                weight_psum(self.column_weights@, self.column_weights@.len() as int)
                    <= MAX_WEIGHT_SUM,
                cur.size.width == area.size.width,
                area.size.width.0 <= MAX_AREA_UM,
                forall|i: int|
                    0 <= i < n ==> (#[trigger] self.rows@[i])@.len()
                        == self.column_weights@.len(),
                forall|i: int, j: int|
                    0 <= i < n && 0 <= j < (#[trigger] self.rows@[i])@.len() ==> (
                    #[trigger] self.rows@[i]@[j]).wf(),
                forall|j: int| self.render_idx <= j < n ==> self.rows@[j] == self0.rows@[j],
                forall|j: int|
                    0 <= j < self.render_idx ==> crate::elements::elements_pending(
                        (#[trigger] self.rows@[j])@,
                        0,
                    ) == Seq::<char>::empty(),
                (self.cell_decorator matches Some(d) ==> d.wf()),
                ops_extended(ops0, ops@),
                !result.has_more,
                result.size.width == area.size.width,
            decreases n - self.render_idx,
        {
            let idx = self.render_idx;
            proof {
                assert(self.rows@[idx as int] == self0.rows@[idx as int]);
                assert(decreases_to!(self0 => self0.rows));
                assert(decreases_to!(self0.rows => self0.rows@[idx as int]));
            }
            let weights = &self.column_weights;
            let ghost ops_pre = ops@;
            let row_result = {
                let row: &mut Vec<Box<Element>> = &mut self.rows[idx];
                match render_table_row(
                    context,
                    cur,
                    style,
                    ops,
                    weights,
                    &mut self.cell_decorator,
                    row,
                    idx,
                ) {
                    Ok(res) => res,
                    Err(e) => {
                        proof {
                            crate::render::lemma_ops_extended_trans(ops0, ops_pre, ops@);
                        }
                        return Err(e);
                    },
                }
            };
            proof {
                crate::render::lemma_ops_extended_trans(ops0, ops_pre, ops@);
            }
            result.size = Size::new(
                result.size.width,
                result.size.height.add_sat(row_result.size.height),
            );
            cur.add_offset(Position::new(Mm(0), row_result.size.height));
            if row_result.has_more {
                result.has_more = true;
                proof {
                    assert(self.rows@.len() == n);
                    assert(self.render_idx == idx);
                }
                return Ok(result);
            }
            self.render_idx = idx + 1;
        }
        result.has_more = self.render_idx < n;
        proof {
            if self.render_idx >= n {
                assert(crate::elements::rows_pending(self.rows@, self.render_idx as int)
                    == Seq::<char>::empty());
            }
        }
        Ok(result)
    }
}

} // verus!
