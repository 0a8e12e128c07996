use typeset::codeblock::CodeBlock;
use typeset::elements::{
    alignment_offset, number_label, BulletPoint, Element, LinearLayout, OrderedList, PaddedElement,
    PageBreak, Paragraph, StyledElement, Text, UnorderedList,
};
use typeset::elements::Break;
use typeset::elements::FramedElement;
use typeset::error::ErrorKind;
use typeset::fonts::FontCache;
use typeset::geom::{Margins, Mm, Position, Size};
use typeset::highlight::SyntaxHighlighter;
use typeset::math::{Math, MathBlock, MathOp};
use typeset::render::{Area, Context, Op};
use typeset::style::{Alignment, Color, Style, StyledString};
use typeset::table::{FrameCellDecorator, TableLayout};

fn test_cache() -> FontCache {
    // Every character advances half an em; the line is 1.2 em tall.
    FontCache::monospace(500, 1200, 800)
}

fn test_context() -> Context {
    Context::new(test_cache())
}

fn area(width_um: i64, height_um: i64) -> Area {
    Area::new(
        Position::new(Mm(0), Mm(0)),
        Size::new(Mm(width_um), Mm(height_um)),
    )
}

fn plain(s: &str) -> StyledString {
    StyledString::new(s.to_string(), Style::new())
}

fn ops_chars(ops: &[Op]) -> String {
    let mut out = String::new();
    for op in ops {
        if let Op::Text { text, .. } = op {
            out.push_str(text);
        }
    }
    out
}

fn line_op_count(ops: &[Op]) -> usize {
    ops.iter().filter(|op| matches!(op, Op::Line { .. })).count()
}

#[test]
fn merge_child_wins_on_set_fields() {
    let parent = Style::new().with_font_size(14).with_color(Color::Rgb(1, 2, 3));
    let child = Style::new().with_color(Color::Rgb(9, 9, 9));
    let merged = parent.and(child);
    assert_eq!(merged.color, Some(Color::Rgb(9, 9, 9)));
    assert_eq!(merged.font_size, Some(14));
    assert_eq!(merged.bold, None);
}

#[test]
fn merge_keeps_parent_on_unset_fields() {
    let mut parent = Style::new().with_font_size(9);
    parent.set_bold();
    let child = Style::new();
    let merged = parent.and(child);
    assert_eq!(merged.font_size, Some(9));
    assert_eq!(merged.bold, Some(true));
    assert_eq!(merged.italic, None);
}

#[test]
fn split_widths_sum_to_area_width_exactly() {
    let a = area(9_999, 50_000);
    let widths: Vec<i64> = a
        .split_horizontally(&vec![1, 2, 3])
        .iter()
        .map(|sub| sub.size().width.0)
        .collect();
    assert_eq!(widths.iter().sum::<i64>(), 9_999);
    assert_eq!(widths.len(), 3);
    // The sub-areas are adjacent and in order.
    let subs = a.split_horizontally(&vec![1, 2, 3]);
    assert_eq!(subs[0].origin.x.0, 0);
    assert_eq!(subs[1].origin.x.0, widths[0]);
    assert_eq!(subs[2].origin.x.0, widths[0] + widths[1]);
}

#[test]
fn split_widths_sum_for_equal_weights() {
    let a = area(50_000, 10_000);
    let subs = a.split_horizontally(&vec![1, 1, 1]);
    let total: i64 = subs.iter().map(|sub| sub.size().width.0).sum();
    assert_eq!(total, 50_000);
}

#[test]
fn table_rejects_row_of_wrong_length() {
    let mut table = TableLayout::new(vec![1, 1]);
    let row = table.row().element(Text::new(plain("only one cell")));
    let result = row.push(&mut table);
    assert!(result.is_err());
    assert_eq!(result.unwrap_err().kind, ErrorKind::InvalidData);
    assert_eq!(table.rows.len(), 0);

    let good = table
        .row()
        .element(Text::new(plain("left")))
        .element(Text::new(plain("right")));
    assert!(good.push(&mut table).is_ok());
    assert_eq!(table.rows.len(), 1);

    // The rejected cell's text never appears in a render pass.
    let ctx = test_context();
    let mut ops: Vec<Op> = Vec::new();
    let result = table.render(&ctx, area(50_000, 50_000), Style::new(), &mut ops).unwrap();
    assert!(!result.has_more);
    let drawn = ops_chars(&ops);
    assert!(!drawn.contains("only one cell"));
    assert!(drawn.contains("left"));
    assert!(drawn.contains("right"));
}

#[test]
fn table_row_heights_stack() {
    let mut table = TableLayout::new(vec![1, 1]);
    table.set_cell_decorator(FrameCellDecorator::new(true, true, false));
    table
        .row()
        .element(Text::new(plain("a")))
        .element(Text::new(plain("b")))
        .push(&mut table)
        .unwrap();
    let ctx = test_context();
    let mut ops: Vec<Op> = Vec::new();
    let result = table.render(&ctx, area(50_000, 50_000), Style::new(), &mut ops).unwrap();
    assert!(!result.has_more);
    assert_eq!(result.size.width.0, 50_000);
    // Text in both cells and border lines around them.
    assert_eq!(ops_chars(&ops), "ab");
    assert!(line_op_count(&ops) > 0);
}

#[test]
fn paragraph_center_offset_is_half_the_leftover() {
    // A 50 mm wide area; the start offset of the single centered line is
    // exactly half of the leftover width.
    let cache = test_cache();
    let text = "The quick brown fox";
    let width = cache.str_width(text, 12).0;
    let mut p = Paragraph::new(plain(text)).aligned(Alignment::Center);
    let ctx = test_context();
    let mut ops: Vec<Op> = Vec::new();
    let result = p.render(&ctx, area(50_000, 20_000), Style::new(), &mut ops).unwrap();
    assert!(!result.has_more);
    let expected = (50_000 - width) / 2;
    match &ops[0] {
        Op::Text { position, text, .. } => {
            assert_eq!(position.x.0, expected);
            assert_eq!(position.y.0, 0);
            assert_eq!(text, "The ");
        }
        other => panic!("expected a text operation, got {:?}", other),
    }
    // All words sit on the same line.
    for op in &ops {
        if let Op::Text { position, .. } = op {
            assert_eq!(position.y.0, 0);
        }
    }
    assert_eq!(ops_chars(&ops), text);
}

#[test]
fn paragraph_resumes_without_losing_or_repeating_text() {
    // One word fits per line and one line fits per area: the text is drawn
    // once, in order, across the resumed calls.
    let text = "aa bb cc";
    let mut p = Paragraph::new(plain(text));
    let ctx = test_context();
    let mut drawn = String::new();
    let mut calls = 0;
    loop {
        let mut ops: Vec<Op> = Vec::new();
        let result = p.render(&ctx, area(7_000, 5_500), Style::new(), &mut ops).unwrap();
        drawn.push_str(&ops_chars(&ops));
        calls += 1;
        assert!(calls <= 10, "rendering did not converge");
        if !result.has_more {
            break;
        }
    }
    assert_eq!(drawn, text);
    assert_eq!(calls, 3);
}

#[test]
fn paragraph_justified_line_fills_available_width() {
    // Two words per line; the justified first line ends exactly at the
    // available width, the last line gets no extra spacing.
    let cache = test_cache();
    let mut p = Paragraph::new(plain("aa bb cc dd")).aligned(Alignment::Justified(false));
    let ctx = test_context();
    let mut ops: Vec<Op> = Vec::new();
    let result = p.render(&ctx, area(15_000, 30_000), Style::new(), &mut ops).unwrap();
    assert!(!result.has_more);
    let positions: Vec<(i64, i64, String)> = ops
        .iter()
        .filter_map(|op| match op {
            Op::Text { position, text, .. } => {
                Some((position.x.0, position.y.0, text.clone()))
            }
            _ => None,
        })
        .collect();
    assert_eq!(positions.len(), 4);
    // First line: "aa " at 0, "bb " shifted so the line ends at 15 mm.
    let w_aa = cache.str_width("aa ", 12).0;
    let w_bb = cache.str_width("bb ", 12).0;
    let gap = 15_000 - (w_aa + w_bb);
    assert_eq!(positions[0].0, 0);
    assert_eq!(positions[1].0, w_aa + gap);
    assert_eq!(positions[1].0 + w_bb, 15_000);
    // Last line: no extra spacing.
    let w_cc = cache.str_width("cc ", 12).0;
    assert_eq!(positions[2].0, 0);
    assert_eq!(positions[3].0, w_cc);
    assert!(positions[2].1 > positions[0].1);
}

#[test]
fn paragraph_overlong_word_is_placed_then_fails() {
    let mut p = Paragraph::new(plain("unbreakable"));
    let ctx = test_context();
    let mut ops: Vec<Op> = Vec::new();
    let result = p.render(&ctx, area(2_000, 50_000), Style::new(), &mut ops);
    let err = result.unwrap_err();
    assert_eq!(err.kind, ErrorKind::PageSizeExceeded);
    // The word was still placed, alone on its line.
    assert_eq!(ops_chars(&ops), "unbreakable");
}

#[test]
fn alignment_offsets() {
    assert_eq!(alignment_offset(Alignment::Left, Mm(4_000), Mm(10_000)).0, 0);
    assert_eq!(alignment_offset(Alignment::Center, Mm(4_000), Mm(10_000)).0, 3_000);
    assert_eq!(alignment_offset(Alignment::Right, Mm(4_000), Mm(10_000)).0, 6_000);
    assert_eq!(alignment_offset(Alignment::Justified(true), Mm(4_000), Mm(10_000)).0, 0);
}

#[test]
fn framed_element_draws_borders_per_chunk() {
    // A paragraph that takes exactly three chunks: the first chunk draws
    // the top border, the middle chunk only the sides, the last chunk the
    // bottom border.
    let p = Paragraph::new(plain("aa bb cc"));
    let mut framed = FramedElement::new(p);
    let ctx = test_context();
    // One line is 5080 um tall; leave room for the line plus the frame.
    let page = area(7_400, 5_600);

    let mut ops1: Vec<Op> = Vec::new();
    let r1 = framed.render(&ctx, page, Style::new(), &mut ops1).unwrap();
    assert!(r1.has_more);
    assert_eq!(line_op_count(&ops1), 3, "top, left and right on the first chunk");

    let mut ops2: Vec<Op> = Vec::new();
    let r2 = framed.render(&ctx, page, Style::new(), &mut ops2).unwrap();
    assert!(r2.has_more);
    assert_eq!(line_op_count(&ops2), 2, "only the sides on a middle chunk");

    let mut ops3: Vec<Op> = Vec::new();
    let r3 = framed.render(&ctx, page, Style::new(), &mut ops3).unwrap();
    assert!(!r3.has_more);
    assert_eq!(line_op_count(&ops3), 3, "left, right and bottom on the last chunk");

    // The first line op of chunk one is horizontal at the frame's top.
    let first_line = ops1.iter().find_map(|op| match op {
        Op::Line { points, .. } => Some(points.clone()),
        _ => None,
    });
    let pts = first_line.unwrap();
    assert_eq!(pts.len(), 2);
    assert_eq!(pts[0].y.0, pts[1].y.0);
    assert_eq!(pts[0].y.0, 50, "the centerline sits half a thickness below the edge");
    // The last line op of chunk three is the bottom border: horizontal,
    // and both chunks agree on the frame width.
    let last_line = ops3
        .iter()
        .rev()
        .find_map(|op| match op {
            Op::Line { points, .. } => Some(points.clone()),
            _ => None,
        })
        .unwrap();
    assert_eq!(last_line[0].y.0, last_line[1].y.0);
    assert!(last_line[0].y.0 > 0);
}

#[test]
fn glyphs_within_tolerance_share_a_batch() {
    let mut block = MathBlock::new(Size::new(Mm(10_000), Mm(5_000)));
    block.push_glyph(Mm(0), Mm(100), 7, 12_000, 500);
    block.push_glyph(Mm(2_000), Mm(110), 8, 12_000, 500);
    assert_eq!(block.ops().len(), 1, "origins 0.01 mm apart share a batch");
    match &block.ops()[0] {
        MathOp::TextSection(sec) => {
            assert_eq!(sec.glyph_ids, vec![7, 8]);
            assert_eq!(sec.x_offsets.len(), 2);
        }
        _ => panic!("expected a glyph batch"),
    }
    // A third glyph beyond the tolerance starts a new batch.
    block.push_glyph(Mm(4_000), Mm(121), 9, 12_000, 500);
    assert_eq!(block.ops().len(), 2);
    match &block.ops()[1] {
        MathOp::TextSection(sec) => assert_eq!(sec.glyph_ids, vec![9]),
        _ => panic!("expected a second glyph batch"),
    }
    // A glyph matching the first batch joins it, not the second: batches
    // keep first-occurrence order.
    block.push_glyph(Mm(6_000), Mm(105), 10, 12_000, 500);
    assert_eq!(block.ops().len(), 2);
    match &block.ops()[0] {
        MathOp::TextSection(sec) => assert_eq!(sec.glyph_ids, vec![7, 8, 10]),
        _ => panic!("expected the first batch to grow"),
    }
}

#[test]
fn differing_size_or_color_starts_a_new_batch() {
    let mut block = MathBlock::new(Size::new(Mm(10_000), Mm(5_000)));
    block.push_glyph(Mm(0), Mm(0), 1, 12_000, 500);
    block.push_glyph(Mm(1_000), Mm(0), 2, 14_000, 500);
    assert_eq!(block.ops().len(), 2, "a different font size starts a new batch");
    block.begin_color(200, 0, 0);
    block.push_glyph(Mm(2_000), Mm(0), 3, 12_000, 500);
    assert_eq!(block.ops().len(), 3, "a different color starts a new batch");
    block.end_color();
    block.push_glyph(Mm(3_000), Mm(0), 4, 12_000, 500);
    assert_eq!(block.ops().len(), 3, "back to black, the first batch matches again");
}

#[test]
fn rules_preserve_event_order() {
    let mut block = MathBlock::new(Size::new(Mm(10_000), Mm(5_000)));
    block.push_glyph(Mm(0), Mm(0), 1, 12_000, 500);
    block.push_rule(Mm(0), Mm(500), Mm(3_000), Mm(100));
    block.push_glyph(Mm(1_000), Mm(2_000), 2, 12_000, 500);
    assert_eq!(block.ops().len(), 3);
    assert!(matches!(block.ops()[0], MathOp::TextSection(_)));
    assert!(matches!(block.ops()[1], MathOp::Rule(_)));
    assert!(matches!(block.ops()[2], MathOp::TextSection(_)));
}

#[test]
fn math_element_needs_a_block() {
    let mut math = Math::new("x^2");
    let ctx = test_context();
    let mut ops: Vec<Op> = Vec::new();
    let err = math.render(&ctx, area(50_000, 50_000), Style::new(), &mut ops).unwrap_err();
    assert_eq!(err.kind, ErrorKind::MissingCapability);
    assert!(ops.is_empty());
}

#[test]
fn math_element_draws_batches_and_rules() {
    let mut block = MathBlock::new(Size::new(Mm(10_000), Mm(5_000)));
    block.push_glyph(Mm(0), Mm(0), 1, 12_000, 500);
    block.push_rule(Mm(0), Mm(1_000), Mm(3_000), Mm(100));
    let mut math = Math::new("x");
    math.set_block(block);
    let ctx = test_context();
    let mut ops: Vec<Op> = Vec::new();
    let result = math.render(&ctx, area(50_000, 50_000), Style::new(), &mut ops).unwrap();
    assert!(!result.has_more);
    assert_eq!(result.size.width.0, 10_000);
    assert_eq!(ops.len(), 2);
    assert!(matches!(ops[0], Op::Glyphs { .. }));
    match &ops[1] {
        Op::Line { points, style } => {
            assert_eq!(points.len(), 5);
            assert!(style.filled);
        }
        _ => panic!("expected the rule as a filled polyline"),
    }
}

#[test]
fn math_element_centers_its_block() {
    let mut block = MathBlock::new(Size::new(Mm(10_000), Mm(5_000)));
    block.push_glyph(Mm(0), Mm(0), 1, 12_000, 500);
    let mut math = Math::new("x").aligned(Alignment::Center);
    math.set_block(block);
    let ctx = test_context();
    let mut ops: Vec<Op> = Vec::new();
    math.render(&ctx, area(50_000, 50_000), Style::new(), &mut ops).unwrap();
    match &ops[0] {
        Op::Glyphs { position, .. } => assert_eq!(position.x.0, (50_000 - 10_000) / 2),
        _ => panic!("expected a glyph run"),
    }
}

#[test]
fn linear_layout_stacks_vertically() {
    let mut layout = LinearLayout::vertical();
    layout.push(Paragraph::new(plain("one")));
    layout.push(Paragraph::new(plain("two")));
    let ctx = test_context();
    let mut ops: Vec<Op> = Vec::new();
    let result = layout.render_vertical(&ctx, area(50_000, 50_000), Style::new(), &mut ops).unwrap();
    assert!(!result.has_more);
    assert_eq!(ops_chars(&ops), "onetwo");
    let ys: Vec<i64> = ops
        .iter()
        .filter_map(|op| match op {
            Op::Text { position, .. } => Some(position.y.0),
            _ => None,
        })
        .collect();
    assert!(ys[1] > ys[0], "the second paragraph starts below the first");
}

#[test]
fn text_element_prints_one_line() {
    let mut text = Text::new(plain("hello"));
    let ctx = test_context();
    let mut ops: Vec<Op> = Vec::new();
    let result = text.render(&ctx, area(50_000, 50_000), Style::new(), &mut ops).unwrap();
    assert!(!result.has_more);
    assert_eq!(ops_chars(&ops), "hello");
    assert_eq!(result.size.height.0, 5_080);

    // Too little height: nothing is printed, the content remains.
    let mut ops2: Vec<Op> = Vec::new();
    let result2 = text.render(&ctx, area(50_000, 1_000), Style::new(), &mut ops2).unwrap();
    assert!(result2.has_more);
    assert!(ops2.is_empty());
}

#[test]
fn break_consumes_line_heights() {
    let mut br = Break::new(2);
    let ctx = test_context();
    let mut ops: Vec<Op> = Vec::new();
    let result = br.render(&ctx, area(50_000, 50_000), Style::new(), &mut ops).unwrap();
    assert!(!result.has_more);
    assert_eq!(result.size.height.0, 2 * 5_080);
    assert!(ops.is_empty());
    // A second call consumes nothing more.
    let again = br.render(&ctx, area(50_000, 50_000), Style::new(), &mut ops).unwrap();
    assert_eq!(again.size.height.0, 0);
}

#[test]
fn page_break_asks_for_a_fresh_area_once() {
    let mut pb = PageBreak::new();
    let ctx = test_context();
    let mut ops: Vec<Op> = Vec::new();
    let first = pb.render(&ctx, area(50_000, 50_000), Style::new(), &mut ops).unwrap();
    assert!(first.has_more);
    assert_eq!(first.size.width.0, 1);
    let second = pb.render(&ctx, area(50_000, 50_000), Style::new(), &mut ops).unwrap();
    assert!(!second.has_more);
}

#[test]
fn padding_grows_the_reported_size() {
    let inner = Paragraph::new(plain("pad"));
    let mut padded = PaddedElement::new(
        inner,
        Margins::trbl(Mm(1_000), Mm(2_000), Mm(3_000), Mm(4_000)),
    );
    let ctx = test_context();
    let mut ops: Vec<Op> = Vec::new();
    let result = padded.render(&ctx, area(50_000, 50_000), Style::new(), &mut ops).unwrap();
    assert!(!result.has_more);
    // Height: one line plus top and bottom padding.
    assert_eq!(result.size.height.0, 5_080 + 1_000 + 3_000);
    // The text starts after the left and top padding.
    match &ops[0] {
        Op::Text { position, .. } => {
            assert_eq!(position.x.0, 4_000);
            assert_eq!(position.y.0, 1_000);
        }
        _ => panic!("expected a text operation"),
    }
}

#[test]
fn styled_element_merges_its_style() {
    let inner = Text::new(plain("tinted"));
    let mut styled = StyledElement::new(inner, Style::new().with_color(Color::Rgb(5, 6, 7)));
    let ctx = test_context();
    let mut ops: Vec<Op> = Vec::new();
    styled.render(&ctx, area(50_000, 50_000), Style::new(), &mut ops).unwrap();
    match &ops[0] {
        Op::Text { style, .. } => assert_eq!(style.color, Some(Color::Rgb(5, 6, 7))),
        _ => panic!("expected a text operation"),
    }
}

#[test]
fn bullet_point_prints_its_label_once() {
    let mut list = UnorderedList::with_bullet("*".to_string());
    list.push(Paragraph::new(plain("aa bb cc")));
    let mut element = Element::Unordered(list);
    let ctx = test_context();
    // One word per line, one line per call: several resumed calls.
    let mut stars = 0;
    let mut calls = 0;
    loop {
        let mut ops: Vec<Op> = Vec::new();
        let result = element
            .render(&ctx, area(17_000, 5_500), Style::new(), &mut ops)
            .unwrap();
        stars += ops
            .iter()
            .filter(|op| matches!(op, Op::Text { text, .. } if text == "*"))
            .count();
        calls += 1;
        assert!(calls <= 10, "rendering did not converge");
        if !result.has_more {
            break;
        }
    }
    assert!(calls > 1, "the list should span several areas");
    assert_eq!(stars, 1, "the bullet is printed exactly once");
}

#[test]
fn ordered_list_numbers_its_entries() {
    let mut list = OrderedList::with_start(9);
    list.push(Paragraph::new(plain("first")));
    list.push(Paragraph::new(plain("second")));
    let labels: Vec<String> = list
        .layout
        .elements
        .iter()
        .map(|e| match e.as_ref() {
            Element::Bullet(b) => b.bullet.clone(),
            _ => panic!("expected bullet points"),
        })
        .collect();
    assert_eq!(labels, vec!["9.".to_string(), "10.".to_string()]);
}

#[test]
fn number_labels() {
    assert_eq!(number_label(1), "1.");
    assert_eq!(number_label(10), "10.");
    assert_eq!(number_label(907), "907.");
}

#[test]
fn bullet_point_indents_its_content() {
    let inner = Paragraph::new(plain("dot"));
    let mut bullet = BulletPoint::new(inner);
    let ctx = test_context();
    let mut ops: Vec<Op> = Vec::new();
    bullet.render(&ctx, area(50_000, 50_000), Style::new(), &mut ops).unwrap();
    // The wrapped content starts at the 10 mm indent.
    match &ops[0] {
        Op::Text { position, text, .. } => {
            assert_eq!(text, "dot");
            assert_eq!(position.x.0, 10_000);
        }
        _ => panic!("expected a text operation"),
    }
}

#[test]
fn code_block_draws_lines_and_resumes() {
    let mut code = CodeBlock::new("let x;\nfoo", "rs", None, Style::new());
    let ctx = test_context();
    let mut ops: Vec<Op> = Vec::new();
    let result = code.render(&ctx, area(80_000, 50_000), Style::new(), &mut ops).unwrap();
    assert!(!result.has_more);
    let texts: Vec<String> = ops
        .iter()
        .filter_map(|op| match op {
            Op::Text { text, .. } => Some(text.clone()),
            _ => None,
        })
        .collect();
    assert_eq!(texts, vec!["let x;".to_string(), "foo".to_string()]);

    // With one line of height per call, the block resumes.
    let mut code2 = CodeBlock::new("one\ntwo", "rs", None, Style::new());
    let mut ops1: Vec<Op> = Vec::new();
    let r1 = code2.render(&ctx, area(80_000, 5_500), Style::new(), &mut ops1).unwrap();
    assert!(r1.has_more);
    assert_eq!(ops_chars(&ops1), "one");
    let mut ops2: Vec<Op> = Vec::new();
    let r2 = code2.render(&ctx, area(80_000, 5_500), Style::new(), &mut ops2).unwrap();
    assert!(!r2.has_more);
    assert_eq!(ops_chars(&ops2), "two");
}

#[test]
fn syntax_highlighter_styles_known_languages() {
    let hl = SyntaxHighlighter::load_defaults();
    let lines = hl
        .highlight("let x = 1;\n", "rs", "InspiredGitHub", Style::new(), false)
        .expect("bundled language and theme should be found");
    assert_eq!(lines.len(), 1);
    assert!(!lines[0].is_empty());
    let joined: String = lines[0].iter().map(|s| s.s.clone()).collect();
    assert_eq!(joined, "let x = 1;\n");

    // An unknown language degrades to no highlighting rather than failing.
    assert!(hl.highlight("x", "no-such-language", "InspiredGitHub", Style::new(), false).is_none());
    assert!(hl.highlight("x", "rs", "no-such-theme", Style::new(), false).is_none());
}

#[test]
fn code_block_uses_the_highlighter_when_available() {
    let ctx = Context::with_highlighter(test_cache(), SyntaxHighlighter::load_defaults());
    let mut code = CodeBlock::new(
        "let x = 1;",
        "rs",
        Some("InspiredGitHub"),
        Style::new(),
    );
    let mut ops: Vec<Op> = Vec::new();
    let result = code.render(&ctx, area(80_000, 50_000), Style::new(), &mut ops).unwrap();
    assert!(!result.has_more);
    assert_eq!(ops_chars(&ops), "let x = 1;");
    // Several differently colored spans were produced.
    let colored = ops
        .iter()
        .filter(|op| matches!(op, Op::Text { style, .. } if style.color.is_some()))
        .count();
    assert!(colored >= 1);
}

#[test]
fn strings_measure_by_character_advances() {
    let cache = test_cache();
    // Half an em per character at 12 points: 500 * 12 * 127 / 360 um each.
    assert_eq!(cache.char_width('a', 12).0, 2_116);
    assert_eq!(cache.str_width("abc", 12).0, 3 * 2_116);
    assert_eq!(cache.line_height_at(12).0, 5_080);
}

#[test]
fn empty_paragraph_renders_nothing() {
    let mut p = Paragraph::empty();
    let ctx = test_context();
    let mut ops: Vec<Op> = Vec::new();
    let result = p.render(&ctx, area(50_000, 50_000), Style::new(), &mut ops).unwrap();
    assert!(!result.has_more);
    assert!(ops.is_empty());
    assert_eq!(result.size.height.0, 0);
}

#[test]
fn paragraph_waits_for_room_then_draws_everything() {
    let mut p = Paragraph::new(plain("word"));
    let ctx = test_context();
    // No room at all: nothing is drawn, the content remains.
    let mut ops: Vec<Op> = Vec::new();
    let result = p.render(&ctx, area(50_000, 0), Style::new(), &mut ops).unwrap();
    assert!(result.has_more);
    assert!(ops.is_empty());
    // A fresh area: the text appears exactly once.
    let mut ops2: Vec<Op> = Vec::new();
    let result2 = p.render(&ctx, area(50_000, 50_000), Style::new(), &mut ops2).unwrap();
    assert!(!result2.has_more);
    assert_eq!(ops_chars(&ops2), "word");
}

#[test]
fn table_pauses_and_resumes_a_row() {
    // A one-column table whose single cell needs two areas; the
    // continuation decorator draws a border at the page-break cut.
    let mut table = TableLayout::new(vec![1]);
    table.set_cell_decorator(FrameCellDecorator::new(true, true, true));
    table
        .row()
        .element(Paragraph::new(plain("aa bb")))
        .push(&mut table)
        .unwrap();
    let ctx = test_context();
    // One word per line, one line per page.
    let mut ops1: Vec<Op> = Vec::new();
    let r1 = table.render(&ctx, area(7_000, 5_700), Style::new(), &mut ops1).unwrap();
    assert!(r1.has_more);
    assert_eq!(ops_chars(&ops1), "aa ");
    assert!(line_op_count(&ops1) > 0, "the continuation cut is stroked");
    let mut ops2: Vec<Op> = Vec::new();
    let r2 = table.render(&ctx, area(7_000, 5_700), Style::new(), &mut ops2).unwrap();
    assert!(!r2.has_more);
    assert_eq!(ops_chars(&ops2), "bb");
}

#[test]
fn empty_weight_table_renders_nothing() {
    let mut table = TableLayout::new(Vec::new());
    let ctx = test_context();
    let mut ops: Vec<Op> = Vec::new();
    let result = table.render(&ctx, area(50_000, 50_000), Style::new(), &mut ops).unwrap();
    assert!(!result.has_more);
    assert!(ops.is_empty());
}

#[test]
fn justified_spacing_shortfall_stays_under_the_gap_count() {
    // Three words per line and a leftover that does not divide evenly:
    // the stretched line falls short of the available width by less than
    // one unit per gap.
    let cache = test_cache();
    let mut p = Paragraph::new(plain("a b c d")).aligned(Alignment::Justified(false));
    let ctx = test_context();
    let mut ops: Vec<Op> = Vec::new();
    let avail = 13_001;
    let result = p.render(&ctx, area(avail, 30_000), Style::new(), &mut ops).unwrap();
    assert!(!result.has_more);
    let xs: Vec<i64> = ops
        .iter()
        .filter_map(|op| match op {
            Op::Text { position, text, .. } if position.y.0 == 0 => {
                Some(position.x.0 + cache.str_width(text, 12).0)
            }
            _ => None,
        })
        .collect();
    // First line "a b c " stretches to within n - 1 of the available width.
    let end = *xs.last().unwrap();
    assert!(end <= avail);
    assert!(avail - end < 3 - 1 + 1, "shortfall {} too large", avail - end);
}

#[test]
fn bullet_point_default_symbol_is_an_en_dash() {
    let bullet = BulletPoint::new(Paragraph::new(plain("entry")));
    assert_eq!(bullet.bullet, "\u{2013}");
    let mut list = UnorderedList::new();
    list.push(Paragraph::new(plain("entry")));
    match list.layout.elements[0].as_ref() {
        Element::Bullet(b) => assert_eq!(b.bullet, "\u{2013}"),
        _ => panic!("expected a bullet point"),
    }
}
