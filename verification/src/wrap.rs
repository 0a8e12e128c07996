use vstd::prelude::*;
use crate::fonts::{FontCache, Metrics, MAX_CHAR_WIDTH_UM, MAX_TEXT_CHARS};
use crate::geom::Mm;
use crate::render::MAX_AREA_UM;
use crate::style::StyledString;

verus! {

/// The whitespace characters word splitting breaks at.
pub open spec fn spec_is_space(c: char) -> bool {
    c == ' ' || c == '\t' || c == '\n' || c == '\r'
}

/// Whether a character is whitespace for the purpose of word splitting.
pub fn is_space(c: char) -> (r: bool)
    ensures
        r == spec_is_space(c),
{
    c == ' ' || c == '\t' || c == '\n' || c == '\r'
}

/// The concatenation of the characters of a sequence of text runs.
pub open spec fn words_chars(ws: Seq<StyledString>) -> Seq<char>
    decreases ws.len(),
{
    if ws.len() == 0 {
        Seq::empty()
    } else {
        ws.first().s@ + words_chars(ws.drop_first())
    }
}

/// Appending a run appends its characters to the concatenation.
pub proof fn lemma_words_chars_push(ws: Seq<StyledString>, w: StyledString)
    ensures
        words_chars(ws.push(w)) == words_chars(ws) + w.s@,
    decreases ws.len(),
{
    if ws.len() == 0 {
        assert(ws.push(w).drop_first() =~= Seq::<StyledString>::empty());
        assert(ws.push(w).first() == w);
        assert(words_chars(Seq::<StyledString>::empty()) =~= Seq::<char>::empty());
        assert(words_chars(ws.push(w)) =~= w.s@);
        assert(words_chars(ws) + w.s@ =~= w.s@);
    } else {
        assert(ws.push(w).drop_first() =~= ws.drop_first().push(w));
        lemma_words_chars_push(ws.drop_first(), w);
        assert(words_chars(ws.push(w)) == ws.first().s@ + (words_chars(ws.drop_first()) + w.s@));
        assert(ws.first().s@ + (words_chars(ws.drop_first()) + w.s@) == (ws.first().s@
            + words_chars(ws.drop_first())) + w.s@);
    }
}

/// Concatenation splits at any prefix boundary.
pub proof fn lemma_words_chars_split(ws: Seq<StyledString>, i: int)
    requires
        0 <= i <= ws.len(),
    ensures
        words_chars(ws) == words_chars(ws.take(i)) + words_chars(ws.skip(i)),
    decreases i,
{
    if i == 0 {
        assert(ws.take(0) =~= Seq::<StyledString>::empty());
        assert(ws.skip(0) =~= ws);
        assert(words_chars(ws) =~= words_chars(ws.take(0)) + words_chars(ws.skip(0)));
    } else {
        assert(ws.take(i).first() == ws.first());
        assert(ws.take(i).drop_first() =~= ws.drop_first().take(i - 1));
        assert(ws.skip(i) =~= ws.drop_first().skip(i - 1));
        lemma_words_chars_split(ws.drop_first(), i - 1);
        assert(words_chars(ws) == ws.first().s@ + words_chars(ws.drop_first()));
        assert(ws.first().s@ + (words_chars(ws.drop_first().take(i - 1)) + words_chars(
            ws.drop_first().skip(i - 1),
        )) == (ws.first().s@ + words_chars(ws.drop_first().take(i - 1))) + words_chars(
            ws.drop_first().skip(i - 1),
        ));
    }
}

/// Consuming the run at position `i` from the pending suffix removes exactly
/// its characters from the front.
pub proof fn lemma_words_chars_skip_step(ws: Seq<StyledString>, i: int)
    requires
        0 <= i < ws.len(),
    ensures
        words_chars(ws.skip(i)) == ws[i].s@ + words_chars(ws.skip(i + 1)),
{
    assert(ws.skip(i).first() == ws[i]);
    assert(ws.skip(i).drop_first() =~= ws.skip(i + 1));
}

/// Concatenating run sequences concatenates their characters.
pub proof fn lemma_words_chars_concat(a: Seq<StyledString>, b: Seq<StyledString>)
    ensures
        words_chars(a + b) == words_chars(a) + words_chars(b),
    decreases a.len(),
{
    if a.len() == 0 {
        assert(a + b =~= b);
        assert(words_chars(a) + words_chars(b) =~= words_chars(b));
    } else {
        assert((a + b).first() == a.first());
        assert((a + b).drop_first() =~= a.drop_first() + b);
        lemma_words_chars_concat(a.drop_first(), b);
        assert(a.first().s@ + (words_chars(a.drop_first()) + words_chars(b)) == (a.first().s@
            + words_chars(a.drop_first())) + words_chars(b));
    }
}

/// Two run sequences with the same texts have the same characters, whatever
/// their styles.
pub proof fn lemma_words_chars_congruent(a: Seq<StyledString>, b: Seq<StyledString>)
    requires
        a.len() == b.len(),
        forall|i: int| 0 <= i < a.len() ==> (#[trigger] a[i]).s@ == b[i].s@,
    ensures
        words_chars(a) == words_chars(b),
    decreases a.len(),
{
    if a.len() > 0 {
        assert(a.first().s@ == b.first().s@);
        assert(forall|i: int|
            0 <= i < a.drop_first().len() ==> (#[trigger] a.drop_first()[i]).s@
                == b.drop_first()[i].s@);
        lemma_words_chars_congruent(a.drop_first(), b.drop_first());
    }
}

/// Every run is short enough for exact width arithmetic.
pub open spec fn wf_words(ws: Seq<StyledString>) -> bool {
    forall|i: int| 0 <= i < ws.len() ==> #[trigger] ws[i].s@.len() <= MAX_TEXT_CHARS
}

/// Splits one text run into words: a new word starts at every
/// non-whitespace character that follows a whitespace character, so each
/// word is a chunk of text ending with its trailing whitespace, and the
/// words concatenate to the run exactly.
pub fn split_run(s: &str, style: crate::style::Style, out: &mut Vec<StyledString>)
    requires
        s@.len() <= MAX_TEXT_CHARS,
        wf_words(old(out)@),
    ensures
        wf_words(final(out)@),
        words_chars(final(out)@) == words_chars(old(out)@) + s@,
        final(out)@.len() >= old(out)@.len(),
        forall|i: int| 0 <= i < old(out)@.len() ==> final(out)@[i] == old(out)@[i],
        forall|i: int|
            old(out)@.len() <= i < final(out)@.len() ==> (#[trigger] final(out)@[i]).s@.len() >= 1
                && final(out)@[i].style == style,
{
    let len = s.unicode_len();
    if len == 0 {
        proof {
            assert(words_chars(out@) + s@ =~= words_chars(out@));
        }
        return ;
    }
    let ghost out0 = out@;
    let mut start: usize = 0;
    let mut i: usize = 1;
    let mut prev_space = is_space(s.get_char(0));
    while i < len
        invariant
            1 <= i <= len,
            0 <= start < i,
            len == s@.len() <= MAX_TEXT_CHARS,
            prev_space == spec_is_space(s@[i - 1]),
            words_chars(out@) == words_chars(out0) + s@.take(start as int),
            wf_words(out@),
            out@.len() >= out0.len(),
            forall|k: int| 0 <= k < out0.len() ==> out@[k] == out0[k],
            forall|k: int|
                out0.len() <= k < out@.len() ==> (#[trigger] out@[k]).s@.len() >= 1
                    && out@[k].style == style,
        decreases len - i,
    {
        let c = s.get_char(i);
        let c_space = is_space(c);
        if prev_space && !c_space {
            let piece = s.substring_char(start, i);
            let ghost pre = out@;
            out.push(StyledString::new(piece.to_owned(), style));
            proof {
                lemma_words_chars_push(pre, out@.last());
                assert(s@.take(start as int) + s@.subrange(start as int, i as int) =~= s@.take(
                    i as int,
                ));
            }
            start = i;
        }
        prev_space = c_space;
        i = i + 1;
    }
    let piece = s.substring_char(start, len);
    let ghost pre = out@;
    out.push(StyledString::new(piece.to_owned(), style));
    proof {
        lemma_words_chars_push(pre, out@.last());
        assert(s@.take(start as int) + s@.subrange(start as int, len as int) =~= s@);
    }
}

/// Splits a sequence of text runs into a queue of styled words.  The words
/// concatenate to the original text exactly; each word is non-empty and
/// keeps the style of the run it came from.
pub fn split_words(text: &Vec<StyledString>) -> (r: Vec<StyledString>)
    requires
        wf_words(text@),
    ensures
        wf_words(r@),
        words_chars(r@) == words_chars(text@),
        forall|i: int| 0 <= i < r@.len() ==> (#[trigger] r@[i]).s@.len() >= 1,
        forall|i: int|
            0 <= i < r@.len() ==> exists|j: int|
                0 <= j < text@.len() && (#[trigger] r@[i]).style == text@[j].style,
{
    let mut out: Vec<StyledString> = Vec::new();
    let n = text.len();
    let mut j: usize = 0;
    proof {
        assert(words_chars(out@) =~= words_chars(text@.take(0)));
    }
    while j < n
        invariant
            0 <= j <= n,
            n == text@.len(),
            wf_words(text@),
            wf_words(out@),
            words_chars(out@) == words_chars(text@.take(j as int)),
            forall|i: int| 0 <= i < out@.len() ==> (#[trigger] out@[i]).s@.len() >= 1,
            forall|i: int|
                0 <= i < out@.len() ==> exists|q: int|
                    0 <= q < j && (#[trigger] out@[i]).style == text@[q].style,
        decreases n - j,
    {
        let run = &text[j];
        split_run(run.s.as_str(), run.style, &mut out);
        proof {
            lemma_words_chars_split(text@.take(j + 1 as int), j as int);
            assert(text@.take(j + 1 as int).take(j as int) =~= text@.take(j as int));
            assert(text@.take(j + 1 as int).skip(j as int) =~= seq![text@[j as int]]);
            assert(seq![text@[j as int]].drop_first() =~= Seq::<StyledString>::empty());
            assert(seq![text@[j as int]].first() == text@[j as int]);
            assert(words_chars(Seq::<StyledString>::empty()) =~= Seq::<char>::empty());
            assert(words_chars(seq![text@[j as int]]) =~= text@[j as int].s@);
        }
        j = j + 1;
    }
    proof {
        assert(text@.take(n as int) =~= text@);
    }
    out
}

/// The width of a styled word: the width of its text at its own style's
/// font size, in thousandths of a millimeter.
pub open spec fn spec_word_width(cache: FontCache, w: StyledString) -> int {
    cache.spec_str_width(w.s@, w.style.effective_font_size() as int)
}

/// The total width of the words in `ws[start..end]`.
pub open spec fn words_width_sum(cache: FontCache, ws: Seq<StyledString>, start: int, end: int) -> int
    decreases end - start,
{
    if start >= end {
        0
    } else {
        spec_word_width(cache, ws[start]) + words_width_sum(cache, ws, start + 1, end)
    }
}

/// Extending the range on the right adds the last word's width.
pub proof fn lemma_words_width_sum_step(
    cache: FontCache,
    ws: Seq<StyledString>,
    start: int,
    end: int,
)
    requires
        start <= end,
    ensures
        words_width_sum(cache, ws, start, end + 1) == words_width_sum(cache, ws, start, end)
            + spec_word_width(cache, ws[end]),
    decreases end - start,
{
    if start < end {
        lemma_words_width_sum_step(cache, ws, start + 1, end);
    } else {
        assert(words_width_sum(cache, ws, start, end) == 0);
        assert(words_width_sum(cache, ws, end + 1, end + 1) == 0);
        assert(words_width_sum(cache, ws, start, end + 1) == spec_word_width(cache, ws[end])
            + words_width_sum(cache, ws, end + 1, end + 1));
    }
}

/// The width bridge for uniformly styled text: when every word in the
/// range carries the same style, the words' total width equals the width
/// of their concatenated characters at that style — so a line assembled
/// from the words of a single-style text is exactly as wide as the text
/// itself.  This closes the loop from the paragraph's per-line offsets to
/// the width of the original text.
pub proof fn lemma_uniform_words_width(
    cache: FontCache,
    ws: Seq<StyledString>,
    start: int,
    end: int,
    style: crate::style::Style,
)
    requires
        0 <= start <= end <= ws.len(),
        forall|i: int| start <= i < end ==> (#[trigger] ws[i]).style == style,
    ensures
        words_width_sum(cache, ws, start, end) == cache.spec_str_width(
            words_chars(ws.subrange(start, end)),
            style.effective_font_size() as int,
        ),
    decreases end - start,
{
    if start >= end {
        assert(ws.subrange(start, end) =~= Seq::<StyledString>::empty());
        assert(words_chars(Seq::<StyledString>::empty()) =~= Seq::<char>::empty());
    } else {
        lemma_uniform_words_width(cache, ws, start + 1, end, style);
        assert(ws.subrange(start, end).first() == ws[start]);
        assert(ws.subrange(start, end).drop_first() =~= ws.subrange(start + 1, end));
        crate::fonts::lemma_str_width_concat(
            cache,
            ws[start].s@,
            words_chars(ws.subrange(start + 1, end)),
            style.effective_font_size() as int,
        );
    }
}

/// The componentwise largest metrics of the words in `ws[start..end]`.
pub open spec fn words_metrics(cache: FontCache, ws: Seq<StyledString>, start: int, end: int) -> Metrics
    decreases end - start,
{
    if start >= end {
        Metrics { glyph_height: Mm(0), line_height: Mm(0) }
    } else {
        let rest = words_metrics(cache, ws, start + 1, end);
        let first = ws[start];
        let gh = cache.spec_glyph_height(first.style.effective_font_size() as int);
        let lh = cache.spec_line_height(first.style.effective_font_size() as int);
        Metrics {
            glyph_height: Mm(gh as i64).spec_max(rest.glyph_height),
            line_height: Mm(lh as i64).spec_max(rest.line_height),
        }
    }
}

/// Extending the range on the right takes the maximum with the last word's
/// metrics.
pub proof fn lemma_words_metrics_step(
    cache: FontCache,
    ws: Seq<StyledString>,
    start: int,
    end: int,
)
    requires
        start <= end,
    ensures
        words_metrics(cache, ws, start, end + 1) == (Metrics {
            glyph_height: words_metrics(cache, ws, start, end).glyph_height.spec_max(
                Mm(cache.spec_glyph_height(ws[end].style.effective_font_size() as int) as i64),
            ),
            line_height: words_metrics(cache, ws, start, end).line_height.spec_max(
                Mm(cache.spec_line_height(ws[end].style.effective_font_size() as int) as i64),
            ),
        }),
    decreases end - start,
{
    if start < end {
        lemma_words_metrics_step(cache, ws, start + 1, end);
    } else {
        assert(words_metrics(cache, ws, start, end) == (Metrics {
            glyph_height: Mm(0),
            line_height: Mm(0),
        }));
        assert(words_metrics(cache, ws, end + 1, end + 1) == (Metrics {
            glyph_height: Mm(0),
            line_height: Mm(0),
        }));
    }
}

/// A word's width is never negative.
pub proof fn lemma_word_width_nonneg(cache: FontCache, w: StyledString)
    ensures
        spec_word_width(cache, w) >= 0,
{
    crate::fonts::lemma_str_width_nonneg(cache, w.s@, w.style.effective_font_size() as int);
}

/// A range sum of word widths is never negative.
pub proof fn lemma_words_width_nonneg(cache: FontCache, ws: Seq<StyledString>, i: int, j: int)
    ensures
        words_width_sum(cache, ws, i, j) >= 0,
    decreases j - i,
{
    if i < j {
        lemma_word_width_nonneg(cache, ws[i]);
        lemma_words_width_nonneg(cache, ws, i + 1, j);
    }
}

/// A range sum of word widths splits at any midpoint.
pub proof fn lemma_words_width_range_split(cache: FontCache, ws: Seq<StyledString>, i: int, j: int, k: int)
    requires
        i <= j <= k,
    ensures
        words_width_sum(cache, ws, i, k) == words_width_sum(cache, ws, i, j) + words_width_sum(
            cache,
            ws,
            j,
            k,
        ),
    decreases j - i,
{
    if i < j {
        lemma_words_width_range_split(cache, ws, i + 1, j, k);
    }
}

/// The width of the run of leading whitespace of a word, at the word's own
/// style.
pub fn leading_space_width(cache: &FontCache, w: &StyledString) -> (r: Mm)
    requires
        w.s@.len() <= MAX_TEXT_CHARS,
    ensures
        0 <= r.0 <= (MAX_TEXT_CHARS as i64) * MAX_CHAR_WIDTH_UM,
{
    let s = w.s.as_str();
    let len = s.unicode_len();
    let size = w.style.font_size();
    let mut total: i64 = 0;
    let mut i: usize = 0;
    while i < len
        invariant
            0 <= i <= len,
            len == s@.len() <= MAX_TEXT_CHARS,
            0 <= total <= i * MAX_CHAR_WIDTH_UM,
        decreases len - i,
    {
        let c = s.get_char(i);
        if !is_space(c) {
            proof {
                assert(total <= (MAX_TEXT_CHARS as i64) * MAX_CHAR_WIDTH_UM);
            }
            return Mm(total);
        }
        total = total + cache.char_width(c, size).0;
        i = i + 1;
    }
    Mm(total)
}

/// The width of the run of trailing whitespace of a word, at the word's own
/// style.
pub fn trailing_space_width(cache: &FontCache, w: &StyledString) -> (r: Mm)
    requires
        w.s@.len() <= MAX_TEXT_CHARS,
    ensures
        0 <= r.0 <= (MAX_TEXT_CHARS as i64) * MAX_CHAR_WIDTH_UM,
{
    let s = w.s.as_str();
    let len = s.unicode_len();
    let size = w.style.font_size();
    let mut total: i64 = 0;
    let mut i: usize = len;
    while i > 0
        invariant
            0 <= i <= len,
            len == s@.len() <= MAX_TEXT_CHARS,
            0 <= total <= (len - i) * MAX_CHAR_WIDTH_UM,
        decreases i,
    {
        let c = s.get_char(i - 1);
        if !is_space(c) {
            proof {
                assert(total <= (MAX_TEXT_CHARS as i64) * MAX_CHAR_WIDTH_UM);
            }
            return Mm(total);
        }
        total = total + cache.char_width(c, size).0;
        i = i - 1;
    }
    Mm(total)
}

/// Where the greedy line that starts at `start` ends, continuing from
/// `cur`: words are pulled while the accumulated width stays within
/// `avail`.
pub open spec fn spec_line_end(
    cache: FontCache,
    ws: Seq<StyledString>,
    start: int,
    avail: int,
    cur: int,
) -> int
    decreases ws.len() - cur,
{
    if cur < ws.len() && words_width_sum(cache, ws, start, cur + 1) <= avail {
        spec_line_end(cache, ws, start, avail, cur + 1)
    } else {
        cur
    }
}

/// The number of words a greedy line starting at `start` takes: words are
/// pulled while the accumulated width stays within the available width, and
/// the first word is taken unconditionally.
pub struct LineBreak {
    /// Index one past the last word of the line.
    pub end: usize,
    /// The total width of the line's words, in thousandths of a millimeter.
    pub width: Mm,
    /// The componentwise largest metrics of the line's words.
    pub metrics: Metrics,
}

/// Builds the next greedy line from the word queue: starting at `start`,
/// words are pulled while the accumulated width stays within `avail`; the
/// first word is always taken, even if it alone is wider than `avail`.
pub fn take_line(
    words: &Vec<StyledString>,
    start: usize,
    cache: &FontCache,
    avail: Mm,
) -> (r: LineBreak)
    requires
        start < words@.len(),
        wf_words(words@),
        avail.0 <= MAX_AREA_UM,
    ensures
        start < r.end <= words@.len(),
        r.end == spec_line_end(*cache, words@, start as int, avail.0 as int, start + 1),
        r.width.0 == words_width_sum(*cache, words@, start as int, r.end as int),
        r.width.0 <= MAX_AREA_UM + (MAX_TEXT_CHARS as i64) * MAX_CHAR_WIDTH_UM,
        r.metrics == words_metrics(*cache, words@, start as int, r.end as int),
        r.end > start + 1 ==> r.width.0 <= avail.0,
        r.end < words@.len() ==> words_width_sum(*cache, words@, start as int, r.end as int)
            + spec_word_width(*cache, words@[r.end as int]) > avail.0,
        forall|k: int|
            start < k < r.end ==> #[trigger] words_width_sum(*cache, words@, start as int, k + 1)
                <= avail.0,
        r.width.0 >= 0,
        r.metrics.line_height.0 >= 0,
        r.metrics.glyph_height.0 >= 0,
        r.metrics.line_height.0 <= MAX_CHAR_WIDTH_UM,
        r.metrics.glyph_height.0 <= MAX_CHAR_WIDTH_UM,
    {
    let len = words.len();
    let first = &words[start];
    let mut width: i64 = first.style.str_width(cache, first.s.as_str()).0;
    let m = first.style.metrics(cache);
    let mut glyph_height: i64 = m.glyph_height.0;
    let mut line_height: i64 = m.line_height.0;
    let mut end: usize = start + 1;
    proof {
        lemma_words_width_sum_step(*cache, words@, start as int, start as int);
        lemma_words_metrics_step(*cache, words@, start as int, start as int);
        assert(Mm(0).spec_max(Mm(glyph_height)) == Mm(glyph_height));
    }
    let mut stop = false;
    while !stop && end < len
        invariant
            start < end <= len,
            len == words@.len(),
            wf_words(words@),
            avail.0 <= MAX_AREA_UM,
            width == words_width_sum(*cache, words@, start as int, end as int),
            0 <= width <= MAX_AREA_UM + (MAX_TEXT_CHARS as i64) * MAX_CHAR_WIDTH_UM,
            end > start + 1 ==> width <= avail.0,
            glyph_height == words_metrics(*cache, words@, start as int, end as int).glyph_height.0,
            line_height == words_metrics(*cache, words@, start as int, end as int).line_height.0,
            0 <= glyph_height <= MAX_CHAR_WIDTH_UM,
            0 <= line_height <= MAX_CHAR_WIDTH_UM,
            forall|k: int|
                start < k < end ==> #[trigger] words_width_sum(*cache, words@, start as int, k + 1)
                    <= avail.0,
            stop ==> end < len && words_width_sum(*cache, words@, start as int, end as int)
                + spec_word_width(*cache, words@[end as int]) > avail.0,
            spec_line_end(*cache, words@, start as int, avail.0 as int, end as int)
                == spec_line_end(*cache, words@, start as int, avail.0 as int, start + 1),
        decreases len - end, if stop { 0int } else { 1int },
    {
        let next = &words[end];
        let next_width = next.style.str_width(cache, next.s.as_str()).0;
        proof {
            lemma_words_width_sum_step(*cache, words@, start as int, end as int);
            lemma_words_metrics_step(*cache, words@, start as int, end as int);
        }
        if width + next_width > avail.0 {
            stop = true;
        } else {
            width = width + next_width;
            let nm = next.style.metrics(cache);
            if nm.glyph_height.0 > glyph_height {
                glyph_height = nm.glyph_height.0;
            }
            if nm.line_height.0 > line_height {
                line_height = nm.line_height.0;
            }
            end = end + 1;
        }
    }
    proof {
        if end < words@.len() {
            lemma_words_width_sum_step(*cache, words@, start as int, end as int);
        }
        assert(spec_line_end(*cache, words@, start as int, avail.0 as int, end as int)
            == end as int);
    }
    LineBreak {
        end,
        width: Mm(width),
        metrics: Metrics { glyph_height: Mm(glyph_height), line_height: Mm(line_height) },
    }
}

} // verus!
