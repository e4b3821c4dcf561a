//! The canonical text of a chapter: the lines of its blocks, trimmed, the
//! empty ones dropped, joined by single line feeds, with the style of
//! every byte.

use vstd::prelude::*;
use crate::content::Content;
use crate::position::Len;
use crate::style::{
    lemma_admitted_is_position, lemma_position_of_prefix, lemma_runs_in_text, lemma_segs_rise, lemma_uncovered,
    runs_in, runs_style_at, seg_start, segs_bytes, segs_chars, styling_fits, Builder, Run, Style, Styling,
};
use crate::text::{
    byte_count, byte_len, char_is_whitespace, chars_of, is_position, is_whitespace, lemma_byte_len_bounds,
    lemma_byte_len_concat, lemma_byte_len_prefix, lemma_byte_len_push, lemma_positions_agree, length_fits,
    utf8_len,
};

verus! {

/// How many characters of `t` from `from` on come before the next line
/// feed.
pub open spec fn line_len(t: Seq<char>, from: int) -> nat
    decreases t.len() - from,
{
    if from < 0 || from >= t.len() || t[from] == '\n' {
        0
    } else {
        1 + line_len(t, from + 1)
    }
}

/// How many characters of `t[lo..hi]` at its start are whitespace.
pub open spec fn leading_space(t: Seq<char>, lo: int, hi: int) -> nat
    decreases hi - lo,
{
    if 0 <= lo < hi <= t.len() && is_whitespace(t[lo]) {
        1 + leading_space(t, lo + 1, hi)
    } else {
        0
    }
}

/// How many characters of `t[lo..hi]` at its end are whitespace.
pub open spec fn closing_space(t: Seq<char>, lo: int, hi: int) -> nat
    decreases hi - lo,
{
    if 0 <= lo < hi <= t.len() && is_whitespace(t[hi - 1]) {
        1 + closing_space(t, lo, hi - 1)
    } else {
        0
    }
}

/// The lines of `t` from `from` on, each as the range of its characters:
/// `t` is cut at its line feeds, each part is trimmed at both ends, and
/// the parts that are then empty are left out.
pub open spec fn line_ranges(t: Seq<char>, from: int) -> Seq<(int, int)>
    decreases t.len() - from,
{
    if from < 0 || from > t.len() {
        Seq::empty()
    } else {
        let e = from + line_len(t, from);
        let a = from + leading_space(t, from, e);
        let b = e - closing_space(t, a, e);
        let rest = if e < t.len() {
            line_ranges(t, e + 1)
        } else {
            Seq::empty()
        };
        if a < b {
            seq![(a, b)] + rest
        } else {
            rest
        }
    }
}

/// A text with the style of each of its bytes.
pub struct Canon {
    pub chars: Seq<char>,
    pub styles: Seq<u8>,
}

/// `acc` with the line `t[a..b]` added: after a line feed of no style
/// where `acc` holds text already, and with the styles that `y` gives the
/// bytes of the line.
pub open spec fn append_line(acc: Canon, t: Seq<char>, y: Styling, a: int, b: int) -> Canon {
    let base = byte_len(t.take(a));
    let line = t.subrange(a, b);
    let styles = Seq::new(byte_len(line), |o: int| y.style_at(base + o));
    if acc.chars.len() > 0 {
        Canon { chars: acc.chars.push('\n') + line, styles: acc.styles.push(0u8) + styles }
    } else {
        Canon { chars: acc.chars + line, styles: acc.styles + styles }
    }
}

/// `acc` with the lines of `t` at `ranges` added in order.
pub open spec fn append_lines(acc: Canon, t: Seq<char>, y: Styling, ranges: Seq<(int, int)>) -> Canon
    decreases ranges.len(),
{
    if ranges.len() == 0 {
        acc
    } else {
        append_line(append_lines(acc, t, y, ranges.drop_last()), t, y, ranges.last().0, ranges.last().1)
    }
}

/// The canonical text of `blocks` with its styles. An image adds nothing.
pub open spec fn canon_blocks(blocks: Seq<Content>) -> Canon
    decreases blocks.len(),
{
    if blocks.len() == 0 {
        Canon { chars: Seq::empty(), styles: Seq::empty() }
    } else {
        let acc = canon_blocks(blocks.drop_last());
        let last = blocks.last();
        if last.has_text() {
            append_lines(acc, last.text(), last.styling(), line_ranges(last.text(), 0))
        } else {
            acc
        }
    }
}

/// Where one line of a text lies: the trimmed line from `first` up to
/// `last`, and the line feed or the end of the text at `end`.
pub struct LineScan {
    pub first: Len,
    pub last: Len,
    pub end: usize,
    pub end_bytes: usize,
}

/// Finds the line of `chars` that starts at `from`.
pub fn scan_line(chars: &Vec<char>, from: usize, from_bytes: usize) -> (r: LineScan)
    requires
        from <= chars.len(),
        from_bytes == byte_len(chars@.take(from as int)),
        byte_len(chars@) <= usize::MAX,
    ensures
        r.end == from + line_len(chars@, from as int),
        r.end <= chars.len(),
        r.end < chars.len() ==> chars@[r.end as int] == '\n',
        r.end_bytes == byte_len(chars@.take(r.end as int)),
        r.first.chars == from + leading_space(chars@, from as int, r.end as int),
        r.last.chars == r.end - closing_space(chars@, r.first.chars as int, r.end as int),
        r.first.chars <= r.last.chars,
        is_position(chars@, r.first),
        is_position(chars@, r.last),
{
    let ghost t = chars@;
    let n = chars.len();
    let mut end = from;
    let mut end_bytes = from_bytes;
    while end < n && chars[end] != '\n'
        invariant
            from <= end <= n == t.len(),
            t == chars@,
            byte_len(t) <= usize::MAX,
            line_len(t, from as int) == (end - from) + line_len(t, end as int),
            end_bytes == byte_len(t.take(end as int)),
        decreases n - end,
    {
        proof {
            assert(t.take(end + 1) == t.take(end as int).push(t[end as int]));
            lemma_byte_len_push(t.take(end as int), t[end as int]);
            lemma_byte_len_prefix(t, end + 1, n as int);
        }
        end_bytes += utf8_len(chars[end]);
        end += 1;
    }
    let mut first = from;
    let mut first_bytes = from_bytes;
    while first < end && char_is_whitespace(chars[first])
        invariant
            from <= first <= end <= n == t.len(),
            t == chars@,
            byte_len(t) <= usize::MAX,
            leading_space(t, from as int, end as int) == (first - from) + leading_space(t, first as int, end as int),
            first_bytes == byte_len(t.take(first as int)),
        decreases end - first,
    {
        proof {
            assert(t.take(first + 1) == t.take(first as int).push(t[first as int]));
            lemma_byte_len_push(t.take(first as int), t[first as int]);
            lemma_byte_len_prefix(t, first + 1, n as int);
        }
        first_bytes += utf8_len(chars[first]);
        first += 1;
    }
    let mut last = end;
    let mut last_bytes = end_bytes;
    while last > first && char_is_whitespace(chars[last - 1])
        invariant
            first <= last <= end <= n == t.len(),
            t == chars@,
            closing_space(t, first as int, end as int) == (end - last) + closing_space(t, first as int, last as int),
            last_bytes == byte_len(t.take(last as int)),
        decreases last,
    {
        proof {
            assert(t.take(last as int) == t.take(last - 1).push(t[last - 1]));
            lemma_byte_len_push(t.take(last - 1), t[last - 1]);
        }
        last -= 1;
        last_bytes -= utf8_len(chars[last]);
    }
    LineScan { first: Len::new(first_bytes, first), last: Len::new(last_bytes, last), end, end_bytes }
}

/// Appends `chars[from..to]` to `out`.
pub fn push_range(out: &mut String, chars: &Vec<char>, from: usize, to: usize)
    requires
        from <= to <= chars.len(),
    ensures
        final(out)@ == old(out)@ + chars@.subrange(from as int, to as int),
{
    let mut i = from;
    while i < to
        invariant
            from <= i <= to <= chars.len(),
            out@ == old(out)@ + chars@.subrange(from as int, i as int),
        decreases to - i,
    {
        out.push(chars[i]);
        i += 1;
        proof {
            assert(chars@.subrange(from as int, i as int) == chars@.subrange(from as int, i - 1).push(chars@[i - 1]));
        }
    }
}

/// The text `out` and the runs recorded for it stand for `acc`: the
/// same characters, a style for every byte, the styles that the runs
/// give, and every run between character boundaries of the text.
pub open spec fn assembled(out: Seq<char>, runs: Seq<Run>, acc: Canon) -> bool {
    &&& acc.chars == out
    &&& acc.styles.len() == byte_len(out)
    &&& forall|b: int| 0 <= b < acc.styles.len() ==> runs_style_at(runs, b) == #[trigger] acc.styles[b]
    &&& runs_in(out, runs)
}

/// A boundary `p` of the line `t[first..last]` is, moved to where the
/// line stands in `prev + line`, a boundary of that text.
pub proof fn lemma_moved_position(prev: Seq<char>, t: Seq<char>, first: Len, last: Len, p: Len)
    requires
        is_position(t, first),
        is_position(t, last),
        is_position(t, p),
        first.chars <= p.chars <= last.chars,
    ensures
        first.bytes <= p.bytes <= last.bytes,
        byte_len((prev + t.subrange(first.chars as int, last.chars as int)).take(prev.len() + p.chars - first.chars))
            == byte_len(prev) + p.bytes - first.bytes,
        byte_len(t.subrange(first.chars as int, last.chars as int)) == last.bytes - first.bytes,
{
    let a = first.chars as int;
    let b = last.chars as int;
    let m = p.chars as int;
    let line = t.subrange(a, b);
    lemma_byte_len_prefix(t, a, m);
    lemma_byte_len_prefix(t, m, b);
    assert(t.take(m) == t.take(a) + t.subrange(a, m));
    lemma_byte_len_concat(t.take(a), t.subrange(a, m));
    assert(t.take(b) == t.take(a) + line);
    lemma_byte_len_concat(t.take(a), line);
    assert((prev + line).take(prev.len() + m - a) == prev + t.subrange(a, m));
    lemma_byte_len_concat(prev, t.subrange(a, m));
}

/// Where the pieces of a line meet is a character boundary of the text
/// that the line is from, between the ends of the line.
pub proof fn lemma_seg_point(y: Styling, t: Seq<char>, first: Len, last: Len, segs: Seq<(Style, Len)>, k: int)
    requires
        styling_fits(t, y),
        y.is_segmentation(first, last, segs),
        is_position(t, first),
        is_position(t, last),
        byte_len(t) <= usize::MAX,
        0 <= k <= segs.len(),
    ensures
        is_position(t, seg_start(first, segs, k)),
        seg_start(first, segs, k).bytes == first.bytes + segs_bytes(segs, k),
        seg_start(first, segs, k).chars == first.chars + segs_chars(segs, k),
        first.chars <= seg_start(first, segs, k).chars <= last.chars,
        first.bytes <= seg_start(first, segs, k).bytes <= last.bytes,
{
    lemma_segs_rise(segs, 0, k);
    lemma_segs_rise(segs, k, segs.len() as int);
    let p = seg_start(first, segs, k);
    if k == 0 {
        assert(p == first);
    } else if k == segs.len() {
        assert(p == last);
    } else {
        assert(y.is_boundary(p));
        let w = choose|w: int| 0 <= w < y.points().len() && y.points()[w] == p;
        assert forall|q: Len| is_position(t, q) implies #[trigger] p.agrees(q) by {
            assert(y.admits(q));
            assert(q.agrees(y.points()[w]));
        }
        lemma_byte_len_prefix(t, last.chars as int, t.len() as int);
        lemma_admitted_is_position(t, p);
    }
}

/// A run recorded behind all earlier runs gives its own style to the
/// bytes that it covers and leaves every other byte as it was.
pub proof fn lemma_add_run(runs: Seq<Run>, run: Run)
    requires
        forall|i: int| 0 <= i < runs.len() ==> (#[trigger] runs[i]).end.bytes <= run.start.bytes,
    ensures
        forall|b: int|
            #[trigger] runs_style_at(runs.push(run), b) == (if run.covers(b) {
                run.style.bits
            } else {
                runs_style_at(runs, b)
            }),
{
    let now = runs.push(run);
    assert(now.drop_last() == runs);
    assert(now.last() == run);
    assert forall|b: int|
        #[trigger] runs_style_at(now, b) == (if run.covers(b) {
            run.style.bits
        } else {
            runs_style_at(runs, b)
        }) by {
        if run.covers(b) {
            assert forall|i: int| 0 <= i < runs.len() implies !(#[trigger] runs[i]).covers(b) by {}
            lemma_uncovered(runs, b);
            let bits = run.style.bits;
            assert(0u8 | bits == bits) by (bit_vector);
        }
    }
}

/// Records the styles of a line whose pieces are `segs`, for the place
/// where the line stands in the text: behind `prev`, at `start`.
fn record_pieces(
    builder: &mut Builder,
    segs: &Vec<(Style, Len)>,
    start: Len,
    first: Len,
    last: Len,
    Ghost(prev): Ghost<Seq<char>>,
    Ghost(t): Ghost<Seq<char>>,
    Ghost(y): Ghost<Styling>,
)
    requires
        styling_fits(t, y),
        y.is_segmentation(first, last, segs@),
        is_position(t, first),
        is_position(t, last),
        first.chars <= last.chars,
        byte_len(t) <= usize::MAX,
        byte_len(prev + t.subrange(first.chars as int, last.chars as int)) <= usize::MAX,
        start.bytes == byte_len(prev),
        start.chars == prev.len(),
        runs_in(prev, old(builder)@),
    ensures
        runs_in(prev + t.subrange(first.chars as int, last.chars as int), final(builder)@),
        forall|b: int| 0 <= b < start.bytes ==> #[trigger] runs_style_at(final(builder)@, b) == runs_style_at(old(builder)@, b),
        forall|b: int|
            start.bytes <= b < start.bytes + last.bytes - first.bytes ==> #[trigger] runs_style_at(final(builder)@, b)
                == y.style_at(first.bytes + b - start.bytes),
{
    let ghost out = prev + t.subrange(first.chars as int, last.chars as int);
    let ghost runs0 = builder@;
    proof {
        lemma_moved_position(prev, t, first, last, last);
        assert(out.take(prev.len() + last.chars - first.chars) == out);
        assert forall|i: int| 0 <= i < runs0.len() implies is_position(out, (#[trigger] runs0[i]).start)
            && is_position(out, runs0[i].end) && runs0[i].end.bytes <= start.bytes by {
            assert(out.take(prev.len() as int) == prev);
            lemma_position_of_prefix(prev, out, runs0[i].start);
            lemma_position_of_prefix(prev, out, runs0[i].end);
            lemma_byte_len_prefix(prev, runs0[i].end.chars as int, prev.len() as int);
        }
    }
    let mut cur = start;
    let mut k: usize = 0;
    while k < segs.len()
        invariant
            0 <= k <= segs.len(),
            styling_fits(t, y),
            y.is_segmentation(first, last, segs@),
            is_position(t, first),
            is_position(t, last),
            first.chars <= last.chars,
            byte_len(t) <= usize::MAX,
            out == prev + t.subrange(first.chars as int, last.chars as int),
            byte_len(out) <= usize::MAX,
            start.bytes == byte_len(prev),
            start.chars == prev.len(),
            runs0 == old(builder)@,
            cur.bytes == start.bytes + segs_bytes(segs@, k as int),
            cur.chars == start.chars + segs_chars(segs@, k as int),
            forall|i: int|
                0 <= i < builder@.len() ==> is_position(out, (#[trigger] builder@[i]).start) && is_position(
                    out,
                    builder@[i].end,
                ) && builder@[i].end.bytes <= cur.bytes,
            forall|b: int| 0 <= b < start.bytes ==> #[trigger] runs_style_at(builder@, b) == runs_style_at(runs0, b),
            forall|b: int|
                start.bytes <= b < cur.bytes ==> #[trigger] runs_style_at(builder@, b) == y.style_at(
                    first.bytes + b - start.bytes,
                ),
        decreases segs.len() - k,
    {
        let st = segs[k].0;
        let len = segs[k].1;
        let ghost runs = builder@;
        proof {
            lemma_seg_point(y, t, first, last, segs@, k as int);
            lemma_seg_point(y, t, first, last, segs@, k + 1);
            lemma_moved_position(prev, t, first, last, seg_start(first, segs@, k as int));
            lemma_moved_position(prev, t, first, last, seg_start(first, segs@, k + 1));
            assert(segs_bytes(segs@, k + 1) == segs_bytes(segs@, k as int) + len.bytes);
            assert(segs_chars(segs@, k + 1) == segs_chars(segs@, k as int) + len.chars);
            lemma_byte_len_concat(prev, t.subrange(first.chars as int, last.chars as int));
            lemma_byte_len_bounds(out);
        }
        let next = Len::new(cur.bytes + len.bytes, cur.chars + len.chars);
        proof {
            assert(is_position(out, cur));
            assert(is_position(out, next));
            lemma_runs_in_text(out, runs);
            lemma_positions_agree(out, cur, next);
        }
        builder.add(st, cur..next);
        proof {
            let run = Run { style: st, start: cur, end: next };
            lemma_add_run(runs, run);
            assert forall|b: int| cur.bytes <= b < next.bytes implies #[trigger] runs_style_at(builder@, b)
                == y.style_at(first.bytes + b - start.bytes) by {
                let byte = first.bytes + b - start.bytes;
                assert(seg_start(first, segs@, k as int).bytes <= byte < seg_start(first, segs@, k + 1).bytes);
                assert(y.style_at(byte) == segs@[k as int].0.bits);
            }
        }
        cur = next;
        k += 1;
    }
    proof {
        lemma_seg_point(y, t, first, last, segs@, segs.len() as int);
    }
}

/// `acc` with a line feed of no style added where it holds text
/// already.
pub open spec fn with_separator(acc: Canon) -> Canon {
    if acc.chars.len() > 0 {
        Canon { chars: acc.chars.push('\n'), styles: acc.styles.push(0u8) }
    } else {
        acc
    }
}

/// Adds the line feed that parts a new line from the text so far, and
/// says where the new line starts.
fn start_line(out: &mut String, count: &mut usize, Ghost(acc): Ghost<Canon>, Ghost(runs): Ghost<Seq<Run>>) -> (start:
    Len)
    requires
        assembled(old(out)@, runs, acc),
        *old(count) == old(out)@.len(),
    ensures
        assembled(final(out)@, runs, with_separator(acc)),
        *final(count) == final(out)@.len(),
        start.bytes == byte_len(final(out)@),
        start.chars == final(out)@.len(),
{
    let ghost before = out@;
    proof {
        lemma_runs_in_text(before, runs);
    }
    if *count > 0 {
        out.push('\n');
        length_fits(out.as_str());
        *count = *count + 1;
        proof {
            lemma_byte_len_push(before, '\n');
            let now = with_separator(acc);
            assert(now.chars == out@);
            assert forall|b: int| 0 <= b < now.styles.len() implies runs_style_at(runs, b) == #[trigger] now.styles[b] by {
                if b < acc.styles.len() {
                    assert(now.styles[b] == acc.styles[b]);
                }
            }
            assert(out@.take(before.len() as int) == before);
            assert forall|i: int| 0 <= i < runs.len() implies is_position(out@, (#[trigger] runs[i]).start)
                && is_position(out@, runs[i].end) by {
                lemma_position_of_prefix(before, out@, runs[i].start);
                lemma_position_of_prefix(before, out@, runs[i].end);
            }
        }
    }
    Len::new(byte_count(out.as_str()), *count)
}

/// The text and the runs stand for `acc` with the line added, once the
/// runs give the bytes of the line the styles that the index gives them
/// and leave the bytes before as they were.
proof fn lemma_line_added(
    prev: Seq<char>,
    before: Seq<Run>,
    now: Seq<Run>,
    acc: Canon,
    t: Seq<char>,
    y: Styling,
    first: Len,
    last: Len,
)
    requires
        assembled(prev, before, acc),
        is_position(t, first),
        is_position(t, last),
        first.chars <= last.chars,
        runs_in(prev + t.subrange(first.chars as int, last.chars as int), now),
        forall|b: int| 0 <= b < byte_len(prev) ==> #[trigger] runs_style_at(now, b) == runs_style_at(before, b),
        forall|b: int|
            byte_len(prev) <= b < byte_len(prev) + last.bytes - first.bytes ==> #[trigger] runs_style_at(now, b)
                == y.style_at(first.bytes + b - byte_len(prev)),
    ensures
        assembled(
            prev + t.subrange(first.chars as int, last.chars as int),
            now,
            Canon {
                chars: acc.chars + t.subrange(first.chars as int, last.chars as int),
                styles: acc.styles + Seq::new(
                    byte_len(t.subrange(first.chars as int, last.chars as int)),
                    |o: int| y.style_at(byte_len(t.take(first.chars as int)) + o),
                ),
            },
        ),
{
    let line = t.subrange(first.chars as int, last.chars as int);
    let done = Canon {
        chars: acc.chars + line,
        styles: acc.styles + Seq::new(byte_len(line), |o: int| y.style_at(byte_len(t.take(first.chars as int)) + o)),
    };
    lemma_moved_position(prev, t, first, last, last);
    lemma_byte_len_concat(prev, line);
    assert forall|b: int| 0 <= b < done.styles.len() implies runs_style_at(now, b) == #[trigger] done.styles[b] by {
        if b < byte_len(prev) {
            assert(done.styles[b] == acc.styles[b]);
        } else {
            assert(done.styles[b] == y.style_at(first.bytes + (b - byte_len(prev))));
        }
    }
}

/// Adds the line `chars[first..last]` to the text and records its
/// styles.
fn add_line(
    out: &mut String,
    count: &mut usize,
    builder: &mut Builder,
    chars: &Vec<char>,
    styling: &Styling,
    first: Len,
    last: Len,
    Ghost(acc): Ghost<Canon>,
)
    requires
        assembled(old(out)@, old(builder)@, acc),
        *old(count) == old(out)@.len(),
        styling_fits(chars@, *styling),
        is_position(chars@, first),
        is_position(chars@, last),
        first.chars < last.chars,
        byte_len(chars@) <= usize::MAX,
    ensures
        assembled(
            final(out)@,
            final(builder)@,
            append_line(acc, chars@, *styling, first.chars as int, last.chars as int),
        ),
        *final(count) == final(out)@.len(),
{
    let ghost t = chars@;
    let ghost runs0 = builder@;
    let start = start_line(out, count, Ghost(acc), Ghost(runs0));
    let ghost prev = out@;
    push_range(out, chars, first.chars, last.chars);
    length_fits(out.as_str());
    *count = start.chars + (last.chars - first.chars);
    proof {
        lemma_positions_agree(t, first, last);
        lemma_byte_len_prefix(t, first.chars as int, last.chars as int);
    }
    let segs = styling.iter(first, last);
    record_pieces(builder, &segs, start, first, last, Ghost(prev), Ghost(t), Ghost(*styling));
    proof {
        lemma_line_added(prev, runs0, builder@, with_separator(acc), t, *styling, first, last);
    }
}

/// Adds the lines of one block to the text and records their styles.
fn add_block(
    out: &mut String,
    count: &mut usize,
    builder: &mut Builder,
    text: &str,
    styling: &Styling,
    Ghost(acc): Ghost<Canon>,
)
    requires
        assembled(old(out)@, old(builder)@, acc),
        *old(count) == old(out)@.len(),
        styling_fits(text@, *styling),
    ensures
        assembled(final(out)@, final(builder)@, append_lines(acc, text@, *styling, line_ranges(text@, 0))),
        *final(count) == final(out)@.len(),
{
    let chars = chars_of(text);
    length_fits(text);
    let n = chars.len();
    let ghost t = chars@;
    let mut from: usize = 0;
    let mut from_bytes: usize = 0;
    let ghost mut done: Seq<(int, int)> = Seq::empty();
    let ghost mut now = acc;
    loop
        invariant_except_break
            done + line_ranges(t, from as int) == line_ranges(t, 0),
        invariant
            n == chars.len(),
            t == chars@,
            t == text@,
            byte_len(t) <= usize::MAX,
            styling_fits(t, *styling),
            from <= n,
            from_bytes == byte_len(t.take(from as int)),
            now == append_lines(acc, t, *styling, done),
            assembled(out@, builder@, now),
            *count == out@.len(),
        ensures
            assembled(out@, builder@, append_lines(acc, t, *styling, line_ranges(t, 0))),
            *count == out@.len(),
        decreases n - from,
    {
        let scan = scan_line(&chars, from, from_bytes);
        let ghost rest = if scan.end < n {
            line_ranges(t, scan.end + 1)
        } else {
            Seq::empty()
        };
        if scan.first.chars < scan.last.chars {
            add_line(out, count, builder, &chars, styling, scan.first, scan.last, Ghost(now));
            proof {
                let range = (scan.first.chars as int, scan.last.chars as int);
                assert(line_ranges(t, from as int) == seq![range] + rest);
                assert(done.push(range).drop_last() == done);
                now = append_line(now, t, *styling, range.0, range.1);
                done = done.push(range);
                assert(done + rest == line_ranges(t, 0));
            }
        } else {
            proof {
                assert(line_ranges(t, from as int) == rest);
            }
        }
        if scan.end >= n {
            proof {
                assert(done + rest == done);
                assert(done == line_ranges(t, 0));
            }
            break ;
        }
        proof {
            let e = scan.end as int;
            assert(t.take(e + 1) == t.take(e).push(t[e]));
            lemma_byte_len_push(t.take(e), t[e]);
            lemma_byte_len_prefix(t, e + 1, n as int);
        }
        from = scan.end + 1;
        from_bytes = scan.end_bytes + 1;
    }
}

/// The canonical text of `blocks` and the style index over it.
pub fn assemble(blocks: &Vec<Content>) -> (r: (String, Styling))
    requires
        forall|i: int| 0 <= i < blocks.len() ==> (#[trigger] blocks[i]).wf(),
    ensures
        r.0@ == canon_blocks(blocks@).chars,
        canon_blocks(blocks@).styles.len() == byte_len(r.0@),
        styling_fits(r.0@, r.1),
        forall|b: int| 0 <= b < byte_len(r.0@) ==> r.1.style_at(b) == #[trigger] canon_blocks(blocks@).styles[b],
        forall|b: int| b >= byte_len(r.0@) ==> #[trigger] r.1.style_at(b) == 0,
{
    let mut out = String::new();
    let mut count: usize = 0;
    let mut builder = Styling::builder();
    let mut i: usize = 0;
    while i < blocks.len()
        invariant
            i <= blocks.len(),
            forall|j: int| 0 <= j < blocks.len() ==> (#[trigger] blocks[j]).wf(),
            assembled(out@, builder@, canon_blocks(blocks@.take(i as int))),
            count == out@.len(),
        decreases blocks.len() - i,
    {
        let ghost acc = canon_blocks(blocks@.take(i as int));
        proof {
            assert(blocks@.take(i + 1).drop_last() == blocks@.take(i as int));
            assert(blocks@.take(i + 1).last() == blocks@[i as int]);
            assert(blocks[i as int].wf());
        }
        match &blocks[i] {
            Content::Header(text, styling) => {
                add_block(&mut out, &mut count, &mut builder, text.as_str(), styling, Ghost(acc));
            },
            Content::Paragraph(text, styling) => {
                add_block(&mut out, &mut count, &mut builder, text.as_str(), styling, Ghost(acc));
            },
            Content::Quote(text, styling) => {
                add_block(&mut out, &mut count, &mut builder, text.as_str(), styling, Ghost(acc));
            },
            Content::Image => {},
        }
        i += 1;
    }
    proof {
        assert(blocks@.take(blocks.len() as int) == blocks@);
        lemma_runs_in_text(out@, builder@);
    }
    let ghost runs = builder@;
    let styling = builder.build();
    proof {
        assert forall|p: Len| is_position(out@, p) implies #[trigger] styling.admits(p) by {
            assert forall|w: int| 0 <= w < styling.points().len() implies p.agrees(#[trigger] styling.points()[w]) by {
                let q = styling.points()[w];
                assert(styling.is_boundary(q));
                let r = choose|r: int|
                    0 <= r < runs.len() && #[trigger] runs[r].nonempty() && (runs[r].start == q || runs[r].end == q);
                lemma_positions_agree(out@, p, q);
            }
        }
    }
    (out, styling)
}

/// A text is tidy where it neither starts nor ends with whitespace and
/// every line feed in it stands between two characters that are no
/// whitespace: no line is empty, and none starts or ends with
/// whitespace.
pub open spec fn tidy(s: Seq<char>) -> bool {
    &&& s.len() > 0 ==> !is_whitespace(s[0]) && !is_whitespace(s.last())
    &&& forall|i: int|
        0 <= i < s.len() && #[trigger] s[i] == '\n' ==> 0 < i < s.len() - 1 && !is_whitespace(s[i - 1])
            && !is_whitespace(s[i + 1])
}

/// A line is clean where it is not empty, neither starts nor ends with
/// whitespace, and holds no line feed.
pub open spec fn clean(line: Seq<char>) -> bool {
    &&& line.len() > 0
    &&& !is_whitespace(line[0])
    &&& !is_whitespace(line.last())
    &&& forall|i: int| 0 <= i < line.len() ==> #[trigger] line[i] != '\n'
}

/// No line feed stands before the end of a line, and the line ends
/// inside the text.
pub proof fn lemma_line_len(t: Seq<char>, from: int)
    requires
        0 <= from <= t.len(),
    ensures
        from + line_len(t, from) <= t.len(),
        forall|i: int| from <= i < from + line_len(t, from) ==> #[trigger] t[i] != '\n',
    decreases t.len() - from,
{
    if from < t.len() && t[from] != '\n' {
        lemma_line_len(t, from + 1);
    }
}

/// The whitespace that is counted at the start of a stretch lies in the
/// stretch, and what follows it in the stretch is none.
pub proof fn lemma_leading_space(t: Seq<char>, lo: int, hi: int)
    requires
        0 <= lo <= hi <= t.len(),
    ensures
        lo + leading_space(t, lo, hi) <= hi,
        lo + leading_space(t, lo, hi) < hi ==> !is_whitespace(t[lo + leading_space(t, lo, hi)]),
    decreases hi - lo,
{
    if lo < hi && is_whitespace(t[lo]) {
        lemma_leading_space(t, lo + 1, hi);
    }
}

/// The whitespace that is counted at the end of a stretch lies in the
/// stretch, and what stands before it in the stretch is none.
pub proof fn lemma_closing_space(t: Seq<char>, lo: int, hi: int)
    requires
        0 <= lo <= hi <= t.len(),
    ensures
        lo <= hi - closing_space(t, lo, hi),
        lo < hi - closing_space(t, lo, hi) ==> !is_whitespace(t[hi - closing_space(t, lo, hi) - 1]),
    decreases hi - lo,
{
    if lo < hi && is_whitespace(t[hi - 1]) {
        lemma_closing_space(t, lo, hi - 1);
    }
}

/// Every line of a text is clean.
pub proof fn lemma_lines_clean(t: Seq<char>, from: int)
    requires
        0 <= from <= t.len(),
    ensures
        forall|k: int|
            0 <= k < line_ranges(t, from).len() ==> 0 <= (#[trigger] line_ranges(t, from)[k]).0 < line_ranges(
                t,
                from,
            )[k].1 <= t.len() && clean(t.subrange(line_ranges(t, from)[k].0, line_ranges(t, from)[k].1)),
    decreases t.len() - from,
{
    let e = from + line_len(t, from);
    lemma_line_len(t, from);
    lemma_leading_space(t, from, e);
    let a = from + leading_space(t, from, e);
    lemma_closing_space(t, a, e);
    let b = e - closing_space(t, a, e);
    let rest = if e < t.len() {
        line_ranges(t, e + 1)
    } else {
        Seq::empty()
    };
    if e < t.len() {
        lemma_lines_clean(t, e + 1);
    }
    assert forall|k: int| 0 <= k < line_ranges(t, from).len() implies {
        &&& 0 <= (#[trigger] line_ranges(t, from)[k]).0 < line_ranges(t, from)[k].1 <= t.len()
        &&& clean(t.subrange(line_ranges(t, from)[k].0, line_ranges(t, from)[k].1))
    } by {
        if a < b {
            if k == 0 {
                let line = t.subrange(a, b);
                assert(line[0] == t[a]);
                assert(line.last() == t[b - 1]);
            } else {
                assert(line_ranges(t, from)[k] == rest[k - 1]);
            }
        } else {
            assert(line_ranges(t, from)[k] == rest[k]);
        }
    }
}

/// A tidy text stays tidy when a clean line is added to it.
pub proof fn lemma_append_line_tidy(acc: Canon, t: Seq<char>, y: Styling, a: int, b: int)
    requires
        tidy(acc.chars),
        0 <= a < b <= t.len(),
        clean(t.subrange(a, b)),
    ensures
        tidy(append_line(acc, t, y, a, b).chars),
{
    let line = t.subrange(a, b);
    let now = append_line(acc, t, y, a, b).chars;
    let n = acc.chars.len() as int;
    if n > 0 {
        assert(now == acc.chars.push('\n') + line);
        assert(now[0] == acc.chars[0]);
        assert(now.last() == line.last());
        assert forall|i: int| 0 <= i < now.len() && #[trigger] now[i] == '\n' implies 0 < i < now.len() - 1
            && !is_whitespace(now[i - 1]) && !is_whitespace(now[i + 1]) by {
            if i < n {
                assert(now[i] == acc.chars[i]);
                assert(now[i - 1] == acc.chars[i - 1]);
                if i + 1 < n {
                    assert(now[i + 1] == acc.chars[i + 1]);
                }
            } else if i == n {
                assert(now[i - 1] == acc.chars.last());
                assert(now[i + 1] == line[0]);
            } else {
                assert(now[i] == line[i - n - 1]);
            }
        }
    } else {
        assert(now == line);
    }
}

/// A tidy text stays tidy when the lines of a text are added to it.
pub proof fn lemma_append_lines_tidy(acc: Canon, t: Seq<char>, y: Styling, ranges: Seq<(int, int)>)
    requires
        tidy(acc.chars),
        forall|k: int|
            0 <= k < ranges.len() ==> 0 <= (#[trigger] ranges[k]).0 < ranges[k].1 <= t.len() && clean(
                t.subrange(ranges[k].0, ranges[k].1),
            ),
    ensures
        tidy(append_lines(acc, t, y, ranges).chars),
    decreases ranges.len(),
{
    if ranges.len() > 0 {
        let front = ranges.drop_last();
        assert forall|k: int| 0 <= k < front.len() implies 0 <= (#[trigger] front[k]).0 < front[k].1 <= t.len()
            && clean(t.subrange(front[k].0, front[k].1)) by {
            assert(front[k] == ranges[k]);
        }
        lemma_append_lines_tidy(acc, t, y, front);
        let last = ranges[ranges.len() - 1];
        lemma_append_line_tidy(append_lines(acc, t, y, front), t, y, last.0, last.1);
    }
}

/// The canonical text is tidy: it neither starts nor ends with
/// whitespace, it holds no empty line, and none of its lines starts or
/// ends with whitespace.
pub proof fn lemma_canon_tidy(blocks: Seq<Content>)
    ensures
        tidy(canon_blocks(blocks).chars),
    decreases blocks.len(),
{
    if blocks.len() > 0 {
        lemma_canon_tidy(blocks.drop_last());
        let last = blocks[blocks.len() - 1];
        if last.has_text() {
            lemma_lines_clean(last.text(), 0);
            lemma_append_lines_tidy(
                canon_blocks(blocks.drop_last()),
                last.text(),
                last.styling(),
                line_ranges(last.text(), 0),
            );
        }
    }
}

} // verus!
