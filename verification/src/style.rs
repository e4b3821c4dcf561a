//! Style bitmasks and the interval index that maps ranges of a text to them.

use vstd::prelude::*;
use std::ops::Range;
use crate::position::Len;
use crate::text::{byte_len, is_position, lemma_byte_len_prefix, lemma_positions_agree};

verus! {

/// A set of text styles, held as a bitmask.
#[derive(Debug, Copy, Clone, PartialEq, Eq, Structural)]
pub struct Style {
    pub bits: u8,
}

/// The bit of italics.
pub const ITALIC_BIT: u8 = 1;

/// The bit of bold type.
pub const BOLD_BIT: u8 = 2;

impl Style {
    /// Italics alone.
    pub fn italic() -> (r: Style)
        ensures
            r.bits == ITALIC_BIT,
    {
        Style { bits: ITALIC_BIT }
    }

    /// Bold type alone.
    pub fn bold() -> (r: Style)
        ensures
            r.bits == BOLD_BIT,
    {
        Style { bits: BOLD_BIT }
    }

    /// No style at all: the identity of [`Style::union`].
    pub fn empty() -> (r: Style)
        ensures
            r.bits == 0,
    {
        Style { bits: 0 }
    }

    /// Whether no style is set.
    pub fn is_empty(self) -> (r: bool)
        ensures
            r == (self.bits == 0),
    {
        self.bits == 0
    }

    /// Every style of either operand.
    pub fn union(self, other: Style) -> (r: Style)
        ensures
            r.bits == self.bits | other.bits,
    {
        Style { bits: self.bits | other.bits }
    }

    /// Whether every style of `other` is in `self`.
    pub fn contains(self, other: Style) -> (r: bool)
        ensures
            r == (self.bits & other.bits == other.bits),
    {
        self.bits & other.bits == other.bits
    }
}

/// The empty style is the identity of union, which is idempotent,
/// commutative and associative.
pub proof fn lemma_union_laws(a: u8, b: u8, c: u8)
    ensures
        a | 0 == a,
        0 | a == a,
        a | a == a,
        a | b == b | a,
        (a | b) | c == a | (b | c),
{
    assert(a | 0 == a) by (bit_vector);
    assert(0 | a == a) by (bit_vector);
    assert(a | a == a) by (bit_vector);
    assert(a | b == b | a) by (bit_vector);
    assert((a | b) | c == a | (b | c)) by (bit_vector);
}

/// Paragraph alignment. Justified text counts as left-aligned.
#[derive(Debug, Copy, Clone, PartialEq, Eq, Structural)]
pub enum Align {
    Left,
    Center,
    Right,
}

/// One recorded run: `style` over the bytes from `start` up to `end`.
#[derive(Debug, Copy, Clone, PartialEq, Eq, Structural)]
pub struct Run {
    pub style: Style,
    pub start: Len,
    pub end: Len,
}

impl Run {
    /// The run holds the byte at `byte`.
    pub open spec fn covers(self, byte: int) -> bool {
        self.start.bytes <= byte < self.end.bytes
    }

    /// The run holds some byte.
    pub open spec fn nonempty(self) -> bool {
        self.start.bytes < self.end.bytes
    }
}

/// The style that `runs` give the byte at offset `byte`: the union of the
/// styles of all runs that cover it.
pub open spec fn runs_style_at(runs: Seq<Run>, byte: int) -> u8
    decreases runs.len(),
{
    if runs.len() == 0 {
        0
    } else if runs.last().covers(byte) {
        runs_style_at(runs.drop_last(), byte) | runs.last().style.bits
    } else {
        runs_style_at(runs.drop_last(), byte)
    }
}

/// `p` is the start or the end of a run of `runs` that covers something.
pub open spec fn is_endpoint(runs: Seq<Run>, p: Len) -> bool {
    exists|i: int| 0 <= i < runs.len() && #[trigger] runs[i].nonempty() && (runs[i].start == p || runs[i].end == p)
}

/// `p` fits among the ends of the runs that cover something: bytes and
/// characters order it alike against each of them.
pub open spec fn runs_admit(runs: Seq<Run>, p: Len) -> bool {
    forall|i: int|
        0 <= i < runs.len() && #[trigger] runs[i].nonempty() ==> p.agrees(runs[i].start)
            && p.agrees(runs[i].end)
}

/// The ends of the runs that cover something all fit together.
pub open spec fn runs_consistent(runs: Seq<Run>) -> bool {
    forall|i: int|
        0 <= i < runs.len() && #[trigger] runs[i].nonempty() ==> {
            &&& runs[i].start.agrees(runs[i].end)
            &&& runs_admit(runs, runs[i].start)
            &&& runs_admit(runs, runs[i].end)
        }
}

/// No run covers `byte`, so it carries the empty style.
pub proof fn lemma_uncovered(runs: Seq<Run>, byte: int)
    requires
        forall|i: int| 0 <= i < runs.len() ==> !(#[trigger] runs[i]).covers(byte),
    ensures
        runs_style_at(runs, byte) == 0,
    decreases runs.len(),
{
    if runs.len() > 0 {
        assert(!runs[runs.len() - 1].covers(byte));
        assert forall|i: int| 0 <= i < runs.drop_last().len() implies !(#[trigger] runs.drop_last()[i]).covers(byte) by {
            assert(!runs[i].covers(byte));
        }
        lemma_uncovered(runs.drop_last(), byte);
    }
}

/// Where no run starts or ends between two bytes, both carry one style.
pub proof fn lemma_constant_between(runs: Seq<Run>, lo: int, hi: int)
    requires
        lo <= hi,
        forall|i: int|
            0 <= i < runs.len() && #[trigger] runs[i].nonempty() ==> !(lo < runs[i].start.bytes <= hi)
                && !(lo < runs[i].end.bytes <= hi),
    ensures
        runs_style_at(runs, lo) == runs_style_at(runs, hi),
    decreases runs.len(),
{
    if runs.len() > 0 {
        let last = runs[runs.len() - 1];
        assert(last.nonempty() ==> !(lo < last.start.bytes <= hi) && !(lo < last.end.bytes <= hi));
        assert(last.covers(lo) == last.covers(hi));
        assert forall|i: int|
            0 <= i < runs.drop_last().len() && #[trigger] runs.drop_last()[i].nonempty() implies !(lo
            < runs.drop_last()[i].start.bytes <= hi) && !(lo < runs.drop_last()[i].end.bytes <= hi) by {
            assert(runs[i].nonempty());
        }
        lemma_constant_between(runs.drop_last(), lo, hi);
    }
}

/// Runs as they are recorded, before the index is frozen.
#[derive(Debug)]
pub struct Builder {
    runs: Vec<Run>,
}

impl View for Builder {
    type V = Seq<Run>;

    closed spec fn view(&self) -> Seq<Run> {
        self.runs@
    }
}

/// The style of the byte at `byte`, computed from the recorded runs.
fn style_at_byte(runs: &Vec<Run>, byte: usize) -> (r: Style)
    ensures
        r.bits == runs_style_at(runs@, byte as int),
{
    let mut acc = Style::empty();
    let mut i: usize = 0;
    while i < runs.len()
        invariant
            i <= runs.len(),
            acc.bits == runs_style_at(runs@.take(i as int), byte as int),
        decreases runs.len() - i,
    {
        let run = runs[i];
        proof {
            assert(runs@.take(i + 1).drop_last() == runs@.take(i as int));
            assert(runs@.take(i + 1).last() == run);
        }
        if run.start.bytes <= byte && byte < run.end.bytes {
            acc = acc.union(run.style);
        }
        i += 1;
    }
    proof {
        assert(runs@.take(runs.len() as int) == runs@);
    }
    acc
}

/// Whether `byte` lies behind the bound `after`, where there is one.
pub open spec fn lies_beyond(after: Option<usize>, byte: int) -> bool {
    match after {
        Some(a) => a < byte,
        None => true,
    }
}

/// Whether `byte` lies behind the bound `after`, where there is one.
fn is_beyond(after: Option<usize>, byte: usize) -> (r: bool)
    ensures
        r == lies_beyond(after, byte as int),
{
    match after {
        Some(a) => a < byte,
        None => true,
    }
}

/// `p` is the first end of a run beyond `after`, or there is none.
pub open spec fn is_next_endpoint(runs: Seq<Run>, after: Option<usize>, r: Option<Len>) -> bool {
    match r {
        Some(p) => {
            &&& is_endpoint(runs, p)
            &&& lies_beyond(after, p.bytes as int)
            &&& forall|i: int|
                0 <= i < runs.len() && #[trigger] runs[i].nonempty() ==> {
                    &&& lies_beyond(after, runs[i].start.bytes as int) ==> p.bytes <= runs[i].start.bytes
                    &&& lies_beyond(after, runs[i].end.bytes as int) ==> p.bytes <= runs[i].end.bytes
                }
        },
        None => forall|i: int|
            0 <= i < runs.len() && #[trigger] runs[i].nonempty() ==> !lies_beyond(
                after,
                runs[i].start.bytes as int,
            ) && !lies_beyond(after, runs[i].end.bytes as int),
    }
}

/// Whether `p` lies behind `after` and before the best end found so far.
fn better(best: Option<Len>, after: Option<usize>, p: Len) -> (r: bool)
    ensures
        r == (lies_beyond(after, p.bytes as int) && (best matches Some(b) ==> p.bytes < b.bytes)),
{
    if !is_beyond(after, p.bytes) {
        return false;
    }
    match best {
        Some(b) => p.bytes < b.bytes,
        None => true,
    }
}

/// The first end of a run behind `after`.
fn next_endpoint(runs: &Vec<Run>, after: Option<usize>) -> (r: Option<Len>)
    ensures
        is_next_endpoint(runs@, after, r),
{
    let mut best: Option<Len> = None;
    let mut i: usize = 0;
    while i < runs.len()
        invariant
            i <= runs.len(),
            is_next_endpoint(runs@.take(i as int), after, best),
        decreases runs.len() - i,
    {
        let run = runs[i];
        let ghost before = runs@.take(i as int);
        let ghost now = runs@.take(i + 1);
        let ghost old_best = best;
        if run.start.bytes < run.end.bytes {
            if better(best, after, run.start) {
                best = Some(run.start);
            }
            if better(best, after, run.end) {
                best = Some(run.end);
            }
        }
        proof {
            assert(now[i as int] == run);
            assert forall|j: int| 0 <= j < now.len() && j != i implies now[j] == before[j] by {}
            if let Some(p) = best {
                if old_best == Some(p) {
                    let w = choose|j: int|
                        0 <= j < before.len() && #[trigger] before[j].nonempty() && (before[j].start == p
                            || before[j].end == p);
                    assert(now[w].nonempty() && (now[w].start == p || now[w].end == p));
                } else {
                    assert(now[i as int].nonempty() && (now[i as int].start == p || now[i as int].end
                        == p));
                }
                assert forall|j: int| 0 <= j < now.len() && #[trigger] now[j].nonempty() implies (
                lies_beyond(after, now[j].start.bytes as int) ==> p.bytes <= now[j].start.bytes) && (
                lies_beyond(after, now[j].end.bytes as int) ==> p.bytes <= now[j].end.bytes) by {
                    if j != i {
                        assert(before[j].nonempty());
                    }
                }
            } else {
                assert forall|j: int| 0 <= j < now.len() && #[trigger] now[j].nonempty() implies !lies_beyond(
                    after,
                    now[j].start.bytes as int,
                ) && !lies_beyond(after, now[j].end.bytes as int) by {
                    if j != i {
                        assert(before[j].nonempty());
                    }
                }
            }
        }
        i += 1;
    }
    proof {
        assert(runs@.take(runs.len() as int) == runs@);
    }
    best
}

/// The style that the pieces starting at `points` give the byte at `byte`:
/// that of the last piece starting at or before it, or none.
pub open spec fn piece_style(points: Seq<Len>, styles: Seq<Style>, byte: int) -> u8
    decreases points.len(),
{
    if points.len() == 0 || styles.len() != points.len() {
        0
    } else if points.last().bytes <= byte {
        styles.last().bits
    } else {
        piece_style(points.drop_last(), styles.drop_last(), byte)
    }
}

/// The pieces are in strictly rising order, their starts fit together,
/// neighbours differ in style, and the text before the first piece and
/// from the last piece on carries no style.
pub open spec fn index_wf(points: Seq<Len>, styles: Seq<Style>) -> bool {
    &&& points.len() == styles.len()
    &&& forall|i: int, j: int| 0 <= i < j < points.len() ==> points[i].bytes < points[j].bytes
    &&& forall|i: int, j: int| 0 <= i < points.len() && 0 <= j < points.len() ==> points[i].agrees(points[j])
    &&& points.len() > 0 ==> styles[0].bits != 0 && styles.last().bits == 0
    &&& forall|i: int, j: int|
        0 <= i < styles.len() && j == i + 1 && j < styles.len() ==> #[trigger] styles[i].bits
            != #[trigger] styles[j].bits
}

/// In a rising sequence of pieces, piece `i` rules from its start up to
/// the start of the next.
pub proof fn lemma_piece_style(points: Seq<Len>, styles: Seq<Style>, i: int, byte: int)
    requires
        points.len() == styles.len(),
        forall|a: int, b: int| 0 <= a < b < points.len() ==> points[a].bytes < points[b].bytes,
        -1 <= i < points.len(),
        i >= 0 ==> points[i].bytes <= byte,
        i + 1 < points.len() ==> byte < points[i + 1].bytes,
    ensures
        piece_style(points, styles, byte) == (if i < 0 {
            0
        } else {
            styles[i].bits
        }),
    decreases points.len(),
{
    if points.len() > 0 {
        let n = points.len() - 1;
        if i == n {
        } else {
            assert(points[i + 1].bytes <= points[n].bytes) by {
                if i + 1 < n {
                    assert(points[i + 1].bytes < points[n].bytes);
                }
            }
            lemma_piece_style(points.drop_last(), styles.drop_last(), i, byte);
        }
    }
}

/// The frozen index: the text cut into pieces of one style each.
#[derive(Debug)]
pub struct Styling {
    points: Vec<Len>,
    styles: Vec<Style>,
}

impl Builder {
    /// The ends of the recorded runs fit together.
    pub open spec fn wf(&self) -> bool {
        runs_consistent(self@)
    }

    /// A builder with no run recorded.
    pub fn new() -> (r: Builder)
        ensures
            r@ == Seq::<Run>::empty(),
            r.wf(),
    {
        Builder { runs: Vec::new() }
    }

    /// Records `style` over `range`. A range that ends at or before its
    /// start covers nothing.
    pub fn add(&mut self, style: Style, range: Range<Len>)
        requires
            old(self).wf(),
            range.start.bytes < range.end.bytes ==> range.start.agrees(range.end) && runs_admit(
                old(self)@,
                range.start,
            ) && runs_admit(old(self)@, range.end),
        ensures
            final(self)@ == old(self)@.push(Run { style, start: range.start, end: range.end }),
            final(self).wf(),
    {
        let run = Run { style, start: range.start, end: range.end };
        let ghost before = self.runs@;
        self.runs.push(run);
        proof {
            let now = self.runs@;
            assert forall|i: int| 0 <= i < now.len() && #[trigger] now[i].nonempty() implies now[i].start.agrees(
                now[i].end,
            ) && runs_admit(now, now[i].start) && runs_admit(now, now[i].end) by {
                if i < before.len() {
                    assert(before[i].nonempty());
                    assert(runs_admit(before, before[i].start));
                    assert(runs_admit(before, before[i].end));
                }
                assert forall|j: int| 0 <= j < now.len() && #[trigger] now[j].nonempty() implies now[i].start.agrees(
                    now[j].start,
                ) && now[i].start.agrees(now[j].end) && now[i].end.agrees(now[j].start)
                    && now[i].end.agrees(now[j].end) by {
                    if j < before.len() {
                        assert(before[j].nonempty());
                    }
                }
            }
        }
    }

    /// Freezes the runs into the index.
    pub fn build(self) -> (r: Styling)
        requires
            self.wf(),
        ensures
            r.wf(),
            forall|byte: int| r.style_at(byte) == runs_style_at(self@, byte),
            forall|p: Len| r.is_boundary(p) ==> is_endpoint(self@, p),
    {
        let runs = self.runs;
        let mut points: Vec<Len> = Vec::new();
        let mut styles: Vec<Style> = Vec::new();
        let mut prev = Style::empty();
        let mut cur = next_endpoint(&runs, None);
        proof {
            assert forall|byte: int| (cur matches Some(p) ==> byte < p.bytes) implies piece_style(
                points@,
                styles@,
                byte,
            ) == runs_style_at(runs@, byte) by {
                assert forall|i: int| 0 <= i < runs@.len() implies !(#[trigger] runs@[i]).covers(byte) by {
                    if runs@[i].covers(byte) {
                        assert(runs@[i].nonempty());
                    }
                }
                lemma_uncovered(runs@, byte);
            }
        }
        while cur.is_some()
            invariant
                runs_consistent(runs@),
                points.len() == styles.len(),
                forall|i: int, j: int| 0 <= i < j < points.len() ==> points[i].bytes < points[j].bytes,
                forall|i: int| 0 <= i < points.len() ==> is_endpoint(runs@, #[trigger] points[i]),
                cur matches Some(p) ==> is_endpoint(runs@, p) && forall|i: int|
                    0 <= i < points.len() ==> (#[trigger] points[i]).bytes < p.bytes,
                forall|byte: int| (cur matches Some(p) ==> byte < p.bytes) ==> piece_style(points@, styles@, byte)
                    == runs_style_at(runs@, byte),
                prev.bits == (if points.len() == 0 {
                    0
                } else {
                    styles@.last().bits
                }),
                points.len() > 0 ==> styles[0].bits != 0,
                forall|i: int, j: int|
                    0 <= i < styles.len() && j == i + 1 && j < styles.len() ==> #[trigger] styles[i].bits
                        != #[trigger] styles[j].bits,
            decreases
                    (match cur {
                        Some(p) => usize::MAX - p.bytes + 1,
                        None => 0,
                    }),
        {
            let pos = cur.unwrap();
            let st = style_at_byte(&runs, pos.bytes);
            let next = next_endpoint(&runs, Some(pos.bytes));
            let ghost old_points = points@;
            let ghost old_styles = styles@;
            if st.bits != prev.bits {
                points.push(pos);
                styles.push(st);
                prev = st;
            }
            proof {
                assert forall|byte: int| (next matches Some(q) ==> byte < q.bytes) implies piece_style(
                    points@,
                    styles@,
                    byte,
                ) == runs_style_at(runs@, byte) by {
                    if byte < pos.bytes {
                        if points@.len() != old_points.len() {
                            assert(points@.drop_last() == old_points);
                            assert(styles@.drop_last() == old_styles);
                        }
                    } else {
                        assert forall|i: int| 0 <= i < runs@.len() && #[trigger] runs@[i].nonempty() implies !(
                        pos.bytes < runs@[i].start.bytes <= byte) && !(pos.bytes < runs@[i].end.bytes
                            <= byte) by {}
                        lemma_constant_between(runs@, pos.bytes as int, byte);
                        if points@.len() != old_points.len() {
                        } else if old_points.len() > 0 {
                            lemma_piece_style(old_points, old_styles, old_points.len() - 1, byte);
                            lemma_piece_style(old_points, old_styles, old_points.len() - 1, pos.bytes - 1);
                        } else {
                        }
                    }
                }
            }
            cur = next;
        }
        proof {
            if points.len() > 0 {
                let far = usize::MAX as int;
                assert forall|i: int| 0 <= i < runs@.len() implies !(#[trigger] runs@[i]).covers(far) by {}
                lemma_uncovered(runs@, far);
                lemma_piece_style(points@, styles@, points.len() - 1, far);
            }
            assert forall|i: int, j: int| 0 <= i < points.len() && 0 <= j < points.len() implies points[i].agrees(
                points[j],
            ) by {
                lemma_endpoints_agree(runs@, points[i], points[j]);
            }
        }
        Styling { points, styles }
    }
}

/// Any two ends of consistent runs fit together.
pub proof fn lemma_endpoints_agree(runs: Seq<Run>, p: Len, q: Len)
    requires
        runs_consistent(runs),
        is_endpoint(runs, p),
        is_endpoint(runs, q),
    ensures
        p.agrees(q),
{
    let i = choose|i: int| 0 <= i < runs.len() && #[trigger] runs[i].nonempty() && (runs[i].start == p || runs[i].end == p);
    let j = choose|j: int| 0 <= j < runs.len() && #[trigger] runs[j].nonempty() && (runs[j].start == q || runs[j].end == q);
    assert(runs_admit(runs, runs[i].start));
    assert(runs_admit(runs, runs[i].end));
}

impl Styling {
    /// Where the pieces start, in rising order.
    pub closed spec fn points(&self) -> Seq<Len> {
        self.points@
    }

    /// The style of each piece.
    pub closed spec fn styles(&self) -> Seq<Style> {
        self.styles@
    }

    /// The index is sound; see [`index_wf`].
    pub open spec fn wf(&self) -> bool {
        index_wf(self.points(), self.styles())
    }

    /// The style of the byte at offset `byte`.
    pub open spec fn style_at(&self, byte: int) -> u8 {
        piece_style(self.points(), self.styles(), byte)
    }

    /// `p` is where a piece starts.
    pub open spec fn is_boundary(&self, p: Len) -> bool {
        self.points().contains(p)
    }

    /// `p` fits among the starts of the pieces.
    pub open spec fn admits(&self, p: Len) -> bool {
        forall|i: int| 0 <= i < self.points().len() ==> p.agrees(#[trigger] self.points()[i])
    }

    /// A builder with no run recorded.
    pub fn builder() -> (r: Builder)
        ensures
            r@ == Seq::<Run>::empty(),
            r.wf(),
    {
        Builder::new()
    }
}

/// Bytes taken by the first `k` segments.
pub open spec fn segs_bytes(segs: Seq<(Style, Len)>, k: int) -> int
    decreases k,
{
    if k <= 0 {
        0
    } else {
        segs_bytes(segs, k - 1) + segs[k - 1].1.bytes
    }
}

/// Characters taken by the first `k` segments.
pub open spec fn segs_chars(segs: Seq<(Style, Len)>, k: int) -> int
    decreases k,
{
    if k <= 0 {
        0
    } else {
        segs_chars(segs, k - 1) + segs[k - 1].1.chars
    }
}

/// Where segment `k` starts when the first starts at `start`.
pub open spec fn seg_start(start: Len, segs: Seq<(Style, Len)>, k: int) -> Len {
    Len {
        bytes: (start.bytes + segs_bytes(segs, k)) as usize,
        chars: (start.chars + segs_chars(segs, k)) as usize,
    }
}

/// What the first `k` segments take does not depend on later segments.
pub proof fn lemma_segs_push(segs: Seq<(Style, Len)>, seg: (Style, Len), k: int)
    requires
        k <= segs.len(),
    ensures
        segs_bytes(segs.push(seg), k) == segs_bytes(segs, k),
        segs_chars(segs.push(seg), k) == segs_chars(segs, k),
    decreases k,
{
    if k > 0 {
        lemma_segs_push(segs, seg, k - 1);
    }
}

/// Segments that each take something start in strictly rising order.
pub proof fn lemma_segs_rise(segs: Seq<(Style, Len)>, k: int, m: int)
    requires
        0 <= k <= m <= segs.len(),
        forall|i: int| 0 <= i < segs.len() ==> (#[trigger] segs[i]).1.bytes > 0 && segs[i].1.chars > 0,
    ensures
        segs_bytes(segs, k) + (m - k) <= segs_bytes(segs, m),
        segs_chars(segs, k) + (m - k) <= segs_chars(segs, m),
    decreases m - k,
{
    if k < m {
        lemma_segs_rise(segs, k, m - 1);
    }
}

impl Styling {
    /// `segs` cuts the text from `start` to `end` into its maximal pieces
    /// of one style: the lengths add up to `end - start`, no piece is
    /// empty, every byte of a piece carries the piece's style, neighbours
    /// differ in style, and the pieces meet where pieces of the index
    /// start.
    pub open spec fn is_segmentation(&self, start: Len, end: Len, segs: Seq<(Style, Len)>) -> bool {
        &&& start.bytes + segs_bytes(segs, segs.len() as int) == end.bytes
        &&& start.chars + segs_chars(segs, segs.len() as int) == end.chars
        &&& forall|k: int| 0 <= k < segs.len() ==> (#[trigger] segs[k]).1.bytes > 0 && segs[k].1.chars > 0
        &&& forall|k: int, byte: int|
            #![trigger segs[k], self.style_at(byte)]
            0 <= k < segs.len() && seg_start(start, segs, k).bytes <= byte < seg_start(
                start,
                segs,
                k + 1,
            ).bytes ==> self.style_at(byte) == segs[k].0.bits
        &&& forall|j: int, k: int|
            0 <= j < segs.len() && k == j + 1 && k < segs.len() ==> (#[trigger] segs[j]).0.bits != (
            #[trigger] segs[k]).0.bits
        &&& forall|k: int| 0 < k < segs.len() ==> self.is_boundary(#[trigger] seg_start(start, segs, k))
    }

    /// A segmentation up to `pos` grows by the piece from `pos` to `next`.
    proof fn lemma_push_segment(&self, start: Len, pos: Len, next: Len, segs: Seq<(Style, Len)>, st: Style)
        requires
            self.is_segmentation(start, pos, segs),
            pos.bytes < next.bytes,
            pos.chars < next.chars,
            forall|byte: int| pos.bytes <= byte < next.bytes ==> self.style_at(byte) == st.bits,
            segs.len() > 0 ==> segs.last().0.bits != st.bits && self.is_boundary(pos),
        ensures
            self.is_segmentation(
                start,
                next,
                segs.push(
                    (st, Len { bytes: (next.bytes - pos.bytes) as usize, chars: (next.chars - pos.chars) as usize }),
                ),
            ),
    {
        let seg = (st, Len { bytes: (next.bytes - pos.bytes) as usize, chars: (next.chars - pos.chars) as usize });
        let now = segs.push(seg);
        let n = segs.len() as int;
        assert forall|k: int| k <= n implies segs_bytes(now, k) == segs_bytes(segs, k) && segs_chars(now, k)
            == segs_chars(segs, k) by {
            lemma_segs_push(segs, seg, k);
        }
        assert(segs_bytes(now, n + 1) == segs_bytes(now, n) + now[n].1.bytes);
        assert(segs_chars(now, n + 1) == segs_chars(now, n) + now[n].1.chars);
        assert forall|k: int, byte: int|
            #![trigger now[k], self.style_at(byte)]
            0 <= k < now.len() && seg_start(start, now, k).bytes <= byte < seg_start(start, now, k + 1).bytes implies self.style_at(
            byte,
        ) == now[k].0.bits by {
            if k < n {
                lemma_segs_rise(segs, k, n);
                lemma_segs_rise(segs, k + 1, n);
                lemma_segs_rise(segs, 0, k);
                assert(seg_start(start, now, k) == seg_start(start, segs, k));
                assert(seg_start(start, now, k + 1) == seg_start(start, segs, k + 1));
                assert(now[k] == segs[k]);
            }
        }
        assert forall|k: int| 0 < k < now.len() implies self.is_boundary(#[trigger] seg_start(start, now, k)) by {
            lemma_segs_rise(segs, 0, k);
            lemma_segs_rise(segs, k, n);
            if k < n {
                assert(seg_start(start, now, k) == seg_start(start, segs, k));
            } else {
                assert(seg_start(start, now, k) == pos);
            }
        }
        assert forall|j: int, k: int| 0 <= j < now.len() && k == j + 1 && k < now.len() implies (#[trigger] now[j]).0.bits
            != (#[trigger] now[k]).0.bits by {
            if k < n {
                assert(now[j] == segs[j] && now[k] == segs[k]);
            } else {
                assert(now[j] == segs.last());
            }
        }
    }

    /// The maximal pieces of one style between `start` and `end`, in
    /// order, each with its style and its length.
    pub fn iter(&self, start: Len, end: Len) -> (r: Vec<(Style, Len)>)
        requires
            self.wf(),
            start.bytes <= end.bytes,
            start.agrees(end),
            self.admits(start),
            self.admits(end),
        ensures
            self.is_segmentation(start, end, r@),
    {
        let n = self.points.len();
        let mut out: Vec<(Style, Len)> = Vec::new();
        let mut i: usize = 0;
        let mut st = Style::empty();
        while i < n && self.points[i].bytes <= start.bytes
            invariant
                self.wf(),
                n == self.points.len(),
                i <= n,
                forall|j: int| 0 <= j < i ==> (#[trigger] self.points[j]).bytes <= start.bytes,
                st.bits == (if i == 0 {
                    0
                } else {
                    self.styles[i - 1].bits
                }),
            decreases n - i,
        {
            st = self.styles[i];
            i += 1;
        }
        let mut pos = start;
        while i < n && self.points[i].bytes < end.bytes
            invariant
                self.wf(),
                n == self.points.len(),
                i <= n,
                start.bytes <= pos.bytes <= end.bytes,
                start.bytes <= end.bytes,
                start.agrees(end),
                self.admits(start),
                self.admits(end),
                pos == start || self.is_boundary(pos),
                out.len() > 0 ==> self.is_boundary(pos),
                i > 0 ==> self.points[i - 1].bytes <= pos.bytes,
                i < n ==> pos.bytes < self.points[i as int].bytes,
                st.bits == (if i == 0 {
                    0
                } else {
                    self.styles[i - 1].bits
                }),
                self.is_segmentation(start, pos, out@),
                out.len() > 0 ==> out@.last().0.bits != st.bits,
            decreases n - i,
        {
            let p = self.points[i];
            proof {
                assert(pos.agrees(p)) by {
                    if pos != start {
                        let w = choose|w: int| 0 <= w < self.points().len() && self.points()[w] == pos;
                        assert(self.points()[w].agrees(self.points()[i as int]));
                    }
                }
                assert forall|byte: int| pos.bytes <= byte < p.bytes implies self.style_at(byte) == st.bits by {
                    lemma_piece_style(self.points(), self.styles(), i - 1, byte);
                }
                self.lemma_push_segment(start, pos, p, out@, st);
                assert(self.points().contains(p));
            }
            out.push((st, p.sub(pos)));
            pos = p;
            st = self.styles[i];
            i += 1;
        }
        proof {
            assert(pos.agrees(end)) by {
                if pos != start {
                    let w = choose|w: int| 0 <= w < self.points().len() && self.points()[w] == pos;
                    assert(end.agrees(self.points()[w]));
                }
            }
        }
        if pos.bytes < end.bytes {
            proof {
                assert forall|byte: int| pos.bytes <= byte < end.bytes implies self.style_at(byte) == st.bits by {
                    lemma_piece_style(self.points(), self.styles(), i - 1, byte);
                }
                self.lemma_push_segment(start, pos, end, out@, st);
            }
            out.push((st, end.sub(pos)));
        }
        out
    }
}

/// Index of the segment that holds the byte at `byte`, where the first
/// segment starts at `start`: the first segment that ends behind it.
pub open spec fn segment_at(start: Len, segs: Seq<(Style, Len)>, byte: int) -> int
    decreases segs.len(),
{
    if segs.len() == 0 {
        0
    } else if byte < start.bytes + segs_bytes(segs, segs.len() - 1) {
        segment_at(start, segs.drop_last(), byte)
    } else {
        segs.len() - 1
    }
}

/// What the first `k` segments take does not depend on the last
/// segment.
pub proof fn lemma_segs_drop_last(segs: Seq<(Style, Len)>, k: int)
    requires
        k < segs.len(),
    ensures
        segs_bytes(segs.drop_last(), k) == segs_bytes(segs, k),
        segs_chars(segs.drop_last(), k) == segs_chars(segs, k),
    decreases k,
{
    if k > 0 {
        lemma_segs_drop_last(segs, k - 1);
    }
}

/// Segments that each take something tile what they cover: every byte
/// between the start of the first and the end of the last lies in one
/// segment and in no other.
pub proof fn lemma_segments_tile(start: Len, segs: Seq<(Style, Len)>, byte: int)
    requires
        forall|i: int| 0 <= i < segs.len() ==> (#[trigger] segs[i]).1.bytes > 0 && segs[i].1.chars > 0,
        start.bytes <= byte < start.bytes + segs_bytes(segs, segs.len() as int),
    ensures
        0 <= segment_at(start, segs, byte) < segs.len(),
        start.bytes + segs_bytes(segs, segment_at(start, segs, byte)) <= byte,
        byte < start.bytes + segs_bytes(segs, segment_at(start, segs, byte) + 1),
        forall|k: int|
            0 <= k < segs.len() && start.bytes + segs_bytes(segs, k) <= byte < start.bytes + #[trigger] segs_bytes(
                segs,
                k + 1,
            ) ==> k == segment_at(start, segs, byte),
    decreases segs.len(),
{
    let n = segs.len() as int;
    if byte < start.bytes + segs_bytes(segs, n - 1) {
        let front = segs.drop_last();
        assert forall|i: int| 0 <= i < front.len() implies (#[trigger] front[i]).1.bytes > 0 && front[i].1.chars
            > 0 by {
            assert(front[i] == segs[i]);
        }
        lemma_segs_drop_last(segs, n - 1);
        lemma_segments_tile(start, front, byte);
        let at = segment_at(start, front, byte);
        lemma_segs_drop_last(segs, at);
        lemma_segs_drop_last(segs, at + 1);
        assert forall|k: int|
            0 <= k < segs.len() && start.bytes + segs_bytes(segs, k) <= byte < start.bytes + #[trigger] segs_bytes(
                segs,
                k + 1,
            ) implies k == at by {
            if k == n - 1 {
            } else {
                lemma_segs_drop_last(segs, k);
                lemma_segs_drop_last(segs, k + 1);
            }
        }
    } else {
        assert forall|k: int|
            0 <= k < segs.len() && start.bytes + segs_bytes(segs, k) <= byte < start.bytes + #[trigger] segs_bytes(
                segs,
                k + 1,
            ) implies k == n - 1 by {
            if k < n - 1 {
                lemma_segs_rise(segs, k + 1, n - 1);
            }
        }
    }
}

/// What a query answers covers its range exactly: the lengths of the
/// segments add up to the length of the range, and every byte of the
/// range lies in one segment and in no other, which carries the style of
/// the byte.
pub proof fn lemma_query_partitions(index: Styling, start: Len, end: Len, segs: Seq<(Style, Len)>, byte: int)
    requires
        index.is_segmentation(start, end, segs),
        start.bytes <= byte < end.bytes,
    ensures
        segs_bytes(segs, segs.len() as int) == end.bytes - start.bytes,
        segs_chars(segs, segs.len() as int) == end.chars - start.chars,
        0 <= segment_at(start, segs, byte) < segs.len(),
        index.style_at(byte) == segs[segment_at(start, segs, byte)].0.bits,
        forall|k: int|
            0 <= k < segs.len() && start.bytes + segs_bytes(segs, k) <= byte < start.bytes + #[trigger] segs_bytes(
                segs,
                k + 1,
            ) ==> k == segment_at(start, segs, byte),
{
    lemma_segments_tile(start, segs, byte);
    let at = segment_at(start, segs, byte);
    lemma_segs_rise(segs, 0, at);
    lemma_segs_rise(segs, at + 1, segs.len() as int);
    assert(seg_start(start, segs, at).bytes <= byte < seg_start(start, segs, at + 1).bytes);
    assert(index.style_at(byte) == segs[at].0.bits);
}

/// A query for one byte answers with the one segment that the query for
/// a range around it holds the byte in: point queries, one after the
/// other, tile a range as the query for the whole range does.
pub proof fn lemma_point_query(
    index: Styling,
    start: Len,
    end: Len,
    whole: Seq<(Style, Len)>,
    from: Len,
    to: Len,
    point: Seq<(Style, Len)>,
)
    requires
        index.is_segmentation(start, end, whole),
        index.is_segmentation(from, to, point),
        start.bytes <= from.bytes < end.bytes,
        to.bytes == from.bytes + 1,
    ensures
        point.len() == 1,
        point[0].1.bytes == 1,
        point[0].0.bits == whole[segment_at(start, whole, from.bytes as int)].0.bits,
{
    lemma_query_partitions(index, start, end, whole, from.bytes as int);
    lemma_query_partitions(index, from, to, point, from.bytes as int);
    lemma_segs_rise(point, 0, point.len() as int);
    assert(point.len() == 1);
    assert(segs_bytes(point, 1) == segs_bytes(point, 0) + point[0].1.bytes);
    assert(segment_at(from, point, from.bytes as int) == 0);
}

/// The index is sound and takes every character boundary of `text`.
pub open spec fn styling_fits(text: Seq<char>, styling: Styling) -> bool {
    &&& styling.wf()
    &&& forall|p: Len| is_position(text, p) ==> #[trigger] styling.admits(p)
}

/// An offset that fits among all character boundaries of `text` and does
/// not lie behind its end is itself a character boundary.
pub proof fn lemma_admitted_is_position(text: Seq<char>, q: Len)
    requires
        forall|p: Len| is_position(text, p) ==> #[trigger] q.agrees(p),
        q.bytes <= byte_len(text),
        byte_len(text) <= usize::MAX,
    ensures
        is_position(text, q),
{
    let n = text.len() as int;
    assert(text.take(n) == text);
    lemma_byte_len_prefix(text, 0, n);
    let end = Len { bytes: byte_len(text) as usize, chars: n as usize };
    assert(is_position(text, end));
    assert(q.agrees(end));
    let i = q.chars as int;
    lemma_byte_len_prefix(text, i, n);
    let at = Len { bytes: byte_len(text.take(i)) as usize, chars: q.chars };
    assert(is_position(text, at));
    assert(q.agrees(at));
}

/// A character boundary of a text is one of every text that starts with
/// it.
pub proof fn lemma_position_of_prefix(text: Seq<char>, longer: Seq<char>, p: Len)
    requires
        is_position(text, p),
        text.len() <= longer.len(),
        longer.take(text.len() as int) == text,
    ensures
        is_position(longer, p),
{
    assert(longer.take(p.chars as int) == text.take(p.chars as int));
}

/// Every run lies between character boundaries of `text`.
pub open spec fn runs_in(text: Seq<char>, runs: Seq<Run>) -> bool {
    forall|i: int|
        0 <= i < runs.len() ==> is_position(text, (#[trigger] runs[i]).start) && is_position(text, runs[i].end)
}

/// `longer` starts with `text`.
pub open spec fn extends(text: Seq<char>, longer: Seq<char>) -> bool {
    text.len() <= longer.len() && longer.take(text.len() as int) == text
}

/// Runs between boundaries of a text lie between boundaries of every
/// text that starts with it.
pub proof fn lemma_runs_in_longer(text: Seq<char>, longer: Seq<char>, runs: Seq<Run>)
    requires
        runs_in(text, runs),
        extends(text, longer),
    ensures
        runs_in(longer, runs),
{
    assert forall|i: int| 0 <= i < runs.len() implies is_position(longer, (#[trigger] runs[i]).start) && is_position(
        longer,
        runs[i].end,
    ) by {
        lemma_position_of_prefix(text, longer, runs[i].start);
        lemma_position_of_prefix(text, longer, runs[i].end);
    }
}

/// Runs between character boundaries of one text fit together, take any
/// further boundary of it, and cover nothing behind its end.
pub proof fn lemma_runs_in_text(out: Seq<char>, runs: Seq<Run>)
    requires
        runs_in(out, runs),
    ensures
        runs_consistent(runs),
        forall|p: Len| is_position(out, p) ==> #[trigger] runs_admit(runs, p),
        forall|b: int| b >= byte_len(out) ==> #[trigger] runs_style_at(runs, b) == 0,
{
    assert forall|p: Len| is_position(out, p) implies #[trigger] runs_admit(runs, p) by {
        assert forall|i: int| 0 <= i < runs.len() && #[trigger] runs[i].nonempty() implies p.agrees(runs[i].start)
            && p.agrees(runs[i].end) by {
            lemma_positions_agree(out, p, runs[i].start);
            lemma_positions_agree(out, p, runs[i].end);
        }
    }
    assert forall|i: int| 0 <= i < runs.len() && #[trigger] runs[i].nonempty() implies runs[i].start.agrees(
        runs[i].end,
    ) && runs_admit(runs, runs[i].start) && runs_admit(runs, runs[i].end) by {
        lemma_positions_agree(out, runs[i].start, runs[i].end);
    }
    assert forall|b: int| b >= byte_len(out) implies #[trigger] runs_style_at(runs, b) == 0 by {
        assert forall|i: int| 0 <= i < runs.len() implies !(#[trigger] runs[i]).covers(b) by {
            lemma_byte_len_prefix(out, runs[i].end.chars as int, out.len() as int);
        }
        lemma_uncovered(runs, b);
    }
}

} // verus!
