//! Bounding-box aggregation, consistency validation and morpheme
//! alignment.
//!
//! A run's aggregate box takes the leftmost word edge, the rightmost
//! extent, and the character-weighted mean of the words' vertical values
//! (the OCR engine's vertical boxes are unreliable for Japanese text).
//! The run's characters are tabulated: the first character of each word
//! inherits the word's raw box, every later character of the same word has
//! no box.  An analyzer response is accepted only when its morphemes'
//! total character count equals the run's; an accepted response is walked
//! in lockstep with the character table, each morpheme receiving the
//! envelope of the anchored characters it consumes, or no box at all when
//! it consumed only unanchored ones.

use vstd::prelude::*;

use crate::jpn::Run;
use crate::ocr::OCRWordV;

verus! {

/// An axis-aligned pixel box: x, y, width, height.
pub type BBox = (i32, i32, i32, i32);

/// The mathematical image of a box.
pub type BBoxV = (int, int, int, int);

/// A morpheme as the analyzer returns it: its surface text and its
/// grammatical detail tags.
pub struct Morpheme {
    pub text: String,
    pub detail: Vec<String>,
}

/// The mathematical image of a morpheme.
pub ghost struct MorphemeV {
    pub text: Seq<char>,
    pub detail: Seq<Seq<char>>,
}

impl View for Morpheme {
    type V = MorphemeV;

    open spec fn view(&self) -> MorphemeV {
        MorphemeV { text: self.text@, detail: self.detail.deep_view() }
    }
}

impl Clone for Morpheme {
    fn clone(&self) -> (r: Self)
        ensures
            r@ == self@,
    {
        let detail_clone = self.detail.clone();
        proof {
            assert(detail_clone.deep_view() =~= self.detail.deep_view());
        }
        Morpheme { text: self.text.clone(), detail: detail_clone }
    }
}

/// The views of a sequence of morphemes.
pub open spec fn morph_views(ms: Seq<Morpheme>) -> Seq<MorphemeV> {
    ms.map_values(|m: Morpheme| m@)
}

/// A morpheme placed back onto the captured image, or explicitly
/// unplaced when none of its characters carried a box.
pub struct VisualMorpheme {
    pub morpheme: Morpheme,
    pub bbox: Option<BBox>,
}

/// The mathematical image of a placed morpheme.
pub ghost struct VisualMorphemeV {
    pub morpheme: MorphemeV,
    pub bbox: Option<BBoxV>,
}

impl View for VisualMorpheme {
    type V = VisualMorphemeV;

    open spec fn view(&self) -> VisualMorphemeV {
        VisualMorphemeV {
            morpheme: self.morpheme@,
            bbox: match self.bbox {
                Some((x, y, w, h)) => Some((x as int, y as int, w as int, h as int)),
                None => None,
            },
        }
    }
}

/// The views of a sequence of placed morphemes.
pub open spec fn vm_views(ms: Seq<VisualMorpheme>) -> Seq<VisualMorphemeV> {
    ms.map_values(|m: VisualMorpheme| m@)
}

/// The views of a character box table.
pub open spec fn box_views(t: Seq<Option<BBox>>) -> Seq<Option<BBoxV>> {
    t.map_values(
        |b: Option<BBox>|
            match b {
                Some((x, y, w, h)) => Some((x as int, y as int, w as int, h as int)),
                None => None,
            },
    )
}

/// One annotated run: its aggregate box, its source text, and its placed
/// morphemes (empty when validation rejected the analysis).
pub struct JpnText {
    pub morphemes: Vec<VisualMorpheme>,
    pub text: String,
    pub x: i32,
    pub y: i32,
    pub w: i32,
    pub h: i32,
}

/// Coordinates stay within the captured image; this bound (2^24 pixels)
/// keeps every aggregate within machine range.
pub const MAX_COORD: i32 = 0x100_0000;

/// A word the aggregator can take: box values within the captured-image
/// range and at least one character of text (a recognized word token is
/// never empty).
pub open spec fn spec_word_bounded(w: OCRWordV) -> bool {
    &&& 0 <= w.x <= MAX_COORD
    &&& 0 <= w.y <= MAX_COORD
    &&& 0 <= w.w <= MAX_COORD
    &&& 0 <= w.h <= MAX_COORD
    &&& w.text.len() >= 1
}

/// A run the aggregator can take: non-empty, every member bounded.
pub open spec fn spec_run_bounded(ws: Seq<OCRWordV>) -> bool {
    ws.len() > 0 && forall|i: int| 0 <= i < ws.len() ==> spec_word_bounded(#[trigger] ws[i])
}

impl Run {
    /// Whether the aggregator can take this run: non-empty, every word's
    /// box within the captured-image range, every word's text non-empty.
    pub fn bounded(&self) -> (b: bool)
        ensures
            b == spec_run_bounded(self@),
    {
        let rv = Ghost(self@);
        if self.words.len() == 0 {
            return false;
        }
        let mut i: usize = 0;
        while i < self.words.len()
            invariant
                rv@ == self@,
                rv@ == crate::ocr::word_views(self.words@),
                rv@.len() == self.words@.len(),
                0 <= i <= self.words@.len(),
                forall|k: int| 0 <= k < i ==> spec_word_bounded(#[trigger] rv@[k]),
            decreases self.words@.len() - i,
        {
            proof {
                assert(rv@[i as int] == self.words@[i as int]@);
            }
            let w = &self.words[i];
            let ok = 0 <= w.x && w.x <= MAX_COORD && 0 <= w.y && w.y <= MAX_COORD && 0 <= w.w
                && w.w <= MAX_COORD && 0 <= w.h && w.h <= MAX_COORD && !w.text.as_str().is_empty();
            if !ok {
                assert(!spec_word_bounded(rv@[i as int]));
                return false;
            }
            i += 1;
        }
        true
    }
}

/// The run's source text: its words' texts concatenated in order.
pub open spec fn spec_run_text(ws: Seq<OCRWordV>) -> Seq<char>
    decreases ws.len(),
{
    if ws.len() == 0 {
        Seq::empty()
    } else {
        spec_run_text(ws.drop_last()) + ws.last().text
    }
}

/// The leftmost word edge.
pub open spec fn spec_min_x(ws: Seq<OCRWordV>) -> int
    decreases ws.len(),
{
    if ws.len() <= 1 {
        if ws.len() == 0 {
            0
        } else {
            ws.last().x
        }
    } else {
        let prev = spec_min_x(ws.drop_last());
        if ws.last().x < prev {
            ws.last().x
        } else {
            prev
        }
    }
}

/// The rightmost word extent (largest x plus width).
pub open spec fn spec_max_right(ws: Seq<OCRWordV>) -> int
    decreases ws.len(),
{
    if ws.len() <= 1 {
        if ws.len() == 0 {
            0
        } else {
            ws.last().x + ws.last().w
        }
    } else {
        let prev = spec_max_right(ws.drop_last());
        if ws.last().x + ws.last().w > prev {
            ws.last().x + ws.last().w
        } else {
            prev
        }
    }
}

/// The sum of the words' y values (one per word).
pub open spec fn spec_sum_y(ws: Seq<OCRWordV>) -> int
    decreases ws.len(),
{
    if ws.len() == 0 {
        0
    } else {
        spec_sum_y(ws.drop_last()) + ws.last().y
    }
}

/// The sum of the words' heights (one per word).
pub open spec fn spec_sum_h(ws: Seq<OCRWordV>) -> int
    decreases ws.len(),
{
    if ws.len() == 0 {
        0
    } else {
        spec_sum_h(ws.drop_last()) + ws.last().h
    }
}

/// The aggregate y of a run: the character-weighted mean of the words' y
/// values — each word's y counted once, divided by the run's character
/// count, not its word count.
pub open spec fn spec_agg_y(ws: Seq<OCRWordV>) -> int {
    if spec_run_text(ws).len() == 0 {
        0
    } else {
        spec_sum_y(ws) / spec_run_text(ws).len() as int
    }
}

/// The aggregate height of a run: the character-weighted mean of the
/// words' heights.
pub open spec fn spec_agg_h(ws: Seq<OCRWordV>) -> int {
    if spec_run_text(ws).len() == 0 {
        0
    } else {
        spec_sum_h(ws) / spec_run_text(ws).len() as int
    }
}

/// The per-character box table of one word: the first character carries
/// the word's raw box, every later character carries none.
pub open spec fn spec_word_boxes(w: OCRWordV) -> Seq<Option<BBoxV>> {
    if w.text.len() == 0 {
        Seq::empty()
    } else {
        seq![Some((w.x, w.y, w.w, w.h))] + Seq::new((w.text.len() - 1) as nat, |i: int| None)
    }
}

/// The per-character box table of a run, one entry per character of the
/// run's text.
pub open spec fn spec_char_boxes(ws: Seq<OCRWordV>) -> Seq<Option<BBoxV>>
    decreases ws.len(),
{
    if ws.len() == 0 {
        Seq::empty()
    } else {
        spec_char_boxes(ws.drop_last()) + spec_word_boxes(ws.last())
    }
}

proof fn lemma_char_boxes_len(ws: Seq<OCRWordV>)
    ensures
        spec_char_boxes(ws).len() == spec_run_text(ws).len(),
    decreases ws.len(),
{
    if ws.len() > 0 {
        lemma_char_boxes_len(ws.drop_last());
    }
}

/// The total character count of a morpheme list.
pub open spec fn spec_morph_chars(ms: Seq<MorphemeV>) -> int
    decreases ms.len(),
{
    if ms.len() == 0 {
        0
    } else {
        spec_morph_chars(ms.drop_last()) + ms.last().text.len()
    }
}

proof fn lemma_morph_chars_nonneg(ms: Seq<MorphemeV>)
    ensures
        spec_morph_chars(ms) >= 0,
    decreases ms.len(),
{
    if ms.len() > 0 {
        lemma_morph_chars_nonneg(ms.drop_last());
    }
}

/// Consistency validation: the analyzer's morphemes cover exactly the
/// characters the OCR saw.  Disagreement means one of the two independent
/// tokenizations of the same text is wrong, and the analysis is discarded.
pub open spec fn spec_counts_match(ws: Seq<OCRWordV>, ms: Seq<MorphemeV>) -> bool {
    spec_morph_chars(ms) == spec_run_text(ws).len()
}

/// The envelope corners (min x, min y, max right, max bottom) of the
/// anchored boxes of a table slice, or `None` when none is anchored.
pub open spec fn spec_envelope(boxes: Seq<Option<BBoxV>>) -> Option<(int, int, int, int)>
    decreases boxes.len(),
{
    if boxes.len() == 0 {
        None
    } else {
        let prev = spec_envelope(boxes.drop_last());
        match boxes.last() {
            None => prev,
            Some((bx, by, bw, bh)) => match prev {
                None => Some((bx, by, bx + bw, by + bh)),
                Some((x0, y0, x1, y1)) => Some(
                    (
                        if bx < x0 {
                            bx
                        } else {
                            x0
                        },
                        if by < y0 {
                            by
                        } else {
                            y0
                        },
                        if bx + bw > x1 {
                            bx + bw
                        } else {
                            x1
                        },
                        if by + bh > y1 {
                            by + bh
                        } else {
                            y1
                        },
                    ),
                ),
            },
        }
    }
}

/// The box a morpheme receives from a table slice: the envelope of its
/// anchored characters as (x, y, width, height), or `None` when every
/// character it consumed was unanchored.
pub open spec fn spec_morph_box(boxes: Seq<Option<BBoxV>>) -> Option<BBoxV> {
    match spec_envelope(boxes) {
        None => None,
        Some((x0, y0, x1, y1)) => Some((x0, y0, x1 - x0, y1 - y0)),
    }
}

/// Alignment: morphemes consume the character table in lockstep, by
/// character count, each receiving the box of its own slice.
pub open spec fn spec_align(boxes: Seq<Option<BBoxV>>, ms: Seq<MorphemeV>) -> Seq<VisualMorphemeV>
    decreases ms.len(),
{
    if ms.len() == 0 {
        Seq::empty()
    } else {
        let len = ms.first().text.len() as int;
        seq![VisualMorphemeV { morpheme: ms.first(), bbox: spec_morph_box(boxes.take(len)) }]
            + spec_align(boxes.skip(len), ms.drop_first())
    }
}

/// The total character count of a placed morpheme list.
pub open spec fn spec_vm_chars(vms: Seq<VisualMorphemeV>) -> int
    decreases vms.len(),
{
    if vms.len() == 0 {
        0
    } else {
        vms.first().morpheme.text.len() + spec_vm_chars(vms.drop_first())
    }
}

/// Alignment neither drops nor reshapes morphemes: it only adds boxes, so
/// the placed morphemes carry exactly the analyzer's morphemes and their
/// characters.
pub proof fn lemma_align_keeps_morphemes(boxes: Seq<Option<BBoxV>>, ms: Seq<MorphemeV>)
    ensures
        spec_align(boxes, ms).len() == ms.len(),
        forall|i: int|
            0 <= i < ms.len() ==> (#[trigger] spec_align(boxes, ms)[i]).morpheme == ms[i],
        spec_vm_chars(spec_align(boxes, ms)) == spec_morph_chars(ms),
    decreases ms.len(),
{
    if ms.len() > 0 {
        let len = ms.first().text.len() as int;
        let rest = spec_align(boxes.skip(len), ms.drop_first());
        lemma_align_keeps_morphemes(boxes.skip(len), ms.drop_first());
        lemma_morph_chars_first(ms);
        let all = spec_align(boxes, ms);
        assert(all.first().morpheme == ms.first());
        assert(all.drop_first() =~= rest);
        assert forall|i: int|
            0 <= i < ms.len() implies (#[trigger] all[i]).morpheme == ms[i] by {
            if i > 0 {
                assert(all[i] == rest[i - 1]);
                assert(ms.drop_first()[i - 1] == ms[i]);
            }
        }
    }
}

/// Character conservation: for every successfully validated annotated run,
/// the placed morphemes' total character count equals the run text's
/// character count.
pub proof fn lemma_character_conservation(ws: Seq<OCRWordV>, ms: Seq<MorphemeV>)
    requires
        spec_counts_match(ws, ms),
    ensures
        spec_vm_chars(spec_align(spec_char_boxes(ws), ms)) == spec_run_text(ws).len(),
{
    lemma_align_keeps_morphemes(spec_char_boxes(ws), ms);
}

/// Builds the run's per-character box table.
fn build_char_boxes(run: &Run) -> (table: Vec<Option<BBox>>)
    ensures
        box_views(table@) == spec_char_boxes(run@),
{
    let words = &run.words;
    let ghost rv = run@;
    let mut table: Vec<Option<BBox>> = Vec::new();
    let mut i: usize = 0;
    proof {
        assert(box_views(table@) =~= spec_char_boxes(rv.take(0)));
    }
    while i < words.len()
        invariant
            rv == run@,
            rv == crate::ocr::word_views(words@),
            rv.len() == words@.len(),
            0 <= i <= words@.len(),
            box_views(table@) == spec_char_boxes(rv.take(i as int)),
        decreases words@.len() - i,
    {
        proof {
            assert(rv.take(i + 1).drop_last() =~= rv.take(i as int));
            assert(rv.take(i + 1).last() == rv[i as int]);
            assert(rv[i as int] == words@[i as int]@);
        }
        let w = &words[i];
        let c = w.text.as_str().unicode_len();
        let ghost before = box_views(table@);
        if c > 0 {
            table.push(Some((w.x, w.y, w.w, w.h)));
            proof {
                assert(box_views(table@) =~= before + seq![
                    Some((w.x as int, w.y as int, w.w as int, w.h as int)),
                ] + Seq::new(0, |k: int| None::<BBoxV>));
            }
            let mut j: usize = 1;
            while j < c
                invariant
                    rv == run@,
                    rv.len() == words@.len(),
                    0 <= i < words@.len(),
                    1 <= j <= c,
                    c == rv[i as int].text.len(),
                    rv[i as int].x == words@[i as int].x as int,
                    rv[i as int].y == words@[i as int].y as int,
                    rv[i as int].w == words@[i as int].w as int,
                    rv[i as int].h == words@[i as int].h as int,
                    before == spec_char_boxes(rv.take(i as int)),
                    box_views(table@) =~= before + seq![
                        Some(
                            (
                                words@[i as int].x as int,
                                words@[i as int].y as int,
                                words@[i as int].w as int,
                                words@[i as int].h as int,
                            ),
                        ),
                    ] + Seq::new((j - 1) as nat, |k: int| None::<BBoxV>),
                decreases c - j,
            {
                let ghost mid = box_views(table@);
                table.push(None);
                proof {
                    assert(box_views(table@) =~= mid.push(None::<BBoxV>));
                    assert(mid.push(None::<BBoxV>) =~= before + seq![
                        Some(
                            (
                                words@[i as int].x as int,
                                words@[i as int].y as int,
                                words@[i as int].w as int,
                                words@[i as int].h as int,
                            ),
                        ),
                    ] + Seq::new(j as nat, |k: int| None::<BBoxV>));
                }
                j += 1;
            }
            proof {
                assert(spec_word_boxes(rv[i as int]) =~= seq![
                    Some((rv[i as int].x, rv[i as int].y, rv[i as int].w, rv[i as int].h)),
                ] + Seq::new((rv[i as int].text.len() - 1) as nat, |k: int| None::<BBoxV>));
                assert(box_views(table@) =~= spec_char_boxes(rv.take(i + 1)));
            }
        } else {
            proof {
                assert(spec_word_boxes(rv[i as int]) =~= Seq::<Option<BBoxV>>::empty());
                assert(box_views(table@) =~= spec_char_boxes(rv.take(i + 1)));
            }
        }
        i += 1;
    }
    proof {
        assert(rv.take(words@.len() as int) =~= rv);
    }
    table
}

/// The run's concatenated source text.
fn run_text(run: &Run) -> (t: String)
    ensures
        t@ == spec_run_text(run@),
{
    let words = &run.words;
    let ghost rv = run@;
    let mut t = String::new();
    let mut i: usize = 0;
    proof {
        assert(t@ =~= spec_run_text(rv.take(0)));
    }
    while i < words.len()
        invariant
            rv == run@,
            rv == crate::ocr::word_views(words@),
            rv.len() == words@.len(),
            0 <= i <= words@.len(),
            t@ == spec_run_text(rv.take(i as int)),
        decreases words@.len() - i,
    {
        proof {
            assert(rv.take(i + 1).drop_last() =~= rv.take(i as int));
            assert(rv.take(i + 1).last() == rv[i as int]);
            assert(rv[i as int] == words@[i as int]@);
        }
        t.append(words[i].text.as_str());
        i += 1;
    }
    proof {
        assert(rv.take(words@.len() as int) =~= rv);
    }
    t
}

/// The morphemes' total character count.
fn morph_chars(morphemes: &Vec<Morpheme>) -> (n: u128)
    ensures
        n == spec_morph_chars(morph_views(morphemes@)),
{
    let ghost mv = morph_views(morphemes@);
    let mut n: u128 = 0;
    let mut i: usize = 0;
    proof {
        assert(mv.take(0) =~= Seq::<MorphemeV>::empty());
    }
    while i < morphemes.len()
        invariant
            mv == morph_views(morphemes@),
            mv.len() == morphemes@.len(),
            0 <= i <= morphemes@.len(),
            n == spec_morph_chars(mv.take(i as int)),
            n <= i * 0xffff_ffff_ffff_ffffu128,
        decreases morphemes@.len() - i,
    {
        proof {
            assert(mv.take(i + 1).drop_last() =~= mv.take(i as int));
            assert(mv.take(i + 1).last() == mv[i as int]);
            assert(mv[i as int] == morphemes@[i as int]@);
        }
        let c = morphemes[i].text.as_str().unicode_len();
        assert(c as u128 <= 0xffff_ffff_ffff_ffffu128);
        proof {
            assert(i * 0xffff_ffff_ffff_ffffu128 + 0xffff_ffff_ffff_ffffu128 == (i + 1)
                * 0xffff_ffff_ffff_ffffu128) by (nonlinear_arith);
            assert((i + 1) * 0xffff_ffff_ffff_ffffu128 <= 0xffff_ffff_ffff_ffffu128
                * 0xffff_ffff_ffff_ffffu128) by (nonlinear_arith)
                requires
                    0 <= i + 1 <= 0xffff_ffff_ffff_ffffu128,
            ;
        }
        n = n + c as u128;
        i += 1;
    }
    proof {
        assert(mv.take(morphemes@.len() as int) =~= mv);
    }
    n
}

/// Every anchored box of the table lies within the captured image.
pub open spec fn spec_boxes_bounded(t: Seq<Option<BBoxV>>) -> bool {
    forall|i: int|
        0 <= i < t.len() ==> match #[trigger] t[i] {
            Some((x, y, w, h)) => {
                &&& 0 <= x <= MAX_COORD
                &&& 0 <= y <= MAX_COORD
                &&& 0 <= w <= MAX_COORD
                &&& 0 <= h <= MAX_COORD
            },
            None => true,
        }
}

proof fn lemma_char_boxes_bounded(ws: Seq<OCRWordV>)
    requires
        forall|i: int| 0 <= i < ws.len() ==> spec_word_bounded(#[trigger] ws[i]),
    ensures
        spec_boxes_bounded(spec_char_boxes(ws)),
    decreases ws.len(),
{
    if ws.len() > 0 {
        lemma_char_boxes_bounded(ws.drop_last());
        let prefix = spec_char_boxes(ws.drop_last());
        let wb = spec_word_boxes(ws.last());
        let all = spec_char_boxes(ws);
        assert(spec_word_bounded(ws.last()));
        assert forall|i: int|
            0 <= i < all.len() implies match #[trigger] all[i] {
            Some((x, y, w, h)) => {
                &&& 0 <= x <= MAX_COORD
                &&& 0 <= y <= MAX_COORD
                &&& 0 <= w <= MAX_COORD
                &&& 0 <= h <= MAX_COORD
            },
            None => true,
        } by {
            if i < prefix.len() {
                assert(all[i] == prefix[i]);
            } else {
                assert(all[i] == wb[i - prefix.len()]);
            }
        }
    }
}

proof fn lemma_run_text_len_ge(ws: Seq<OCRWordV>)
    requires
        forall|i: int| 0 <= i < ws.len() ==> spec_word_bounded(#[trigger] ws[i]),
    ensures
        spec_run_text(ws).len() >= ws.len(),
    decreases ws.len(),
{
    if ws.len() > 0 {
        lemma_run_text_len_ge(ws.drop_last());
        assert(spec_word_bounded(ws.last()));
    }
}

/// A morpheme sequence's character count splits at its first member.
proof fn lemma_morph_chars_first(ms: Seq<MorphemeV>)
    requires
        ms.len() > 0,
    ensures
        spec_morph_chars(ms) == ms.first().text.len() + spec_morph_chars(ms.drop_first()),
    decreases ms.len(),
{
    if ms.len() == 1 {
        assert(spec_morph_chars(Seq::<MorphemeV>::empty()) == 0);
        assert(ms.drop_first() =~= Seq::<MorphemeV>::empty());
        assert(ms.drop_last() =~= Seq::<MorphemeV>::empty());
        assert(spec_morph_chars(ms) == spec_morph_chars(ms.drop_last()) + ms.last().text.len());
    } else {
        lemma_morph_chars_first(ms.drop_last());
        assert(ms.drop_last().first() == ms.first());
        assert(ms.drop_first().drop_last() =~= ms.drop_last().drop_first());
        assert(ms.drop_first().last() == ms.last());
        assert(spec_morph_chars(ms.drop_first()) == spec_morph_chars(ms.drop_first().drop_last())
            + ms.drop_first().last().text.len());
        assert(spec_morph_chars(ms.drop_first().drop_last()) == spec_morph_chars(
            ms.drop_last().drop_first(),
        ));
        assert(spec_morph_chars(ms) == spec_morph_chars(ms.drop_last()) + ms.last().text.len());
        assert(spec_morph_chars(ms.drop_last()) == ms.first().text.len() + spec_morph_chars(
            ms.drop_last().drop_first(),
        ));
        assert(spec_morph_chars(ms) == ms.first().text.len() + spec_morph_chars(ms.drop_first()));
    }
}

/// Walks the morphemes over the character table in lockstep, giving each
/// the envelope of the anchored characters it consumes.
fn align(table: &Vec<Option<BBox>>, morphemes: &Vec<Morpheme>) -> (vms: Vec<VisualMorpheme>)
    requires
        spec_boxes_bounded(box_views(table@)),
        spec_morph_chars(morph_views(morphemes@)) == box_views(table@).len(),
    ensures
        vm_views(vms@) == spec_align(box_views(table@), morph_views(morphemes@)),
{
    let ghost tv = box_views(table@);
    let ghost mv = morph_views(morphemes@);
    let tlen = table.len();
    let mut vms: Vec<VisualMorpheme> = Vec::new();
    let mut off: usize = 0;
    let mut j: usize = 0;
    proof {
        assert(tv.skip(0) =~= tv);
        assert(mv.skip(0) =~= mv);
        assert(vm_views(vms@) =~= Seq::<VisualMorphemeV>::empty());
    }
    while j < morphemes.len()
        invariant
            tv == box_views(table@),
            mv == morph_views(morphemes@),
            tv.len() == table@.len(),
            mv.len() == morphemes@.len(),
            spec_boxes_bounded(tv),
            tlen == table@.len(),
            0 <= j <= morphemes@.len(),
            0 <= off <= tlen,
            spec_morph_chars(mv.skip(j as int)) == tv.len() - off,
            vm_views(vms@) + spec_align(tv.skip(off as int), mv.skip(j as int)) =~= spec_align(
                tv,
                mv,
            ),
        decreases morphemes@.len() - j,
    {
        proof {
            assert(mv.skip(j as int).first() == mv[j as int]);
            assert(mv[j as int] == morphemes@[j as int]@);
            assert(mv.skip(j as int).drop_first() =~= mv.skip(j + 1));
            lemma_morph_chars_first(mv.skip(j as int));
            lemma_morph_chars_nonneg(mv.skip(j + 1));
        }
        let m = &morphemes[j];
        let len = m.text.as_str().unicode_len();
        assert(off + len <= tlen);
        let ghost seg = tv.subrange(off as int, off + len);
        proof {
            assert(tv.skip(off as int).take(len as int) =~= seg);
            assert(tv.skip(off as int).skip(len as int) =~= tv.skip(off + len));
        }

        // The envelope of the anchored characters this morpheme consumes.
        let mut any = false;
        let mut ex0: i32 = 0;
        let mut ey0: i32 = 0;
        let mut ex1: i32 = 0;
        let mut ey1: i32 = 0;
        let mut i: usize = 0;
        proof {
            assert(seg.take(0) =~= Seq::<Option<BBoxV>>::empty());
        }
        while i < len
            invariant
                tv == box_views(table@),
                tv.len() == table@.len(),
                spec_boxes_bounded(tv),
                tlen == table@.len(),
                off + len <= tlen,
                0 <= i <= len,
                seg == tv.subrange(off as int, off + len),
                !any ==> spec_envelope(seg.take(i as int)) is None,
                any ==> spec_envelope(seg.take(i as int)) == Some(
                    (ex0 as int, ey0 as int, ex1 as int, ey1 as int),
                ),
                any ==> 0 <= ex0 <= ex1 <= 2 * MAX_COORD && 0 <= ey0 <= ey1 <= 2 * MAX_COORD,
            decreases len - i,
        {
            proof {
                assert(seg.take(i + 1).drop_last() =~= seg.take(i as int));
                assert(seg.take(i + 1).last() == seg[i as int]);
                assert(seg[i as int] == tv[off + i]);
            }
            match table[off + i] {
                Some(b) => {
                    let (bx, by, bw, bh) = b;
                    assert(tv[off + i] == Some((bx as int, by as int, bw as int, bh as int)));
                    if !any {
                        any = true;
                        ex0 = bx;
                        ey0 = by;
                        ex1 = bx + bw;
                        ey1 = by + bh;
                    } else {
                        if bx < ex0 {
                            ex0 = bx;
                        }
                        if by < ey0 {
                            ey0 = by;
                        }
                        if bx + bw > ex1 {
                            ex1 = bx + bw;
                        }
                        if by + bh > ey1 {
                            ey1 = by + bh;
                        }
                    }
                },
                None => {
                    assert(tv[off + i] is None);
                },
            }
            i += 1;
        }
        proof {
            assert(seg.take(len as int) =~= seg);
        }

        let bbox: Option<BBox> = if any {
            Some((ex0, ey0, ex1 - ex0, ey1 - ey0))
        } else {
            None
        };
        let ghost old_vms = vm_views(vms@);
        vms.push(VisualMorpheme { morpheme: m.clone(), bbox });
        proof {
            assert(vm_views(vms@) =~= old_vms.push(vms@.last()@));
            assert(vms@.last()@ == VisualMorphemeV {
                morpheme: mv[j as int],
                bbox: spec_morph_box(seg),
            });
            assert(vm_views(vms@) + spec_align(tv.skip(off + len), mv.skip(j + 1)) =~= spec_align(
                tv,
                mv,
            ));
        }
        off = off + len;
        j += 1;
    }
    proof {
        assert(mv.skip(morphemes@.len() as int) =~= Seq::<MorphemeV>::empty());
        assert(vm_views(vms@) =~= spec_align(tv, mv));
    }
    vms
}

impl crate::jpn::JpnOCR {
    /// Annotates one run with an analyzer's morphemes: computes the
    /// aggregate box and source text, validates the analysis by character
    /// count, and aligns accepted morphemes onto the per-character boxes.
    /// A rejected analysis leaves the box and text intact and the morpheme
    /// list empty, so a capture always yields a result.
    pub fn annotate_run(&self, run: &Run, morphemes: &Vec<Morpheme>) -> (t: JpnText)
        requires
            spec_run_bounded(run@),
        ensures
            t.text@ == spec_run_text(run@),
            t.x == spec_min_x(run@),
            t.y == spec_agg_y(run@),
            t.w == spec_max_right(run@) - spec_min_x(run@),
            t.h == spec_agg_h(run@),
            spec_counts_match(run@, morph_views(morphemes@)) ==> vm_views(t.morphemes@)
                == spec_align(spec_char_boxes(run@), morph_views(morphemes@)),
            !spec_counts_match(run@, morph_views(morphemes@)) ==> t.morphemes@.len() == 0,
            t.morphemes@.len() > 0 ==> spec_morph_chars(morph_views(morphemes@)) == spec_run_text(
                run@,
            ).len(),
    {
        let ghost rv = run@;
        let table = build_char_boxes(run);
        proof {
            lemma_char_boxes_len(rv);
            lemma_char_boxes_bounded(rv);
            lemma_run_text_len_ge(rv);
        }
        let chars = table.len();
        let text = run_text(run);

        // Aggregate box: leftmost edge, rightmost extent, and the
        // character-weighted means of the vertical values.
        let words = &run.words;
        proof {
            assert(rv[0] == words@[0]@);
            assert(spec_word_bounded(rv[0]));
        }
        let first = &words[0];
        let mut min_x: i32 = first.x;
        let mut max_r: i32 = first.x + first.w;
        let mut sum_y: u128 = first.y as u128;
        let mut sum_h: u128 = first.h as u128;
        let mut i: usize = 1;
        proof {
            assert(rv.take(1).last() == rv[0]);
            assert(rv.take(1).drop_last() =~= rv.take(0));
            assert(rv.take(0) =~= Seq::<OCRWordV>::empty());
            assert(spec_min_x(rv.take(1)) == rv[0].x);
            assert(spec_max_right(rv.take(1)) == rv[0].x + rv[0].w);
            assert(spec_sum_y(rv.take(0)) == 0);
            assert(spec_sum_h(rv.take(0)) == 0);
            assert(spec_sum_y(rv.take(1)) == rv[0].y);
            assert(spec_sum_h(rv.take(1)) == rv[0].h);
        }
        while i < words.len()
            invariant
                rv == run@,
                rv == crate::ocr::word_views(words@),
                rv.len() == words@.len(),
                spec_run_bounded(rv),
                1 <= i <= words@.len(),
                min_x == spec_min_x(rv.take(i as int)),
                max_r == spec_max_right(rv.take(i as int)),
                sum_y == spec_sum_y(rv.take(i as int)),
                sum_h == spec_sum_h(rv.take(i as int)),
                0 <= min_x <= MAX_COORD,
                min_x <= max_r <= 2 * MAX_COORD,
                sum_y <= i * (MAX_COORD as u128),
                sum_h <= i * (MAX_COORD as u128),
            decreases words@.len() - i,
        {
            proof {
                assert(rv.take(i + 1).drop_last() =~= rv.take(i as int));
                assert(rv.take(i + 1).last() == rv[i as int]);
                assert(rv[i as int] == words@[i as int]@);
                assert(spec_word_bounded(rv[i as int]));
                assert(i * (MAX_COORD as u128) + (MAX_COORD as u128) == (i + 1) * (
                MAX_COORD as u128)) by (nonlinear_arith);
            }
            let w = &words[i];
            if w.x < min_x {
                min_x = w.x;
            }
            if w.x + w.w > max_r {
                max_r = w.x + w.w;
            }
            sum_y = sum_y + w.y as u128;
            sum_h = sum_h + w.h as u128;
            i += 1;
        }
        proof {
            assert(rv.take(words@.len() as int) =~= rv);
        }

        // Character-weighted means; the run is non-empty and every word
        // has at least one character, so the divisor is positive.
        assert(chars >= words@.len() >= 1);
        let y_mean = sum_y / chars as u128;
        let h_mean = sum_h / chars as u128;
        proof {
            let c = chars as int;
            let m = MAX_COORD as int;
            assert(words@.len() * m <= c * m) by (nonlinear_arith)
                requires
                    0 <= words@.len() <= c,
                    0 < m,
            ;
            vstd::arithmetic::div_mod::lemma_div_is_ordered(sum_y as int, c * m, c);
            vstd::arithmetic::div_mod::lemma_div_is_ordered(sum_h as int, c * m, c);
            vstd::arithmetic::div_mod::lemma_div_by_multiple(m, c);
            assert((c * m) / c == m) by {
                assert(c * m == m * c) by (nonlinear_arith);
            }
            assert(sum_y as int / c <= m);
            assert(sum_h as int / c <= m);
            vstd::arithmetic::div_mod::lemma_div_pos_is_pos(sum_y as int, c);
            vstd::arithmetic::div_mod::lemma_div_pos_is_pos(sum_h as int, c);
        }
        let y = y_mean as i32;
        let h = h_mean as i32;
        assert(y == spec_agg_y(rv));
        assert(h == spec_agg_h(rv));

        // Consistency validation, then alignment.
        let m_chars = morph_chars(morphemes);
        let morphemes_out: Vec<VisualMorpheme> = if m_chars == chars as u128 {
            align(&table, morphemes)
        } else {
            Vec::new()
        };
        proof {
            if !spec_counts_match(rv, morph_views(morphemes@)) {
                assert(vm_views(morphemes_out@).len() == morphemes_out@.len());
            }
        }
        JpnText { morphemes: morphemes_out, text, x: min_x, y, w: max_r - min_x, h }
    }
}

} // verus!
