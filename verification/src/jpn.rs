//! Line clustering and run segmentation.
//!
//! The words of one recognition call are grouped by their OCR-assigned line
//! identity in first-appearance order, each group is sorted by word number,
//! and each sorted group is split into runs: maximal contiguous
//! subsequences whose members all clear the confidence threshold, are
//! entirely Japanese text, and carry consecutive word numbers.  A word that
//! fails the confidence or script filter is excluded and closes the
//! current run; a qualifying word whose number does not follow its
//! predecessor's closes the current run and starts the next one.

use vstd::prelude::*;

use crate::ocr::{word_views, OCRWord, OCRWordV, OCR};
use crate::script::{is_japanese_text, spec_is_japanese_text};

verus! {

/// The composite line ordering key: page, block, paragraph, line.
pub type LineId = (u32, u32, u32, u32);

/// The confidence threshold of the run filter, in hundredths of a percent:
/// a word joins a run only when its confidence exceeds 80 percent.
pub const CONF_THRESHOLD: u32 = 8000;

/// Whether a word may appear inside a run at all: its confidence exceeds
/// the threshold and its text is entirely Japanese.
pub open spec fn spec_word_passes(w: OCRWordV, thr: u32) -> bool {
    w.conf > thr && spec_is_japanese_text(w.text)
}

/// The members of a run form a chain: every member passes the filter and
/// word numbers increase by exactly one.
pub open spec fn spec_chain(ws: Seq<OCRWordV>, thr: u32) -> bool {
    &&& forall|i: int| 0 <= i < ws.len() ==> spec_word_passes(#[trigger] ws[i], thr)
    &&& forall|i: int| 0 < i < ws.len() ==> (#[trigger] ws[i]).word_num == ws[i - 1].word_num + 1
}

/// A well-formed run: a non-empty chain.
pub open spec fn spec_run_wf(ws: Seq<OCRWordV>, thr: u32) -> bool {
    ws.len() > 0 && spec_chain(ws, thr)
}

/// A contiguous filtered subsequence of one OCR line, treated as one
/// annotatable block of text.
pub struct Run {
    pub words: Vec<OCRWord>,
}

impl View for Run {
    type V = Seq<OCRWordV>;

    open spec fn view(&self) -> Seq<OCRWordV> {
        word_views(self.words@)
    }
}

/// The views of a sequence of runs.
pub open spec fn run_views(rs: Seq<Run>) -> Seq<Seq<OCRWordV>> {
    rs.map_values(|r: Run| r@)
}

/// Segmentation of the rest of a line, `cur` being the run under
/// construction: a failing word closes and drops itself; a qualifying but
/// non-consecutive word closes the current run and opens its own; the
/// current run is emitted when closed non-empty.
pub open spec fn spec_segment_from(line: Seq<OCRWordV>, cur: Seq<OCRWordV>, thr: u32) -> Seq<
    Seq<OCRWordV>,
>
    decreases line.len(),
{
    if line.len() == 0 {
        if cur.len() == 0 {
            Seq::empty()
        } else {
            seq![cur]
        }
    } else {
        let w = line.first();
        let rest = line.drop_first();
        if !spec_word_passes(w, thr) {
            (if cur.len() == 0 {
                Seq::empty()
            } else {
                seq![cur]
            }) + spec_segment_from(rest, Seq::empty(), thr)
        } else if cur.len() == 0 {
            spec_segment_from(rest, seq![w], thr)
        } else if w.word_num == cur.last().word_num + 1 {
            spec_segment_from(rest, cur.push(w), thr)
        } else {
            seq![cur] + spec_segment_from(rest, seq![w], thr)
        }
    }
}

/// Segmentation of one sorted line into runs.
pub open spec fn spec_segment(line: Seq<OCRWordV>, thr: u32) -> Seq<Seq<OCRWordV>> {
    spec_segment_from(line, Seq::empty(), thr)
}

/// Run contiguity: every run that segmentation emits is a non-empty chain —
/// consecutive members' word numbers differ by exactly one and no member
/// fails the confidence or script filter.
pub proof fn lemma_segment_from_wf(line: Seq<OCRWordV>, cur: Seq<OCRWordV>, thr: u32)
    requires
        spec_chain(cur, thr),
    ensures
        forall|k: int|
            0 <= k < spec_segment_from(line, cur, thr).len() ==> spec_run_wf(
                #[trigger] spec_segment_from(line, cur, thr)[k],
                thr,
            ),
    decreases line.len(),
{
    let res = spec_segment_from(line, cur, thr);
    if line.len() == 0 {
        if cur.len() > 0 {
            assert forall|k: int| 0 <= k < res.len() implies spec_run_wf(res[k], thr) by {
                assert(res[k] == cur);
            }
        }
    } else {
        let w = line.first();
        let rest = line.drop_first();
        if !spec_word_passes(w, thr) {
            lemma_segment_from_wf(rest, Seq::empty(), thr);
            let rec = spec_segment_from(rest, Seq::empty(), thr);
            assert forall|k: int| 0 <= k < res.len() implies spec_run_wf(res[k], thr) by {
                if cur.len() == 0 {
                    assert(res[k] == rec[k]);
                } else if k == 0 {
                    assert(res[k] == cur);
                } else {
                    assert(res[k] == rec[k - 1]);
                }
            }
        } else if cur.len() == 0 {
            assert(spec_chain(seq![w], thr));
            lemma_segment_from_wf(rest, seq![w], thr);
            let rec = spec_segment_from(rest, seq![w], thr);
            assert forall|k: int| 0 <= k < res.len() implies spec_run_wf(res[k], thr) by {
                assert(res[k] == rec[k]);
            }
        } else if w.word_num == cur.last().word_num + 1 {
            assert(spec_chain(cur.push(w), thr)) by {
                assert(forall|i: int|
                    0 <= i < cur.len() ==> cur.push(w)[i] == #[trigger] cur[i]);
            }
            lemma_segment_from_wf(rest, cur.push(w), thr);
            let rec = spec_segment_from(rest, cur.push(w), thr);
            assert forall|k: int| 0 <= k < res.len() implies spec_run_wf(res[k], thr) by {
                assert(res[k] == rec[k]);
            }
        } else {
            assert(spec_chain(seq![w], thr));
            lemma_segment_from_wf(rest, seq![w], thr);
            let rec = spec_segment_from(rest, seq![w], thr);
            assert forall|k: int| 0 <= k < res.len() implies spec_run_wf(res[k], thr) by {
                if k == 0 {
                    assert(res[k] == cur);
                } else {
                    assert(res[k] == rec[k - 1]);
                }
            }
        }
    }
}

/// The Japanese OCR pipeline's pure core: the output parser's
/// configuration and the run filter's confidence threshold (hundredths of
/// a percent).
pub struct JpnOCR {
    pub ocr: OCR,
    pub threshold: u32,
}

impl JpnOCR {
    pub fn new() -> (r: JpnOCR)
        ensures
            r.threshold == CONF_THRESHOLD,
            r.ocr.lang@ == "jpn"@,
    {
        JpnOCR { ocr: OCR { lang: String::from_str("jpn") }, threshold: CONF_THRESHOLD }
    }

    /// Splits the ordered words of one OCR line into runs; every returned
    /// run is a non-empty chain (run contiguity).
    pub fn from_line(&self, line: &Vec<OCRWord>) -> (runs: Vec<Run>)
        ensures
            run_views(runs@) == spec_segment(word_views(line@), self.threshold),
            forall|k: int| 0 <= k < runs@.len() ==> spec_run_wf(#[trigger] runs@[k]@, self.threshold),
    {
        let thr = self.threshold;
        let ghost lv = word_views(line@);
        let mut runs: Vec<Run> = Vec::new();
        let mut cur: Vec<OCRWord> = Vec::new();
        let mut i: usize = 0;
        proof {
            assert(lv.skip(0) =~= lv);
            assert(run_views(runs@) =~= Seq::<Seq<OCRWordV>>::empty());
            assert(word_views(cur@) =~= Seq::<OCRWordV>::empty());
        }
        while i < line.len()
            invariant
                lv == word_views(line@),
                lv.len() == line@.len(),
                0 <= i <= line@.len(),
                thr == self.threshold,
                spec_chain(word_views(cur@), thr),
                run_views(runs@) + spec_segment_from(lv.skip(i as int), word_views(cur@), thr)
                    =~= spec_segment(lv, thr),
            decreases line@.len() - i,
        {
            let ghost tail = lv.skip(i as int);
            proof {
                assert(tail.first() == lv[i as int]);
                assert(lv[i as int] == line@[i as int]@);
                assert(tail.drop_first() =~= lv.skip(i + 1));
            }
            let w = &line[i];
            let passes = w.conf > thr && is_japanese_text(w.text.as_str());
            assert(passes == spec_word_passes(lv[i as int], thr));
            if !passes {
                if cur.len() > 0 {
                    let done = Run { words: cur };
                    cur = Vec::new();
                    let ghost old_runs = runs@;
                    runs.push(done);
                    proof {
                        assert(run_views(runs@) =~= run_views(old_runs).push(runs@.last()@));
                        assert(word_views(cur@) =~= Seq::<OCRWordV>::empty());
                    }
                } else {
                    proof {
                        assert(word_views(cur@) =~= Seq::<OCRWordV>::empty());
                    }
                }
            } else if cur.len() == 0 {
                cur.push(w.clone());
                proof {
                    assert(word_views(cur@) =~= seq![lv[i as int]]);
                }
            } else {
                let last_num = cur[cur.len() - 1].word_num;
                proof {
                    assert(word_views(cur@).last() == cur@.last()@);
                }
                if w.word_num as u64 == last_num as u64 + 1 {
                    let ghost old_cur = word_views(cur@);
                    cur.push(w.clone());
                    proof {
                        assert(word_views(cur@) =~= old_cur.push(lv[i as int]));
                        assert(spec_chain(word_views(cur@), thr)) by {
                            assert(forall|k: int|
                                0 <= k < old_cur.len() ==> old_cur.push(lv[i as int])[k]
                                    == #[trigger] old_cur[k]);
                        }
                    }
                } else {
                    let done = Run { words: cur };
                    cur = Vec::new();
                    let ghost old_runs = runs@;
                    runs.push(done);
                    cur.push(w.clone());
                    proof {
                        assert(run_views(runs@) =~= run_views(old_runs).push(runs@.last()@));
                        assert(word_views(cur@) =~= seq![lv[i as int]]);
                    }
                }
            }
            i += 1;
        }
        proof {
            assert(lv.skip(line@.len() as int) =~= Seq::<OCRWordV>::empty());
        }
        if cur.len() > 0 {
            let done = Run { words: cur };
            let ghost old_runs = runs@;
            runs.push(done);
            proof {
                assert(run_views(runs@) =~= run_views(old_runs).push(runs@.last()@));
            }
        }
        proof {
            assert(run_views(runs@) =~= spec_segment(lv, thr));
            lemma_segment_from_wf(lv, Seq::empty(), thr);
            assert forall|k: int| 0 <= k < runs@.len() implies spec_run_wf(runs@[k]@, thr) by {
                assert(runs@[k]@ == run_views(runs@)[k]);
                assert(run_views(runs@)[k] == spec_segment_from(lv, Seq::empty(), thr)[k]);
            }
        }
        runs
    }
}

/// The distinct line identities of a word sequence, in first-appearance
/// order.
pub open spec fn spec_line_ids(ws: Seq<OCRWordV>) -> Seq<LineId>
    decreases ws.len(),
{
    if ws.len() == 0 {
        Seq::empty()
    } else {
        let prev = spec_line_ids(ws.drop_last());
        if prev.contains(ws.last().line_id) {
            prev
        } else {
            prev.push(ws.last().line_id)
        }
    }
}

/// The words of one line, in input order.
pub open spec fn spec_group(ws: Seq<OCRWordV>, id: LineId) -> Seq<OCRWordV>
    decreases ws.len(),
{
    if ws.len() == 0 {
        Seq::empty()
    } else {
        spec_group(ws.drop_last(), id) + if ws.last().line_id == id {
            seq![ws.last()]
        } else {
            Seq::empty()
        }
    }
}

/// Insertion of a word into a sequence sorted by word number, after any
/// members with the same number.
pub open spec fn spec_insert_by_num(s: Seq<OCRWordV>, w: OCRWordV) -> Seq<OCRWordV>
    decreases s.len(),
{
    if s.len() == 0 {
        seq![w]
    } else if w.word_num < s.last().word_num {
        spec_insert_by_num(s.drop_last(), w).push(s.last())
    } else {
        s.push(w)
    }
}

/// Stable insertion sort by word number.
pub open spec fn spec_sort_by_num(s: Seq<OCRWordV>) -> Seq<OCRWordV>
    decreases s.len(),
{
    if s.len() == 0 {
        Seq::empty()
    } else {
        spec_insert_by_num(spec_sort_by_num(s.drop_last()), s.last())
    }
}

/// The runs of the groups named by `ids`, one sorted group after the
/// other.
pub open spec fn spec_runs_of_groups(ws: Seq<OCRWordV>, ids: Seq<LineId>, thr: u32) -> Seq<
    Seq<OCRWordV>,
>
    decreases ids.len(),
{
    if ids.len() == 0 {
        Seq::empty()
    } else {
        spec_runs_of_groups(ws, ids.drop_last(), thr) + spec_segment(
            spec_sort_by_num(spec_group(ws, ids.last())),
            thr,
        )
    }
}

/// The whole clustering-and-segmentation pass: group by line identity in
/// first-appearance order, sort each group by word number, segment each
/// sorted group into runs.
pub open spec fn spec_from_ocr_words(ws: Seq<OCRWordV>, thr: u32) -> Seq<Seq<OCRWordV>> {
    spec_runs_of_groups(ws, spec_line_ids(ws), thr)
}

fn ids_contain(ids: &Vec<LineId>, id: LineId) -> (b: bool)
    ensures
        b == ids@.contains(id),
{
    let mut j: usize = 0;
    while j < ids.len()
        invariant
            0 <= j <= ids@.len(),
            forall|k: int| 0 <= k < j ==> ids@[k] != id,
        decreases ids@.len() - j,
    {
        let c = ids[j];
        if c.0 == id.0 && c.1 == id.1 && c.2 == id.2 && c.3 == id.3 {
            assert(ids@[j as int] == id);
            return true;
        }
        j += 1;
    }
    false
}

fn collect_line_ids(words: &Vec<OCRWord>) -> (ids: Vec<LineId>)
    ensures
        ids@ == spec_line_ids(word_views(words@)),
{
    let ghost wv = word_views(words@);
    let mut ids: Vec<LineId> = Vec::new();
    let mut i: usize = 0;
    proof {
        assert(ids@ =~= spec_line_ids(wv.take(0)));
    }
    while i < words.len()
        invariant
            wv == word_views(words@),
            wv.len() == words@.len(),
            0 <= i <= words@.len(),
            ids@ == spec_line_ids(wv.take(i as int)),
        decreases words@.len() - i,
    {
        proof {
            assert(wv.take(i + 1).drop_last() =~= wv.take(i as int));
            assert(wv.take(i + 1).last() == wv[i as int]);
            assert(wv[i as int] == words@[i as int]@);
        }
        let id = words[i].line_id;
        if !ids_contain(&ids, id) {
            ids.push(id);
        }
        i += 1;
    }
    proof {
        assert(wv.take(words@.len() as int) =~= wv);
    }
    ids
}

fn collect_group(words: &Vec<OCRWord>, id: LineId) -> (g: Vec<OCRWord>)
    ensures
        word_views(g@) == spec_group(word_views(words@), id),
{
    let ghost wv = word_views(words@);
    let mut g: Vec<OCRWord> = Vec::new();
    let mut i: usize = 0;
    proof {
        assert(word_views(g@) =~= spec_group(wv.take(0), id));
    }
    while i < words.len()
        invariant
            wv == word_views(words@),
            wv.len() == words@.len(),
            0 <= i <= words@.len(),
            word_views(g@) == spec_group(wv.take(i as int), id),
        decreases words@.len() - i,
    {
        proof {
            assert(wv.take(i + 1).drop_last() =~= wv.take(i as int));
            assert(wv.take(i + 1).last() == wv[i as int]);
            assert(wv[i as int] == words@[i as int]@);
        }
        let w = &words[i];
        let wid = w.line_id;
        if wid.0 == id.0 && wid.1 == id.1 && wid.2 == id.2 && wid.3 == id.3 {
            let ghost old_g = word_views(g@);
            g.push(w.clone());
            proof {
                assert(word_views(g@) =~= old_g.push(wv[i as int]));
                assert(word_views(g@) =~= spec_group(wv.take(i + 1), id));
            }
        } else {
            proof {
                assert(word_views(g@) =~= spec_group(wv.take(i + 1), id));
            }
        }
        i += 1;
    }
    proof {
        assert(wv.take(words@.len() as int) =~= wv);
    }
    g
}

proof fn lemma_insert_at(s: Seq<OCRWordV>, w: OCRWordV, j: int)
    requires
        0 <= j <= s.len(),
        forall|k: int| j <= k < s.len() ==> (#[trigger] s[k]).word_num > w.word_num,
        j > 0 ==> s[j - 1].word_num <= w.word_num,
    ensures
        spec_insert_by_num(s, w) == s.take(j) + seq![w] + s.skip(j),
    decreases s.len(),
{
    if j == s.len() {
        assert(spec_insert_by_num(s, w) =~= s.take(j) + seq![w] + s.skip(j));
    } else {
        assert(s[s.len() - 1].word_num > w.word_num);
        lemma_insert_at(s.drop_last(), w, j);
        assert(s.drop_last().take(j) =~= s.take(j));
        assert(spec_insert_by_num(s, w) =~= s.take(j) + seq![w] + s.skip(j)) by {
            assert(spec_insert_by_num(s, w) == spec_insert_by_num(s.drop_last(), w).push(
                s.last(),
            ));
            assert(spec_insert_by_num(s.drop_last(), w) == s.drop_last().take(j) + seq![w]
                + s.drop_last().skip(j));
        }
    }
}

fn insert_by_num(s: Vec<OCRWord>, w: OCRWord) -> (r: Vec<OCRWord>)
    ensures
        word_views(r@) == spec_insert_by_num(word_views(s@), w@),
{
    let ghost sv = word_views(s@);
    let mut r = s;
    let mut j: usize = r.len();
    while j > 0
        invariant
            sv == word_views(r@),
            sv.len() == r@.len(),
            0 <= j <= r@.len(),
            forall|k: int| j <= k < r@.len() ==> (#[trigger] sv[k]).word_num > w@.word_num,
        ensures
            0 <= j <= r@.len(),
            forall|k: int| j <= k < r@.len() ==> (#[trigger] sv[k]).word_num > w@.word_num,
            j > 0 ==> sv[j - 1].word_num <= w@.word_num,
        decreases j,
    {
        let prev = r[j - 1].word_num;
        assert(sv[j - 1].word_num == prev);
        if prev <= w.word_num {
            break;
        }
        j -= 1;
    }
    proof {
        lemma_insert_at(sv, w@, j as int);
    }
    let ghost old_r = r@;
    r.insert(j, w);
    proof {
        assert(word_views(r@) =~= sv.take(j as int) + seq![w@] + sv.skip(j as int));
    }
    r
}

fn sort_by_word_num(g: Vec<OCRWord>) -> (s: Vec<OCRWord>)
    ensures
        word_views(s@) == spec_sort_by_num(word_views(g@)),
{
    let ghost gv = word_views(g@);
    let mut s: Vec<OCRWord> = Vec::new();
    let mut k: usize = 0;
    proof {
        assert(word_views(s@) =~= spec_sort_by_num(gv.take(0)));
    }
    while k < g.len()
        invariant
            gv == word_views(g@),
            gv.len() == g@.len(),
            0 <= k <= g@.len(),
            word_views(s@) == spec_sort_by_num(gv.take(k as int)),
        decreases g@.len() - k,
    {
        proof {
            assert(gv.take(k + 1).drop_last() =~= gv.take(k as int));
            assert(gv.take(k + 1).last() == gv[k as int]);
            assert(gv[k as int] == g@[k as int]@);
        }
        let w = g[k].clone();
        s = insert_by_num(s, w);
        k += 1;
    }
    proof {
        assert(gv.take(g@.len() as int) =~= gv);
    }
    s
}

impl JpnOCR {
    /// The whole clustering-and-segmentation pass over one recognition
    /// call's words; every returned run is a non-empty chain.
    pub fn from_ocr_words(&self, words: &Vec<OCRWord>) -> (runs: Vec<Run>)
        ensures
            run_views(runs@) == spec_from_ocr_words(word_views(words@), self.threshold),
            forall|k: int| 0 <= k < runs@.len() ==> spec_run_wf(#[trigger] runs@[k]@, self.threshold),
    {
        let thr = self.threshold;
        let ghost wv = word_views(words@);
        let ids = collect_line_ids(words);
        let mut runs: Vec<Run> = Vec::new();
        let mut t: usize = 0;
        proof {
            assert(run_views(runs@) =~= spec_runs_of_groups(wv, ids@.take(0), thr));
        }
        while t < ids.len()
            invariant
                wv == word_views(words@),
                ids@ == spec_line_ids(wv),
                thr == self.threshold,
                0 <= t <= ids@.len(),
                run_views(runs@) == spec_runs_of_groups(wv, ids@.take(t as int), thr),
                forall|k: int| 0 <= k < runs@.len() ==> spec_run_wf(#[trigger] runs@[k]@, thr),
            decreases ids@.len() - t,
        {
            proof {
                assert(ids@.take(t + 1).drop_last() =~= ids@.take(t as int));
                assert(ids@.take(t + 1).last() == ids@[t as int]);
            }
            let group = collect_group(words, ids[t]);
            let sorted = sort_by_word_num(group);
            let mut segs = self.from_line(&sorted);
            let ghost old_runs = runs@;
            let ghost segs_snap = segs@;
            runs.append(&mut segs);
            proof {
                assert(run_views(runs@) =~= run_views(old_runs) + run_views(segs_snap));
                assert(run_views(runs@) =~= spec_runs_of_groups(wv, ids@.take(t + 1), thr));
                assert forall|k: int| 0 <= k < runs@.len() implies spec_run_wf(
                    #[trigger] runs@[k]@,
                    thr,
                ) by {
                    if k < old_runs.len() {
                        assert(runs@[k] == old_runs[k]);
                    } else {
                        assert(runs@[k] == segs_snap[k - old_runs.len()]);
                    }
                }
            }
            t += 1;
        }
        proof {
            assert(ids@.take(ids@.len() as int) =~= ids@);
        }
        runs
    }
}

proof fn lemma_line_ids_uniform(ws: Seq<OCRWordV>, id: LineId)
    requires
        ws.len() > 0,
        forall|i: int| 0 <= i < ws.len() ==> (#[trigger] ws[i]).line_id == id,
    ensures
        spec_line_ids(ws) == seq![id],
    decreases ws.len(),
{
    if ws.len() == 1 {
        assert(spec_line_ids(ws.drop_last()) =~= Seq::<LineId>::empty());
        assert(spec_line_ids(ws) =~= seq![id]);
    } else {
        lemma_line_ids_uniform(ws.drop_last(), id);
        assert(seq![id].contains(ws.last().line_id)) by {
            assert(seq![id][0] == id);
        }
    }
}

proof fn lemma_group_uniform(ws: Seq<OCRWordV>, id: LineId)
    requires
        forall|i: int| 0 <= i < ws.len() ==> (#[trigger] ws[i]).line_id == id,
    ensures
        spec_group(ws, id) == ws,
    decreases ws.len(),
{
    if ws.len() == 0 {
        assert(spec_group(ws, id) =~= ws);
    } else {
        lemma_group_uniform(ws.drop_last(), id);
        assert(spec_group(ws, id) =~= ws);
    }
}

proof fn lemma_sort_sorted(ws: Seq<OCRWordV>)
    requires
        forall|i: int| 0 < i < ws.len() ==> (#[trigger] ws[i]).word_num >= ws[i - 1].word_num,
    ensures
        spec_sort_by_num(ws) == ws,
    decreases ws.len(),
{
    if ws.len() == 0 {
        assert(spec_sort_by_num(ws) =~= ws);
    } else {
        lemma_sort_sorted(ws.drop_last());
        if ws.len() == 1 {
            assert(spec_sort_by_num(ws) =~= ws);
        } else {
            assert(ws.last().word_num >= ws.drop_last().last().word_num);
            assert(spec_insert_by_num(ws.drop_last(), ws.last()) =~= ws);
        }
    }
}

proof fn lemma_segment_chain(line: Seq<OCRWordV>, cur: Seq<OCRWordV>, thr: u32)
    requires
        cur.len() > 0,
        spec_chain(cur + line, thr),
    ensures
        spec_segment_from(line, cur, thr) == seq![cur + line],
    decreases line.len(),
{
    if line.len() == 0 {
        assert(cur + line =~= cur);
        assert(seq![cur + line] =~= seq![cur]);
    } else {
        let w = line.first();
        let rest = line.drop_first();
        let whole = cur + line;
        assert(w == whole[cur.len() as int]);
        assert(spec_word_passes(w, thr));
        assert(cur.last() == whole[cur.len() - 1]);
        assert(w.word_num == cur.last().word_num + 1);
        assert(cur.push(w) + rest =~= whole);
        lemma_segment_chain(rest, cur.push(w), thr);
        assert(seq![cur.push(w) + rest] =~= seq![cur + line]);
    }
}

/// Clustering idempotence: feeding one well-formed run's words (all from
/// one line, already sorted and already segmented) back through the
/// clustering-and-segmentation pass yields exactly that run again.
pub proof fn lemma_reclustering_idempotent(ws: Seq<OCRWordV>, thr: u32)
    requires
        spec_run_wf(ws, thr),
        forall|i: int| 0 <= i < ws.len() ==> (#[trigger] ws[i]).line_id == ws[0].line_id,
    ensures
        spec_from_ocr_words(ws, thr) == seq![ws],
{
    let id = ws[0].line_id;
    lemma_line_ids_uniform(ws, id);
    lemma_group_uniform(ws, id);
    assert(forall|i: int|
        0 < i < ws.len() ==> (#[trigger] ws[i]).word_num >= ws[i - 1].word_num);
    lemma_sort_sorted(ws);

    // One sorted group, whose segmentation is a single run.
    let w = ws.first();
    let rest = ws.drop_first();
    assert(spec_word_passes(w, thr));
    assert(seq![w] + rest =~= ws);
    lemma_segment_chain(rest, seq![w], thr);
    assert(spec_segment(ws, thr) == seq![ws]) by {
        assert(spec_segment_from(ws, Seq::empty(), thr) == spec_segment_from(rest, seq![w], thr));
        assert(seq![seq![w] + rest] =~= seq![ws]);
    }

    assert(seq![id].drop_last() =~= Seq::<LineId>::empty());
    assert(spec_runs_of_groups(ws, seq![id].drop_last(), thr) =~= Seq::<Seq<OCRWordV>>::empty());
    assert(seq![id].last() == id);
    assert(spec_from_ocr_words(ws, thr) =~= seq![ws]);
}

} // verus!
