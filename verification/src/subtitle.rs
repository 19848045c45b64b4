//! Transcript segmentation and subtitle rendering.
//!
//! A transcript is an ordered sequence of recognized tokens, each carrying
//! its text and, for spoken words, a start and end time. The segmenter folds
//! the tokens into sentence-like cues: a cue grows word by word and is closed
//! by a terminator token (a lone `.` or `?`); a trailing unterminated cue is
//! flushed at the end. Whether a cue is in progress is an explicit state of
//! the fold, so a cue genuinely starting at time zero is kept like any
//! other.
//!
//! A finished subtitle renders as SRT text, WebVTT text, or the flattened
//! "time body" text handed to the search index, all three pure functions of
//! the cue sequence.

use vstd::prelude::*;

use crate::text::push_char;
use crate::timecode::{spec_dec, spec_time_label, dec_string, time_format};

verus! {

/// The kind tag a transcription service puts on a token.
#[derive(Clone, Copy, PartialEq, Eq, Structural)]
pub enum TokenKind {
    /// A spoken word, carrying timing.
    Pronunciation,
    /// A punctuation mark, carrying no reliable timing.
    Punctuation,
}

/// One recognized transcript token: its text and optional timing, in whole
/// milliseconds.
pub struct TranscriptToken {
    pub kind: TokenKind,
    pub content: String,
    pub start_ms: Option<u64>,
    pub end_ms: Option<u64>,
}

/// The mathematical content of a token: what segmentation reads.
pub struct TokView {
    pub content: Seq<char>,
    pub start_ms: Option<u64>,
    pub end_ms: Option<u64>,
}

impl View for TranscriptToken {
    type V = TokView;

    open spec fn view(&self) -> TokView {
        TokView { content: self.content@, start_ms: self.start_ms, end_ms: self.end_ms }
    }
}

/// One displayable subtitle cue: timing in whole milliseconds and its text.
pub struct SubtitleItem {
    pub start_ms: u64,
    pub end_ms: u64,
    pub content: String,
}

/// The mathematical content of a cue.
pub struct CueView {
    pub start_ms: u64,
    pub end_ms: u64,
    pub content: Seq<char>,
}

impl View for SubtitleItem {
    type V = CueView;

    open spec fn view(&self) -> CueView {
        CueView { start_ms: self.start_ms, end_ms: self.end_ms, content: self.content@ }
    }
}

/// An ordered sequence of cues for one (video, language) pair.
pub struct Subtitle {
    pub items: Vec<SubtitleItem>,
}

impl View for Subtitle {
    type V = Seq<CueView>;

    open spec fn view(&self) -> Seq<CueView> {
        self.items@.map_values(|it: SubtitleItem| it@)
    }
}

/// The token views of a token sequence.
pub open spec fn toks_view(ts: Seq<TranscriptToken>) -> Seq<TokView> {
    ts.map_values(|t: TranscriptToken| t@)
}

/// Whether a token text closes a cue: exactly `.` or exactly `?`.
pub open spec fn is_terminator_text(t: Seq<char>) -> bool {
    t == seq!['.'] || t == seq!['?']
}

/// Whether `text` is a sentence terminator token.
pub fn is_terminator(text: &str) -> (r: bool)
    ensures
        r == is_terminator_text(text@),
{
    if text.unicode_len() == 1 {
        let c = text.get_char(0);
        proof {
            assert(text@ =~= seq![text@[0]]);
        }
        c == '.' || c == '?'
    } else {
        false
    }
}

/// The cue accumulator before any token has started a cue.
pub open spec fn empty_acc() -> CueView {
    CueView { start_ms: 0, end_ms: 0, content: Seq::empty() }
}

/// The value of an optional timestamp, defaulting to zero.
pub open spec fn opt_ms(t: Option<u64>) -> u64 {
    match t {
        Some(v) => v,
        None => 0,
    }
}

/// One segmentation step: how the emitted cues, the accumulator and the
/// in-progress state react to the next token. A token meeting no cue in
/// progress starts one; an ordinary token extends the text (space-separated)
/// and advances the end time when it is timed; a terminator closes the cue
/// with no space before it.
pub open spec fn seg_step(cues: Seq<CueView>, acc: CueView, started: bool, t: TokView) -> (
    Seq<CueView>,
    CueView,
    bool,
) {
    if !started {
        (
            cues,
            CueView { start_ms: opt_ms(t.start_ms), end_ms: opt_ms(t.end_ms), content: t.content },
            true,
        )
    } else if !is_terminator_text(t.content) {
        (
            cues,
            CueView {
                start_ms: acc.start_ms,
                end_ms: match t.end_ms {
                    Some(e) => e,
                    None => acc.end_ms,
                },
                content: acc.content + seq![' '] + t.content,
            },
            true,
        )
    } else {
        (
            cues.push(
                CueView { start_ms: acc.start_ms, end_ms: acc.end_ms, content: acc.content + t.content },
            ),
            empty_acc(),
            false,
        )
    }
}

/// The emitted cues, final accumulator and in-progress state after
/// consuming all of `toks`.
pub open spec fn segment_rec(toks: Seq<TokView>) -> (Seq<CueView>, CueView, bool)
    decreases toks.len(),
{
    if toks.len() == 0 {
        (Seq::empty(), empty_acc(), false)
    } else {
        let (cs, a, st) = segment_rec(toks.drop_last());
        seg_step(cs, a, st, toks.last())
    }
}

/// The cue sequence segmentation produces: the emitted cues, with a trailing
/// in-progress cue flushed when the tokens end without a terminator.
pub open spec fn spec_segment(toks: Seq<TokView>) -> Seq<CueView> {
    let (cs, a, st) = segment_rec(toks);
    if st {
        cs.push(a)
    } else {
        cs
    }
}

impl Subtitle {
    /// Groups an ordered token sequence into subtitle cues, one single
    /// left-to-right pass, never reordering.
    #[verifier::rlimit(60)]
    pub fn segment(tokens: &Vec<TranscriptToken>) -> (r: Subtitle)
        ensures
            r@ == spec_segment(toks_view(tokens@)),
    {
        let mut items: Vec<SubtitleItem> = Vec::new();
        let mut acc = SubtitleItem { start_ms: 0, end_ms: 0, content: String::new() };
        let mut started = false;
        let n = tokens.len();
        let mut i: usize = 0;
        while i < n
            invariant
                n == tokens@.len(),
                0 <= i <= n,
                (items@.map_values(|it: SubtitleItem| it@), acc@, started) == segment_rec(
                    toks_view(tokens@).take(i as int),
                ),
            decreases n - i,
        {
            let t = &tokens[i];
            proof {
                assert(toks_view(tokens@).take(i + 1).drop_last() =~= toks_view(tokens@).take(
                    i as int,
                ));
                assert(toks_view(tokens@).take(i + 1).last() == tokens@[i as int]@);
            }
            if !started {
                acc.start_ms = match t.start_ms {
                    Some(v) => v,
                    None => 0,
                };
                acc.end_ms = match t.end_ms {
                    Some(v) => v,
                    None => 0,
                };
                acc.content = t.content.clone();
                started = true;
            } else if !is_terminator(t.content.as_str()) {
                acc.content.append(" ");
                acc.content.append(t.content.as_str());
                if let Some(e) = t.end_ms {
                    acc.end_ms = e;
                }
                proof {
                    reveal_strlit(" ");
                    assert(" "@ =~= seq![' ']);
                    assert(acc@.content =~= segment_rec(toks_view(tokens@).take(i + 1)).1.content);
                }
            } else {
                acc.content.append(t.content.as_str());
                items.push(acc);
                acc = SubtitleItem { start_ms: 0, end_ms: 0, content: String::new() };
                started = false;
                proof {
                    assert(items@.map_values(|it: SubtitleItem| it@) =~= segment_rec(
                        toks_view(tokens@).take(i + 1),
                    ).0);
                }
            }
            i += 1;
        }
        proof {
            assert(toks_view(tokens@).take(n as int) =~= toks_view(tokens@));
        }
        if started {
            items.push(acc);
            proof {
                assert(items@.map_values(|it: SubtitleItem| it@) =~= spec_segment(
                    toks_view(tokens@),
                ));
            }
        }
        Subtitle { items }
    }

    /// Replaces each cue's text with the translation supplied for it,
    /// leaving every start and end time untouched. The caller passes one
    /// translated text per cue, so a failed translation of any single cue
    /// leaves the whole subtitle unchanged (no partial application).
    pub fn apply_translations(&mut self, texts: &Vec<String>)
        requires
            texts@.len() == old(self)@.len(),
        ensures
            final(self)@.len() == old(self)@.len(),
            forall|i: int|
                0 <= i < final(self)@.len() ==> final(self)@[i] == (CueView {
                    start_ms: old(self)@[i].start_ms,
                    end_ms: old(self)@[i].end_ms,
                    content: texts@[i]@,
                }),
    {
        let n = self.items.len();
        let mut out: Vec<SubtitleItem> = Vec::new();
        let mut i: usize = 0;
        while i < n
            invariant
                n == self.items@.len(),
                n == texts@.len(),
                self.items@ == old(self).items@,
                0 <= i <= n,
                out@.len() == i,
                forall|j: int|
                    0 <= j < i ==> out@[j]@ == (CueView {
                        start_ms: old(self)@[j].start_ms,
                        end_ms: old(self)@[j].end_ms,
                        content: texts@[j]@,
                    }),
            decreases n - i,
        {
            let it = &self.items[i];
            out.push(
                SubtitleItem { start_ms: it.start_ms, end_ms: it.end_ms, content: texts[i].clone() },
            );
            i += 1;
        }
        self.items = out;
    }

    /// The WebVTT rendering of this subtitle.
    #[verifier::rlimit(60)]
    pub fn vtt(&self) -> (r: String)
        ensures
            r@ == spec_vtt(self@),
    {
        proof {
            reveal_strlit("WEBVTT\n\n");
            assert("WEBVTT\n\n"@ =~= webvtt_header());
        }
        let mut s = String::from_str("WEBVTT\n\n");
        let n = self.items.len();
        let mut i: usize = 0;
        while i < n
            invariant
                n == self.items@.len(),
                0 <= i <= n,
                s@ == webvtt_header() + vtt_blocks(self@.take(i as int)),
            decreases n - i,
        {
            let it = &self.items[i];
            let mut block = time_format(it.start_ms, ".");
            let end = time_format(it.end_ms, ".");
            block.append(" --> ");
            block.append(end.as_str());
            block.append("\n");
            block.append(it.content.as_str());
            block.append("\n\n");
            proof {
                reveal_strlit(" --> ");
                reveal_strlit("\n");
                reveal_strlit("\n\n");
                reveal_strlit(".");
                assert(" --> "@ =~= arrow());
                assert("\n"@ =~= seq!['\n']);
                assert("\n\n"@ =~= seq!['\n', '\n']);
                assert(block@ =~= vtt_block(self@[i as int]));
            }
            s.append(block.as_str());
            proof {
                lemma_vtt_blocks_step(self@, i as int);
            }
            i += 1;
        }
        proof {
            assert(self@.take(n as int) =~= self@);
        }
        s
    }

    /// The SRT rendering of this subtitle, cues numbered from 1.
    #[verifier::rlimit(60)]
    pub fn srt(&self) -> (r: String)
        ensures
            r@ == spec_srt(self@),
    {
        let mut s = String::new();
        let n = self.items.len();
        let mut i: usize = 0;
        while i < n
            invariant
                n == self.items@.len(),
                0 <= i <= n,
                s@ == srt_blocks(self@.take(i as int)),
            decreases n - i,
        {
            let it = &self.items[i];
            let mut block = dec_string((i as u64) + 1);
            let start = time_format(it.start_ms, ",");
            let end = time_format(it.end_ms, ",");
            block.append("\n");
            block.append(start.as_str());
            block.append(" --> ");
            block.append(end.as_str());
            block.append("\n");
            block.append(it.content.as_str());
            block.append("\n\n");
            proof {
                reveal_strlit(" --> ");
                reveal_strlit("\n");
                reveal_strlit("\n\n");
                reveal_strlit(",");
                assert(" --> "@ =~= arrow());
                assert("\n"@ =~= seq!['\n']);
                assert("\n\n"@ =~= seq!['\n', '\n']);
                assert(","@ =~= seq![',']);
                assert(block@ =~= srt_block(self@[i as int], i + 1));
            }
            s.append(block.as_str());
            proof {
                lemma_srt_blocks_step(self@, i as int);
            }
            i += 1;
        }
        proof {
            assert(self@.take(n as int) =~= self@);
        }
        s
    }

    /// The search-index body text of this subtitle: one line per cue,
    /// `<start time with . separator> <cue text>`, each line ending in a
    /// newline. The index parses the time label back out of each line, so
    /// this layout is part of the crate's stable surface.
    pub fn index_body(&self) -> (r: String)
        ensures
            r@ == spec_index_body(self@),
    {
        let mut s = String::new();
        let n = self.items.len();
        let mut i: usize = 0;
        while i < n
            invariant
                n == self.items@.len(),
                0 <= i <= n,
                s@ == body_lines(self@.take(i as int)),
            decreases n - i,
        {
            let it = &self.items[i];
            let mut line = time_format(it.start_ms, ".");
            line.append(" ");
            line.append(it.content.as_str());
            line.append("\n");
            proof {
                reveal_strlit(" ");
                reveal_strlit("\n");
                reveal_strlit(".");
                assert(" "@ =~= seq![' ']);
                assert("\n"@ =~= seq!['\n']);
                assert(line@ =~= body_line(self@[i as int]));
            }
            s.append(line.as_str());
            proof {
                assert(self@.take(i + 1).drop_last() =~= self@.take(i as int));
                assert(self@.take(i + 1).last() == self@[i as int]);
            }
            i += 1;
        }
        proof {
            assert(self@.take(n as int) =~= self@);
        }
        s
    }
}

/// The fixed WebVTT file header.
pub open spec fn webvtt_header() -> Seq<char> {
    seq!['W', 'E', 'B', 'V', 'T', 'T', '\n', '\n']
}

/// The ` --> ` separator between the two time labels of a cue.
pub open spec fn arrow() -> Seq<char> {
    seq![' ', '-', '-', '>', ' ']
}

/// The timing line of a WebVTT cue block, newline included.
pub open spec fn vtt_head(c: CueView) -> Seq<char> {
    spec_time_label(c.start_ms as int, seq!['.']) + arrow() + spec_time_label(
        c.end_ms as int,
        seq!['.'],
    ) + seq!['\n']
}

/// One WebVTT cue block: timing line, cue text, blank line.
pub open spec fn vtt_block(c: CueView) -> Seq<char> {
    vtt_head(c) + c.content + seq!['\n', '\n']
}

/// The index and timing lines of an SRT cue block, numbered `idx`.
pub open spec fn srt_head(c: CueView, idx: int) -> Seq<char> {
    spec_dec(idx) + seq!['\n'] + spec_time_label(c.start_ms as int, seq![',']) + arrow()
        + spec_time_label(c.end_ms as int, seq![',']) + seq!['\n']
}

/// One SRT cue block: index line, timing line, cue text, blank line.
pub open spec fn srt_block(c: CueView, idx: int) -> Seq<char> {
    srt_head(c, idx) + c.content + seq!['\n', '\n']
}

/// One search-index body line for a cue.
pub open spec fn body_line(c: CueView) -> Seq<char> {
    spec_time_label(c.start_ms as int, seq!['.']) + seq![' '] + c.content + seq!['\n']
}

/// The concatenation of the WebVTT blocks of `cues`, in order.
pub open spec fn vtt_blocks(cues: Seq<CueView>) -> Seq<char>
    decreases cues.len(),
{
    if cues.len() == 0 {
        Seq::empty()
    } else {
        vtt_blocks(cues.drop_last()) + vtt_block(cues.last())
    }
}

/// The concatenation of the SRT blocks of `cues`, numbered from 1, in order.
pub open spec fn srt_blocks(cues: Seq<CueView>) -> Seq<char>
    decreases cues.len(),
{
    if cues.len() == 0 {
        Seq::empty()
    } else {
        srt_blocks(cues.drop_last()) + srt_block(cues.last(), cues.len() as int)
    }
}

/// The concatenation of the index body lines of `cues`, in order.
pub open spec fn body_lines(cues: Seq<CueView>) -> Seq<char>
    decreases cues.len(),
{
    if cues.len() == 0 {
        Seq::empty()
    } else {
        body_lines(cues.drop_last()) + body_line(cues.last())
    }
}

/// The complete WebVTT text of a cue sequence.
pub open spec fn spec_vtt(cues: Seq<CueView>) -> Seq<char> {
    webvtt_header() + vtt_blocks(cues)
}

/// The complete SRT text of a cue sequence.
pub open spec fn spec_srt(cues: Seq<CueView>) -> Seq<char> {
    srt_blocks(cues)
}

/// The complete search-index body text of a cue sequence.
pub open spec fn spec_index_body(cues: Seq<CueView>) -> Seq<char> {
    body_lines(cues)
}

/// The WebVTT blocks of `cues`, one per cue, in cue order.
pub open spec fn vtt_block_seq(cues: Seq<CueView>) -> Seq<Seq<char>> {
    Seq::new(cues.len(), |i: int| vtt_block(cues[i]))
}

/// The SRT blocks of `cues`, one per cue, in cue order, numbered from 1.
pub open spec fn srt_block_seq(cues: Seq<CueView>) -> Seq<Seq<char>> {
    Seq::new(cues.len(), |i: int| srt_block(cues[i], i + 1))
}

/// Appending the next cue extends the WebVTT block concatenation by exactly
/// that cue's block.
pub proof fn lemma_vtt_blocks_step(cues: Seq<CueView>, i: int)
    requires
        0 <= i < cues.len(),
    ensures
        vtt_blocks(cues.take(i + 1)) == vtt_blocks(cues.take(i)) + vtt_block(cues[i]),
{
    assert(cues.take(i + 1).drop_last() =~= cues.take(i));
    assert(cues.take(i + 1).last() == cues[i]);
}

/// Appending the next cue extends the SRT block concatenation by exactly
/// that cue's block, numbered by its 1-based position.
pub proof fn lemma_srt_blocks_step(cues: Seq<CueView>, i: int)
    requires
        0 <= i < cues.len(),
    ensures
        srt_blocks(cues.take(i + 1)) == srt_blocks(cues.take(i)) + srt_block(cues[i], i + 1),
{
    assert(cues.take(i + 1).drop_last() =~= cues.take(i));
    assert(cues.take(i + 1).last() == cues[i]);
    assert(cues.take(i + 1).len() == i + 1);
}

/// The WebVTT block concatenation equals the flattening of the per-cue
/// block sequence.
pub proof fn lemma_vtt_blocks_flatten(cues: Seq<CueView>)
    ensures
        vtt_blocks(cues) == vtt_block_seq(cues).flatten_alt(),
    decreases cues.len(),
{
    if cues.len() == 0 {
        assert(vtt_block_seq(cues) =~= Seq::<Seq<char>>::empty());
    } else {
        let dl = cues.drop_last();
        lemma_vtt_blocks_flatten(dl);
        assert(vtt_block_seq(cues).drop_last() =~= vtt_block_seq(dl));
        assert(vtt_block_seq(cues).last() == vtt_block(cues.last()));
    }
}

/// The SRT block concatenation equals the flattening of the per-cue block
/// sequence.
pub proof fn lemma_srt_blocks_flatten(cues: Seq<CueView>)
    ensures
        srt_blocks(cues) == srt_block_seq(cues).flatten_alt(),
    decreases cues.len(),
{
    if cues.len() == 0 {
        assert(srt_block_seq(cues) =~= Seq::<Seq<char>>::empty());
    } else {
        let dl = cues.drop_last();
        lemma_srt_blocks_flatten(dl);
        assert(srt_block_seq(cues).drop_last() =~= srt_block_seq(dl));
        assert(srt_block_seq(cues).last() == srt_block(cues.last(), cues.len() as int));
    }
}

/// Timing sanity of a token stream: every token carries both times, no
/// token starts after its own end, and both times are non-decreasing along
/// the stream.
pub open spec fn well_timed(toks: Seq<TokView>) -> bool {
    &&& forall|i: int|
        0 <= i < toks.len() ==> (#[trigger] toks[i]).start_ms is Some && toks[i].end_ms is Some
            && opt_ms(toks[i].start_ms) <= opt_ms(toks[i].end_ms)
    &&& forall|i: int, j: int|
        #![trigger toks[i], toks[j]]
        0 <= i <= j < toks.len() ==> opt_ms(toks[i].start_ms) <= opt_ms(toks[j].start_ms) && opt_ms(
            toks[i].end_ms,
        ) <= opt_ms(toks[j].end_ms)
}

/// Orderliness of a cue sequence: no cue starts after its own end, and cue
/// start times are non-decreasing in output order.
pub open spec fn cues_ordered(cues: Seq<CueView>) -> bool {
    &&& forall|k: int| 0 <= k < cues.len() ==> (#[trigger] cues[k]).start_ms <= cues[k].end_ms
    &&& forall|k: int, l: int|
        #![trigger cues[k], cues[l]]
        0 <= k <= l < cues.len() ==> cues[k].start_ms <= cues[l].start_ms
}

/// The fold's intermediate state stays orderly over well-timed tokens: the
/// emitted cues are ordered, every cue's and the accumulator's start time is
/// some consumed token's start time, an in-progress cue starts no later than
/// it ends, and it starts no earlier than the last emitted cue.
proof fn lemma_segment_rec_ordered(toks: Seq<TokView>)
    requires
        well_timed(toks),
    ensures
        ({
            let (cs, a, st) = segment_rec(toks);
            &&& cues_ordered(cs)
            &&& (st ==> a.start_ms <= a.end_ms)
            &&& (st ==> exists|i: int|
                0 <= i < toks.len() && a.start_ms == opt_ms((#[trigger] toks[i]).start_ms))
            &&& (forall|k: int|
                0 <= k < cs.len() ==> exists|i: int|
                    0 <= i < toks.len() && (#[trigger] cs[k]).start_ms == opt_ms(
                        (#[trigger] toks[i]).start_ms,
                    ))
            &&& (st && cs.len() > 0 ==> cs.last().start_ms <= a.start_ms)
        }),
    decreases toks.len(),
{
    if toks.len() == 0 {
    } else {
        let dl = toks.drop_last();
        let t = toks.last();
        assert(well_timed(dl)) by {
            assert(forall|i: int| 0 <= i < dl.len() ==> dl[i] == toks[i]);
        }
        lemma_segment_rec_ordered(dl);
        let (cs, a, st) = segment_rec(dl);
        assert(forall|i: int| 0 <= i < dl.len() ==> dl[i] == toks[i]);
        let m = toks.len() - 1;
        if !st {
            assert(segment_rec(toks).1.start_ms == opt_ms(toks[m].start_ms));
            if cs.len() > 0 {
                let k0 = cs.len() - 1;
                let i0 = choose|i: int|
                    0 <= i < dl.len() && cs[k0].start_ms == opt_ms((#[trigger] dl[i]).start_ms);
                assert(opt_ms(toks[i0].start_ms) <= opt_ms(toks[m].start_ms));
            }
        } else if !is_terminator_text(t.content) {
            let i0 = choose|i: int|
                0 <= i < dl.len() && a.start_ms == opt_ms((#[trigger] dl[i]).start_ms);
            assert(opt_ms(toks[i0].start_ms) <= opt_ms(toks[m].start_ms));
            assert(opt_ms(toks[m].start_ms) <= opt_ms(toks[m].end_ms));
        } else {
            let cs2 = segment_rec(toks).0;
            assert(cs2 == cs.push(
                CueView { start_ms: a.start_ms, end_ms: a.end_ms, content: a.content + t.content },
            ));
            assert forall|k: int, l: int|
                #![trigger cs2[k], cs2[l]]
                0 <= k <= l < cs2.len() implies cs2[k].start_ms <= cs2[l].start_ms by {
                if l < cs2.len() - 1 {
                } else if k < cs2.len() - 1 {
                    assert(cs[k].start_ms <= cs.last().start_ms);
                }
            }
            assert forall|k: int| 0 <= k < cs2.len() implies exists|i: int|
                0 <= i < toks.len() && (#[trigger] cs2[k]).start_ms == opt_ms(
                    (#[trigger] toks[i]).start_ms,
                ) by {
                if k < cs2.len() - 1 {
                    let i0 = choose|i: int|
                        0 <= i < dl.len() && cs[k].start_ms == opt_ms((#[trigger] dl[i]).start_ms);
                    assert(0 <= i0 < toks.len() && cs2[k].start_ms == opt_ms(toks[i0].start_ms));
                } else {
                    let i0 = choose|i: int|
                        0 <= i < dl.len() && a.start_ms == opt_ms((#[trigger] dl[i]).start_ms);
                    assert(0 <= i0 < toks.len() && cs2[k].start_ms == opt_ms(toks[i0].start_ms));
                }
            }
        }
    }
}

/// Over a well-timed token stream — both times on every token, no token
/// starting after its own end, both times non-decreasing along the stream —
/// segmentation yields well-formed cues: no cue starts after its own end,
/// and the cues come out ordered by non-decreasing start time.
pub proof fn lemma_segment_cues_ordered(toks: Seq<TokView>)
    requires
        well_timed(toks),
    ensures
        cues_ordered(spec_segment(toks)),
{
    lemma_segment_rec_ordered(toks);
    let (cs, a, st) = segment_rec(toks);
    if st {
        let cs2 = spec_segment(toks);
        assert(cs2 == cs.push(a));
        assert forall|k: int, l: int|
            #![trigger cs2[k], cs2[l]]
            0 <= k <= l < cs2.len() implies cs2[k].start_ms <= cs2[l].start_ms by {
            if l < cs2.len() - 1 {
            } else if k < cs2.len() - 1 {
                assert(cs[k].start_ms <= cs.last().start_ms);
            }
        }
    }
}

/// The fold's intermediate state keeps texts non-empty over tokens with
/// non-empty texts: every emitted cue's text is non-empty, and so is an
/// in-progress cue's.
proof fn lemma_segment_rec_text_nonempty(toks: Seq<TokView>)
    requires
        forall|i: int| 0 <= i < toks.len() ==> (#[trigger] toks[i]).content.len() > 0,
    ensures
        ({
            let (cs, a, st) = segment_rec(toks);
            &&& (forall|k: int| 0 <= k < cs.len() ==> (#[trigger] cs[k]).content.len() > 0)
            &&& (st ==> a.content.len() > 0)
        }),
    decreases toks.len(),
{
    if toks.len() > 0 {
        let dl = toks.drop_last();
        assert(forall|i: int| 0 <= i < dl.len() ==> dl[i] == toks[i]);
        lemma_segment_rec_text_nonempty(dl);
        assert(toks.last().content.len() > 0);
    }
}

/// Tokens with non-empty texts yield cues with non-empty texts: the data
/// model's cue-text invariant, for every transcript whose tokens all carry
/// at least one character.
pub proof fn lemma_segment_text_nonempty(toks: Seq<TokView>)
    requires
        forall|i: int| 0 <= i < toks.len() ==> (#[trigger] toks[i]).content.len() > 0,
    ensures
        forall|k: int|
            0 <= k < spec_segment(toks).len() ==> (#[trigger] spec_segment(
                toks,
            )[k]).content.len() > 0,
{
    lemma_segment_rec_text_nonempty(toks);
}

/// Segmentation is deterministic: two runs over the same token sequence
/// yield the same cue sequence.
pub proof fn lemma_segment_deterministic(toks: Seq<TokView>, r1: Seq<CueView>, r2: Seq<CueView>)
    requires
        r1 == spec_segment(toks),
        r2 == spec_segment(toks),
    ensures
        r1 == r2,
{
}

/// A token stream that ends while a cue is in progress still yields a
/// final cue: the result is exactly the emitted cues followed by the
/// accumulated, terminator-less one.
pub proof fn lemma_trailing_incomplete_cue(toks: Seq<TokView>)
    ensures
        segment_rec(toks).2 ==> spec_segment(toks) == segment_rec(toks).0.push(
            segment_rec(toks).1,
        ),
        segment_rec(toks).2 ==> spec_segment(toks).len() == segment_rec(toks).0.len() + 1,
{
}

/// Renderer equivalence: the SRT and the WebVTT rendering of one cue
/// sequence are each the ordered concatenation of one block per cue, the
/// blocks of both formats carry exactly the cue texts in cue order, and the
/// two formats differ only in the fixed WebVTT header, the SRT numeric index
/// line, and the fractional separator of the time labels.
pub proof fn lemma_renderer_equivalence(cues: Seq<CueView>)
    ensures
        vtt_block_seq(cues).len() == cues.len(),
        srt_block_seq(cues).len() == cues.len(),
        spec_vtt(cues) == webvtt_header() + vtt_block_seq(cues).flatten_alt(),
        spec_srt(cues) == srt_block_seq(cues).flatten_alt(),
        forall|i: int|
            0 <= i < cues.len() ==> #[trigger] vtt_block_seq(cues)[i] == vtt_head(cues[i])
                + cues[i].content + seq!['\n', '\n'],
        forall|i: int|
            0 <= i < cues.len() ==> #[trigger] srt_block_seq(cues)[i] == srt_head(cues[i], i + 1)
                + cues[i].content + seq!['\n', '\n'],
{
    lemma_vtt_blocks_flatten(cues);
    lemma_srt_blocks_flatten(cues);
}

/// The queue message that requests subtitle processing for one video.
pub struct SubtitleQueueMessage {
    pub video_id: String,
    pub content_language: String,
    pub translate_language: Option<String>,
}

impl SubtitleQueueMessage {
    /// Builds the message from the video identifier, its spoken language,
    /// and the optional language to translate the subtitle into.
    pub fn new(video_id: &str, content_language: &str, translate_language: Option<&str>) -> (r:
        SubtitleQueueMessage)
        ensures
            r.video_id@ == video_id@,
            r.content_language@ == content_language@,
            match translate_language {
                Some(t) => r.translate_language matches Some(l) && l@ == t@,
                None => r.translate_language is None,
            },
    {
        SubtitleQueueMessage {
            video_id: video_id.to_owned(),
            content_language: content_language.to_owned(),
            translate_language: match translate_language {
                Some(t) => Some(t.to_owned()),
                None => None,
            },
        }
    }
}

} // verus!
