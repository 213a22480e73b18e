//! Annotated text: question text with pronunciation guides, and answer text
//! with correct and prompt ranges.
use vstd::prelude::*;

use crate::error::{agrees, Error, ErrorKind, PResult};
use crate::wire::{
    enc_seq, enc_string, enc_u16, enc_u8, fits_prefix, holds_at, lemma_holds_split, lemma_seq_err_stays,
    lemma_seq_round_trip, lemma_string_round_trip, lemma_u16_round_trip, lemma_u8_round_trip,
    parse_seq, parse_string, parse_u16, parse_u8, read_string, read_u16, read_u8, reads_back,
    string_fits, write_string, write_u16, write_u8,
};

verus! {

/// A half-open range `[start, end)` of offsets into a text. Whether it lies
/// within the text is left to whoever builds it.
#[derive(Clone, Copy, PartialEq, Eq, Structural, Debug)]
pub struct Span<T> {
    pub start: T,
    pub end: T,
}

/// A pronunciation guide
#[derive(Clone, PartialEq, Debug)]
pub struct PronunciationGuide {
    /// The guide itself
    pub guide: String,
    /// The char index range of the text being guided
    pub range: Span<u16>,
}

/// Question text. Really just a string with pronunciation guides.
#[derive(Clone, PartialEq, Debug)]
pub struct QuestionText {
    pub raw: String,
    pub guides: Vec<PronunciationGuide>,
}

/// An answerline, with the ranges of the raw text that are to be accepted
/// and those that are to be prompted on.
#[derive(Clone, PartialEq, Debug)]
pub struct AnswerText {
    pub raw: String,
    pub correct: Vec<Span<u8>>,
    pub prompt: Vec<Span<u8>>,
}

pub ghost struct GuideView {
    pub guide: Seq<char>,
    pub start: u16,
    pub end: u16,
}

pub ghost struct QuestionTextView {
    pub raw: Seq<char>,
    pub guides: Seq<GuideView>,
}

pub ghost struct AnswerTextView {
    pub raw: Seq<char>,
    pub correct: Seq<(u8, u8)>,
    pub prompt: Seq<(u8, u8)>,
}

impl View for PronunciationGuide {
    type V = GuideView;

    open spec fn view(&self) -> GuideView {
        GuideView { guide: self.guide@, start: self.range.start, end: self.range.end }
    }
}

pub open spec fn guides_view(v: Seq<PronunciationGuide>) -> Seq<GuideView> {
    v.map_values(|g: PronunciationGuide| g@)
}

pub open spec fn ranges_view(v: Seq<Span<u8>>) -> Seq<(u8, u8)> {
    v.map_values(|r: Span<u8>| (r.start, r.end))
}

impl View for QuestionText {
    type V = QuestionTextView;

    open spec fn view(&self) -> QuestionTextView {
        QuestionTextView { raw: self.raw@, guides: guides_view(self.guides@) }
    }
}

impl View for AnswerText {
    type V = AnswerTextView;

    open spec fn view(&self) -> AnswerTextView {
        AnswerTextView {
            raw: self.raw@,
            correct: ranges_view(self.correct@),
            prompt: ranges_view(self.prompt@),
        }
    }
}

// ---------------------------------------------------------------------------
// Layout

/// A guide: its text, then the start and end of the guided range.
pub open spec fn parse_guide(s: Seq<u8>, p: int) -> PResult<GuideView> {
    match parse_string(s, p) {
        Err(k) => Err(k),
        Ok((guide, q)) => match parse_u16(s, q) {
            Err(k) => Err(k),
            Ok((start, r)) => match parse_u16(s, r) {
                Err(k) => Err(k),
                Ok((end, t)) => Ok((GuideView { guide, start, end }, t)),
            },
        },
    }
}

pub open spec fn enc_guide(g: GuideView) -> Seq<u8> {
    enc_string(g.guide) + enc_u16(g.start) + enc_u16(g.end)
}

pub open spec fn guide_parser() -> spec_fn(Seq<u8>, int) -> PResult<GuideView> {
    |s: Seq<u8>, p: int| parse_guide(s, p)
}

pub open spec fn guide_encoder() -> spec_fn(GuideView) -> Seq<u8> {
    |g: GuideView| enc_guide(g)
}

/// A range of answer text: its start byte, then its end byte.
pub open spec fn parse_range(s: Seq<u8>, p: int) -> PResult<(u8, u8)> {
    match parse_u8(s, p) {
        Err(k) => Err(k),
        Ok((a, q)) => match parse_u8(s, q) {
            Err(k) => Err(k),
            Ok((b, r)) => Ok(((a, b), r)),
        },
    }
}

pub open spec fn enc_range(x: (u8, u8)) -> Seq<u8> {
    enc_u8(x.0) + enc_u8(x.1)
}

pub open spec fn range_parser() -> spec_fn(Seq<u8>, int) -> PResult<(u8, u8)> {
    |s: Seq<u8>, p: int| parse_range(s, p)
}

pub open spec fn range_encoder() -> spec_fn((u8, u8)) -> Seq<u8> {
    |x: (u8, u8)| enc_range(x)
}

/// Question text: the raw string, an 8-bit guide count, then the guides.
pub open spec fn parse_question_text(s: Seq<u8>, p: int) -> PResult<QuestionTextView> {
    match parse_string(s, p) {
        Err(k) => Err(k),
        Ok((raw, q)) => match parse_u8(s, q) {
            Err(k) => Err(k),
            Ok((n, r)) => match parse_seq(s, r, n as nat, guide_parser()) {
                Err(k) => Err(k),
                Ok((guides, t)) => Ok((QuestionTextView { raw, guides }, t)),
            },
        },
    }
}

pub open spec fn enc_question_text(x: QuestionTextView) -> Seq<u8> {
    enc_string(x.raw) + enc_u8(x.guides.len() as u8) + enc_seq(x.guides, guide_encoder())
}

/// Question text can be written: every string fits its prefix and there are
/// at most 255 guides.
pub open spec fn question_text_fits(x: QuestionTextView) -> bool {
    &&& string_fits(x.raw)
    &&& x.guides.len() <= 255
    &&& forall|i: int| 0 <= i < x.guides.len() ==> string_fits(#[trigger] x.guides[i].guide)
}

/// Answer text: the raw string, then the correct ranges and the prompt
/// ranges, each list after its 8-bit count.
pub open spec fn parse_answer_text(s: Seq<u8>, p: int) -> PResult<AnswerTextView> {
    match parse_string(s, p) {
        Err(k) => Err(k),
        Ok((raw, q)) => match parse_u8(s, q) {
            Err(k) => Err(k),
            Ok((n, r)) => match parse_seq(s, r, n as nat, range_parser()) {
                Err(k) => Err(k),
                Ok((correct, t)) => match parse_u8(s, t) {
                    Err(k) => Err(k),
                    Ok((m, u)) => match parse_seq(s, u, m as nat, range_parser()) {
                        Err(k) => Err(k),
                        Ok((prompt, w)) => Ok((AnswerTextView { raw, correct, prompt }, w)),
                    },
                },
            },
        },
    }
}

pub open spec fn enc_answer_text(x: AnswerTextView) -> Seq<u8> {
    enc_string(x.raw) + enc_u8(x.correct.len() as u8) + enc_seq(x.correct, range_encoder())
        + enc_u8(x.prompt.len() as u8) + enc_seq(x.prompt, range_encoder())
}

pub open spec fn answer_text_fits(x: AnswerTextView) -> bool {
    &&& string_fits(x.raw)
    &&& x.correct.len() <= 255
    &&& x.prompt.len() <= 255
}

// ---------------------------------------------------------------------------
// Readers and writers

impl PronunciationGuide {
    /// Reads a guide at `pos`.
    pub fn read_from(buf: &[u8], pos: usize) -> (r: Result<(PronunciationGuide, usize), Error>)
        ensures
            agrees(r, parse_guide(buf@, pos as int)),
    {
        let (guide, q) = match read_string(buf, pos) {
            Ok(x) => x,
            Err(e) => return Err(e),
        };
        let (start, r) = match read_u16(buf, q) {
            Ok(x) => x,
            Err(e) => return Err(e),
        };
        let (end, t) = match read_u16(buf, r) {
            Ok(x) => x,
            Err(e) => return Err(e),
        };
        Ok((PronunciationGuide { guide, range: Span { start, end } }, t))
    }

    /// Appends the guide's record.
    pub fn write_to(&self, out: &mut Vec<u8>)
        requires
            string_fits(self@.guide),
        ensures
            final(out)@ == old(out)@ + enc_guide(self@),
    {
        write_string(out, self.guide.as_str());
        write_u16(out, self.range.start);
        write_u16(out, self.range.end);
        assert(final(out)@ =~= old(out)@ + enc_guide(self@));
    }
}

/// Reads `n` answer ranges at `pos`.
fn read_ranges(buf: &[u8], pos: usize, n: u8) -> (r: Result<(Vec<Span<u8>>, usize), Error>)
    ensures
        match parse_seq(buf@, pos as int, n as nat, range_parser()) {
            Ok((v, q)) => r is Ok && ranges_view(r->Ok_0.0@) == v && r->Ok_0.1 as int == q,
            Err(k) => r is Err && r->Err_0.spec_kind() == k,
        },
{
    let mut v: Vec<Span<u8>> = Vec::new();
    let mut q = pos;
    let mut i: u8 = 0;
    assert(ranges_view(v@) =~= Seq::<(u8, u8)>::empty());
    while i < n
        invariant
            i <= n,
            parse_seq(buf@, pos as int, i as nat, range_parser()) == Ok::<(Seq<(u8, u8)>, int), ErrorKind>(
                (ranges_view(v@), q as int),
            ),
        decreases n - i,
    {
        let ghost old_v = v@;
        let (a, q1) = match read_u8(buf, q) {
            Ok(x) => x,
            Err(e) => {
                proof {
                    lemma_seq_err_stays(buf@, pos as int, (i + 1) as nat, n as nat, range_parser());
                }
                return Err(e);
            },
        };
        let (b, q2) = match read_u8(buf, q1) {
            Ok(x) => x,
            Err(e) => {
                proof {
                    lemma_seq_err_stays(buf@, pos as int, (i + 1) as nat, n as nat, range_parser());
                }
                return Err(e);
            },
        };
        v.push(Span { start: a, end: b });
        q = q2;
        i = i + 1;
        assert(ranges_view(v@) =~= ranges_view(old_v).push((a, b)));
    }
    Ok((v, q))
}

/// Appends the records of `v`.
fn write_ranges(out: &mut Vec<u8>, v: &Vec<Span<u8>>)
    ensures
        final(out)@ == old(out)@ + enc_seq(ranges_view(v@), range_encoder()),
{
    let ghost start = out@;
    let ghost view = ranges_view(v@);
    let mut i: usize = 0;
    while i < v.len()
        invariant
            i <= v@.len(),
            view == ranges_view(v@),
            out@ == start + enc_seq(view.take(i as int), range_encoder()),
        decreases v@.len() - i,
    {
        write_u8(out, v[i].start);
        write_u8(out, v[i].end);
        i = i + 1;
        assert(view.take(i as int).drop_last() =~= view.take(i - 1));
        assert(out@ =~= start + enc_seq(view.take(i as int), range_encoder()));
    }
    assert(view.take(v@.len() as int) =~= view);
}

impl QuestionText {
    /// Whether the question text can be written.
    pub fn fits(&self) -> (r: bool)
        ensures
            r == question_text_fits(self@),
    {
        if !fits_prefix(self.raw.as_str()) || self.guides.len() > 255 {
            return false;
        }
        let ghost view = self@.guides;
        let mut i: usize = 0;
        while i < self.guides.len()
            invariant
                i <= self.guides@.len(),
                view == guides_view(self.guides@),
                forall|j: int| 0 <= j < i ==> string_fits(#[trigger] view[j].guide),
            decreases self.guides@.len() - i,
        {
            assert(view[i as int] == self.guides@[i as int]@);
            if !fits_prefix(self.guides[i].guide.as_str()) {
                assert(!string_fits(view[i as int].guide));
                return false;
            }
            i = i + 1;
        }
        true
    }

    /// Reads question text at `pos`.
    pub fn read_from(buf: &[u8], pos: usize) -> (r: Result<(QuestionText, usize), Error>)
        ensures
            agrees(r, parse_question_text(buf@, pos as int)),
    {
        let (raw, q) = match read_string(buf, pos) {
            Ok(x) => x,
            Err(e) => return Err(e),
        };
        let (n, r) = match read_u8(buf, q) {
            Ok(x) => x,
            Err(e) => return Err(e),
        };
        let mut guides: Vec<PronunciationGuide> = Vec::new();
        let mut t = r;
        let mut i: u8 = 0;
        assert(guides_view(guides@) =~= Seq::<GuideView>::empty());
        while i < n
            invariant
                i <= n,
                parse_string(buf@, pos as int) == Ok::<(Seq<char>, int), ErrorKind>((raw@, q as int)),
                parse_u8(buf@, q as int) == Ok::<(u8, int), ErrorKind>((n, r as int)),
                parse_seq(buf@, r as int, i as nat, guide_parser()) == Ok::<(Seq<GuideView>, int), ErrorKind>(
                    (guides_view(guides@), t as int),
                ),
            decreases n - i,
        {
            let ghost old_g = guides@;
            let (g, t2) = match PronunciationGuide::read_from(buf, t) {
                Ok(x) => x,
                Err(e) => {
                    proof {
                        assert(parse_seq(buf@, r as int, (i + 1) as nat, guide_parser())
                            == Err::<(Seq<GuideView>, int), ErrorKind>(e.spec_kind()));
                        lemma_seq_err_stays(buf@, r as int, (i + 1) as nat, n as nat, guide_parser());
                    }
                    return Err(e);
                },
            };
            guides.push(g);
            t = t2;
            i = i + 1;
            assert(guides_view(guides@) =~= guides_view(old_g).push(g@));
        }
        Ok((QuestionText { raw, guides }, t))
    }

    /// Appends the question text's record.
    pub fn write_to(&self, out: &mut Vec<u8>)
        requires
            question_text_fits(self@),
        ensures
            final(out)@ == old(out)@ + enc_question_text(self@),
    {
        let ghost view = self@.guides;
        write_string(out, self.raw.as_str());
        write_u8(out, self.guides.len() as u8);
        let ghost start = out@;
        let mut i: usize = 0;
        while i < self.guides.len()
            invariant
                i <= self.guides@.len(),
                view == guides_view(self.guides@),
                question_text_fits(self@),
                out@ == start + enc_seq(view.take(i as int), guide_encoder()),
            decreases self.guides@.len() - i,
        {
            assert(view[i as int] == self.guides@[i as int]@);
            self.guides[i].write_to(out);
            i = i + 1;
            assert(view.take(i as int).drop_last() =~= view.take(i - 1));
            assert(out@ =~= start + enc_seq(view.take(i as int), guide_encoder()));
        }
        assert(view.take(self.guides@.len() as int) =~= view);
        assert(final(out)@ =~= old(out)@ + enc_question_text(self@));
    }
}

impl AnswerText {
    /// Whether the answer text can be written.
    pub fn fits(&self) -> (r: bool)
        ensures
            r == answer_text_fits(self@),
    {
        fits_prefix(self.raw.as_str()) && self.correct.len() <= 255 && self.prompt.len() <= 255
    }

    /// Reads answer text at `pos`.
    pub fn read_from(buf: &[u8], pos: usize) -> (r: Result<(AnswerText, usize), Error>)
        ensures
            agrees(r, parse_answer_text(buf@, pos as int)),
    {
        let (raw, q) = match read_string(buf, pos) {
            Ok(x) => x,
            Err(e) => return Err(e),
        };
        let (n, r) = match read_u8(buf, q) {
            Ok(x) => x,
            Err(e) => return Err(e),
        };
        let (correct, t) = match read_ranges(buf, r, n) {
            Ok(x) => x,
            Err(e) => return Err(e),
        };
        let (m, u) = match read_u8(buf, t) {
            Ok(x) => x,
            Err(e) => return Err(e),
        };
        let (prompt, w) = match read_ranges(buf, u, m) {
            Ok(x) => x,
            Err(e) => return Err(e),
        };
        Ok((AnswerText { raw, correct, prompt }, w))
    }

    /// Appends the answer text's record.
    pub fn write_to(&self, out: &mut Vec<u8>)
        requires
            answer_text_fits(self@),
        ensures
            final(out)@ == old(out)@ + enc_answer_text(self@),
    {
        write_string(out, self.raw.as_str());
        write_u8(out, self.correct.len() as u8);
        write_ranges(out, &self.correct);
        write_u8(out, self.prompt.len() as u8);
        write_ranges(out, &self.prompt);
        assert(final(out)@ =~= old(out)@ + enc_answer_text(self@));
    }
}

// ---------------------------------------------------------------------------
// Round trips

pub proof fn lemma_guide_round_trip(g: GuideView)
    requires
        string_fits(g.guide),
    ensures
        reads_back(guide_parser(), guide_encoder(), g),
{
    assert forall|s: Seq<u8>, p: int| holds_at(s, p, enc_guide(g)) implies parse_guide(s, p)
        == Ok::<(GuideView, int), ErrorKind>((g, p + enc_guide(g).len())) by {
        let a = enc_string(g.guide);
        lemma_holds_split(s, p, a + enc_u16(g.start), enc_u16(g.end));
        lemma_holds_split(s, p, a, enc_u16(g.start));
        lemma_string_round_trip(s, p, g.guide);
        lemma_u16_round_trip(s, p + a.len(), g.start);
        lemma_u16_round_trip(s, p + a.len() + 2, g.end);
    }
}

pub proof fn lemma_range_round_trip(x: (u8, u8))
    ensures
        reads_back(range_parser(), range_encoder(), x),
{
    assert forall|s: Seq<u8>, p: int| holds_at(s, p, enc_range(x)) implies parse_range(s, p)
        == Ok::<((u8, u8), int), ErrorKind>((x, p + enc_range(x).len())) by {
        lemma_holds_split(s, p, enc_u8(x.0), enc_u8(x.1));
        lemma_u8_round_trip(s, p, x.0);
        lemma_u8_round_trip(s, p + 1, x.1);
    }
}

pub proof fn lemma_question_text_round_trip(s: Seq<u8>, p: int, x: QuestionTextView)
    requires
        question_text_fits(x),
        holds_at(s, p, enc_question_text(x)),
    ensures
        parse_question_text(s, p) == Ok::<(QuestionTextView, int), ErrorKind>(
            (x, p + enc_question_text(x).len()),
        ),
{
    let a = enc_string(x.raw);
    let b = enc_u8(x.guides.len() as u8);
    let c = enc_seq(x.guides, guide_encoder());
    lemma_holds_split(s, p, a + b, c);
    lemma_holds_split(s, p, a, b);
    lemma_string_round_trip(s, p, x.raw);
    lemma_u8_round_trip(s, p + a.len(), x.guides.len() as u8);
    assert forall|i: int| 0 <= i < x.guides.len() implies reads_back(
        guide_parser(),
        guide_encoder(),
        #[trigger] x.guides[i],
    ) by {
        lemma_guide_round_trip(x.guides[i]);
    }
    lemma_seq_round_trip(s, p + a.len() + 1, x.guides, guide_parser(), guide_encoder());
}

pub proof fn lemma_answer_text_round_trip(s: Seq<u8>, p: int, x: AnswerTextView)
    requires
        answer_text_fits(x),
        holds_at(s, p, enc_answer_text(x)),
    ensures
        parse_answer_text(s, p) == Ok::<(AnswerTextView, int), ErrorKind>(
            (x, p + enc_answer_text(x).len()),
        ),
{
    let a = enc_string(x.raw);
    let b = enc_u8(x.correct.len() as u8);
    let c = enc_seq(x.correct, range_encoder());
    let d = enc_u8(x.prompt.len() as u8);
    let e = enc_seq(x.prompt, range_encoder());
    lemma_holds_split(s, p, a + b + c + d, e);
    lemma_holds_split(s, p, a + b + c, d);
    lemma_holds_split(s, p, a + b, c);
    lemma_holds_split(s, p, a, b);
    lemma_string_round_trip(s, p, x.raw);
    lemma_u8_round_trip(s, p + a.len(), x.correct.len() as u8);
    assert forall|i: int| 0 <= i < x.correct.len() implies reads_back(
        range_parser(),
        range_encoder(),
        #[trigger] x.correct[i],
    ) by {
        lemma_range_round_trip(x.correct[i]);
    }
    assert forall|i: int| 0 <= i < x.prompt.len() implies reads_back(
        range_parser(),
        range_encoder(),
        #[trigger] x.prompt[i],
    ) by {
        lemma_range_round_trip(x.prompt[i]);
    }
    lemma_seq_round_trip(s, p + a.len() + 1, x.correct, range_parser(), range_encoder());
    lemma_u8_round_trip(s, p + a.len() + 1 + c.len(), x.prompt.len() as u8);
    lemma_seq_round_trip(s, p + a.len() + 1 + c.len() + 1, x.prompt, range_parser(), range_encoder());
}

} // verus!
