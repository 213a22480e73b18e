//! Tossups and bonuses.
use vstd::prelude::*;

use crate::categories::{enc_category, lemma_category_round_trip, parse_category, Category};
use crate::error::{agrees, Error, ErrorKind, PResult};
use crate::text::{
    answer_text_fits, enc_answer_text, enc_question_text, lemma_answer_text_round_trip,
    lemma_question_text_round_trip, parse_answer_text, parse_question_text, question_text_fits,
    AnswerText, AnswerTextView, QuestionText, QuestionTextView,
};
use crate::wire::{
    enc_seq, enc_u16, enc_u8, holds_at, lemma_holds_split, lemma_seq_err_stays, lemma_seq_round_trip,
    lemma_u16_round_trip, lemma_u8_round_trip, parse_seq, parse_u16, parse_u8, read_u16, read_u8,
    reads_back, write_u16, write_u8,
};

verus! {

/// One tossup, containing one question and answer, with an optional powermark.
#[derive(Clone, PartialEq, Debug)]
pub struct Tossup {
    pub powermark: Option<u16>,
    pub second_powermark: Option<u16>,
    pub question: QuestionText,
    pub answer: AnswerText,
    pub category: Category,
}

/// One part of a bonus
#[derive(Clone, PartialEq, Debug)]
pub struct BonusPart {
    pub value: u8,
    pub text: QuestionText,
    pub answer: AnswerText,
}

/// A bonus: a leadin and its parts.
#[derive(Clone, PartialEq, Debug)]
pub struct Bonus {
    pub leadin: QuestionText,
    pub category: Category,
    pub parts: Vec<BonusPart>,
}

pub ghost struct TossupView {
    pub powermark: Option<u16>,
    pub second_powermark: Option<u16>,
    pub question: QuestionTextView,
    pub answer: AnswerTextView,
    pub category: Category,
}

pub ghost struct BonusPartView {
    pub value: u8,
    pub text: QuestionTextView,
    pub answer: AnswerTextView,
}

pub ghost struct BonusView {
    pub leadin: QuestionTextView,
    pub category: Category,
    pub parts: Seq<BonusPartView>,
}

impl View for Tossup {
    type V = TossupView;

    open spec fn view(&self) -> TossupView {
        TossupView {
            powermark: self.powermark,
            second_powermark: self.second_powermark,
            question: self.question@,
            answer: self.answer@,
            category: self.category,
        }
    }
}

impl View for BonusPart {
    type V = BonusPartView;

    open spec fn view(&self) -> BonusPartView {
        BonusPartView { value: self.value, text: self.text@, answer: self.answer@ }
    }
}

pub open spec fn parts_view(v: Seq<BonusPart>) -> Seq<BonusPartView> {
    v.map_values(|x: BonusPart| x@)
}

impl View for Bonus {
    type V = BonusView;

    open spec fn view(&self) -> BonusView {
        BonusView { leadin: self.leadin@, category: self.category, parts: parts_view(self.parts@) }
    }
}

// ---------------------------------------------------------------------------
// Layout

/// A powermark field: zero stands for no mark.
pub open spec fn mark_of(v: u16) -> Option<u16> {
    if v == 0 {
        None
    } else {
        Some(v)
    }
}

pub open spec fn mark_value(m: Option<u16>) -> u16 {
    match m {
        Some(v) => v,
        None => 0,
    }
}

/// The second powermark field, which stands on the wire only after a
/// powermark that is there.
pub open spec fn parse_second_mark(s: Seq<u8>, p: int, first: u16) -> PResult<Option<u16>> {
    if first == 0 {
        Ok((None, p))
    } else {
        match parse_u16(s, p) {
            Err(k) => Err(k),
            Ok((v, q)) => Ok((mark_of(v), q)),
        }
    }
}

/// A tossup: powermark, second powermark (only where the first is there),
/// question, answer, category.
pub open spec fn parse_tossup(s: Seq<u8>, p: int) -> PResult<TossupView> {
    match parse_u16(s, p) {
        Err(k) => Err(k),
        Ok((pm, q)) => match parse_second_mark(s, q, pm) {
            Err(k) => Err(k),
            Ok((second, r)) => match parse_question_text(s, r) {
                Err(k) => Err(k),
                Ok((question, t)) => match parse_answer_text(s, t) {
                    Err(k) => Err(k),
                    Ok((answer, u)) => match parse_category(s, u) {
                        Err(k) => Err(k),
                        Ok((category, w)) => Ok(
                            (
                                TossupView {
                                    powermark: mark_of(pm),
                                    second_powermark: second,
                                    question,
                                    answer,
                                    category,
                                },
                                w,
                            ),
                        ),
                    },
                },
            },
        },
    }
}

pub open spec fn enc_marks(t: TossupView) -> Seq<u8> {
    if mark_value(t.powermark) == 0 {
        enc_u16(0)
    } else {
        enc_u16(mark_value(t.powermark)) + enc_u16(mark_value(t.second_powermark))
    }
}

/// How a tossup without a powermark is written: one zero field for the
/// marks, then the rest.
pub open spec fn enc_unmarked_tossup(t: TossupView) -> Seq<u8> {
    enc_u16(0) + enc_question_text(t.question) + enc_answer_text(t.answer) + enc_category(t.category)
}

pub open spec fn enc_tossup(t: TossupView) -> Seq<u8> {
    enc_marks(t) + enc_question_text(t.question) + enc_answer_text(t.answer) + enc_category(
        t.category,
    )
}

pub open spec fn tossup_fits(t: TossupView) -> bool {
    &&& question_text_fits(t.question)
    &&& answer_text_fits(t.answer)
    &&& t.category.wf()
}

/// What a tossup reads back as: a zero mark is no mark, and without a
/// powermark there is no second one.
pub open spec fn normal_tossup(t: TossupView) -> TossupView {
    TossupView {
        powermark: mark_of(mark_value(t.powermark)),
        second_powermark: if mark_value(t.powermark) == 0 {
            None
        } else {
            mark_of(mark_value(t.second_powermark))
        },
        ..t
    }
}

/// A tossup that reads back unchanged.
pub open spec fn tossup_canonical(t: TossupView) -> bool {
    tossup_fits(t) && normal_tossup(t) == t
}

/// A part of a bonus: its point value, its text, its answer.
pub open spec fn parse_part(s: Seq<u8>, p: int) -> PResult<BonusPartView> {
    match parse_u8(s, p) {
        Err(k) => Err(k),
        Ok((value, q)) => match parse_question_text(s, q) {
            Err(k) => Err(k),
            Ok((text, r)) => match parse_answer_text(s, r) {
                Err(k) => Err(k),
                Ok((answer, t)) => Ok((BonusPartView { value, text, answer }, t)),
            },
        },
    }
}

pub open spec fn enc_part(x: BonusPartView) -> Seq<u8> {
    enc_u8(x.value) + enc_question_text(x.text) + enc_answer_text(x.answer)
}

pub open spec fn part_fits(x: BonusPartView) -> bool {
    question_text_fits(x.text) && answer_text_fits(x.answer)
}

pub open spec fn part_parser() -> spec_fn(Seq<u8>, int) -> PResult<BonusPartView> {
    |s: Seq<u8>, p: int| parse_part(s, p)
}

pub open spec fn part_encoder() -> spec_fn(BonusPartView) -> Seq<u8> {
    |x: BonusPartView| enc_part(x)
}

/// A bonus: leadin, category, an 8-bit part count, then the parts.
pub open spec fn parse_bonus(s: Seq<u8>, p: int) -> PResult<BonusView> {
    match parse_question_text(s, p) {
        Err(k) => Err(k),
        Ok((leadin, q)) => match parse_category(s, q) {
            Err(k) => Err(k),
            Ok((category, r)) => match parse_u8(s, r) {
                Err(k) => Err(k),
                Ok((n, t)) => match parse_seq(s, t, n as nat, part_parser()) {
                    Err(k) => Err(k),
                    Ok((parts, u)) => Ok((BonusView { leadin, category, parts }, u)),
                },
            },
        },
    }
}

pub open spec fn enc_bonus(b: BonusView) -> Seq<u8> {
    enc_question_text(b.leadin) + enc_category(b.category) + enc_u8(b.parts.len() as u8) + enc_seq(
        b.parts,
        part_encoder(),
    )
}

pub open spec fn bonus_fits(b: BonusView) -> bool {
    &&& question_text_fits(b.leadin)
    &&& b.category.wf()
    &&& b.parts.len() <= 255
    &&& forall|i: int| 0 <= i < b.parts.len() ==> part_fits(#[trigger] b.parts[i])
}

// ---------------------------------------------------------------------------
// Readers and writers

/// Turns a powermark field into a mark: zero stands for none.
fn mark_from(v: u16) -> (r: Option<u16>)
    ensures
        r == mark_of(v),
{
    if v == 0 {
        None
    } else {
        Some(v)
    }
}

impl Tossup {
    /// Whether the tossup can be written.
    pub fn fits(&self) -> (r: bool)
        ensures
            r == tossup_fits(self@),
    {
        self.question.fits() && self.answer.fits() && self.category.fits()
    }

    /// Reads a tossup at `pos`.
    pub fn read_from(buf: &[u8], pos: usize) -> (r: Result<(Tossup, usize), Error>)
        ensures
            agrees(r, parse_tossup(buf@, pos as int)),
    {
        let (pm, q) = match read_u16(buf, pos) {
            Ok(x) => x,
            Err(e) => return Err(e),
        };
        let powermark = mark_from(pm);
        let (second_powermark, r) = if pm == 0 {
            (None, q)
        } else {
            match read_u16(buf, q) {
                Ok((v, r)) => (mark_from(v), r),
                Err(e) => return Err(e),
            }
        };
        let (question, t) = match QuestionText::read_from(buf, r) {
            Ok(x) => x,
            Err(e) => return Err(e),
        };
        let (answer, u) = match AnswerText::read_from(buf, t) {
            Ok(x) => x,
            Err(e) => return Err(e),
        };
        let (category, w) = match Category::read_from(buf, u) {
            Ok(x) => x,
            Err(e) => return Err(e),
        };
        Ok((Tossup { powermark, second_powermark, question, answer, category }, w))
    }

    /// Appends the tossup's record. The second powermark is written only
    /// after a powermark that is there.
    pub fn write_to(&self, out: &mut Vec<u8>)
        requires
            tossup_fits(self@),
        ensures
            final(out)@ == old(out)@ + enc_tossup(self@),
    {
        let pm = match self.powermark {
            Some(v) => v,
            None => 0,
        };
        write_u16(out, pm);
        if pm != 0 {
            let second = match self.second_powermark {
                Some(v) => v,
                None => 0,
            };
            write_u16(out, second);
        }
        let ghost mid = out@;
        assert(mid =~= old(out)@ + enc_marks(self@));
        self.question.write_to(out);
        self.answer.write_to(out);
        self.category.write_to(out);
        assert(final(out)@ =~= old(out)@ + enc_tossup(self@));
    }
}

impl BonusPart {
    /// Whether the part can be written.
    pub fn fits(&self) -> (r: bool)
        ensures
            r == part_fits(self@),
    {
        self.text.fits() && self.answer.fits()
    }

    /// Reads a bonus part at `pos`.
    pub fn read_from(buf: &[u8], pos: usize) -> (r: Result<(BonusPart, usize), Error>)
        ensures
            agrees(r, parse_part(buf@, pos as int)),
    {
        let (value, q) = match read_u8(buf, pos) {
            Ok(x) => x,
            Err(e) => return Err(e),
        };
        let (text, r) = match QuestionText::read_from(buf, q) {
            Ok(x) => x,
            Err(e) => return Err(e),
        };
        let (answer, t) = match AnswerText::read_from(buf, r) {
            Ok(x) => x,
            Err(e) => return Err(e),
        };
        Ok((BonusPart { value, text, answer }, t))
    }

    /// Appends the part's record.
    pub fn write_to(&self, out: &mut Vec<u8>)
        requires
            part_fits(self@),
        ensures
            final(out)@ == old(out)@ + enc_part(self@),
    {
        write_u8(out, self.value);
        self.text.write_to(out);
        self.answer.write_to(out);
        assert(final(out)@ =~= old(out)@ + enc_part(self@));
    }
}

impl Bonus {
    /// Whether the bonus can be written.
    pub fn fits(&self) -> (r: bool)
        ensures
            r == bonus_fits(self@),
    {
        if !self.leadin.fits() || !self.category.fits() || self.parts.len() > 255 {
            return false;
        }
        let ghost view = self@.parts;
        let mut i: usize = 0;
        while i < self.parts.len()
            invariant
                i <= self.parts@.len(),
                view == parts_view(self.parts@),
                forall|j: int| 0 <= j < i ==> part_fits(#[trigger] view[j]),
            decreases self.parts@.len() - i,
        {
            assert(view[i as int] == self.parts@[i as int]@);
            if !self.parts[i].fits() {
                return false;
            }
            i = i + 1;
        }
        true
    }

    /// Reads a bonus at `pos`.
    pub fn read_from(buf: &[u8], pos: usize) -> (r: Result<(Bonus, usize), Error>)
        ensures
            agrees(r, parse_bonus(buf@, pos as int)),
    {
        let (leadin, q) = match QuestionText::read_from(buf, pos) {
            Ok(x) => x,
            Err(e) => return Err(e),
        };
        let (category, r) = match Category::read_from(buf, q) {
            Ok(x) => x,
            Err(e) => return Err(e),
        };
        let (n, t) = match read_u8(buf, r) {
            Ok(x) => x,
            Err(e) => return Err(e),
        };
        let mut parts: Vec<BonusPart> = Vec::new();
        let mut u = t;
        let mut i: u8 = 0;
        assert(parts_view(parts@) =~= Seq::<BonusPartView>::empty());
        while i < n
            invariant
                i <= n,
                parse_question_text(buf@, pos as int) == Ok::<(QuestionTextView, int), ErrorKind>(
                    (leadin@, q as int),
                ),
                parse_category(buf@, q as int) == Ok::<(Category, int), ErrorKind>((category, r as int)),
                parse_u8(buf@, r as int) == Ok::<(u8, int), ErrorKind>((n, t as int)),
                parse_seq(buf@, t as int, i as nat, part_parser()) == Ok::<(Seq<BonusPartView>, int), ErrorKind>(
                    (parts_view(parts@), u as int),
                ),
            decreases n - i,
        {
            let ghost old_parts = parts@;
            let (x, u2) = match BonusPart::read_from(buf, u) {
                Ok(x) => x,
                Err(e) => {
                    proof {
                        assert(parse_seq(buf@, t as int, (i + 1) as nat, part_parser())
                            == Err::<(Seq<BonusPartView>, int), ErrorKind>(e.spec_kind()));
                        lemma_seq_err_stays(buf@, t as int, (i + 1) as nat, n as nat, part_parser());
                    }
                    return Err(e);
                },
            };
            parts.push(x);
            u = u2;
            i = i + 1;
            assert(parts_view(parts@) =~= parts_view(old_parts).push(x@));
        }
        Ok((Bonus { leadin, category, parts }, u))
    }

    /// Appends the bonus's record.
    pub fn write_to(&self, out: &mut Vec<u8>)
        requires
            bonus_fits(self@),
        ensures
            final(out)@ == old(out)@ + enc_bonus(self@),
    {
        let ghost view = self@.parts;
        self.leadin.write_to(out);
        self.category.write_to(out);
        write_u8(out, self.parts.len() as u8);
        let ghost start = out@;
        let mut i: usize = 0;
        while i < self.parts.len()
            invariant
                i <= self.parts@.len(),
                view == parts_view(self.parts@),
                bonus_fits(self@),
                out@ == start + enc_seq(view.take(i as int), part_encoder()),
            decreases self.parts@.len() - i,
        {
            assert(view[i as int] == self.parts@[i as int]@);
            self.parts[i].write_to(out);
            i = i + 1;
            assert(view.take(i as int).drop_last() =~= view.take(i - 1));
            assert(out@ =~= start + enc_seq(view.take(i as int), part_encoder()));
        }
        assert(view.take(self.parts@.len() as int) =~= view);
        assert(final(out)@ =~= old(out)@ + enc_bonus(self@));
    }
}

// ---------------------------------------------------------------------------
// Round trips

/// A tossup that can be written reads back as its normal form: marks of
/// zero are dropped, and without a powermark no second one is read.
pub proof fn lemma_tossup_round_trip(s: Seq<u8>, p: int, t: TossupView)
    requires
        tossup_fits(t),
        holds_at(s, p, enc_tossup(t)),
    ensures
        parse_tossup(s, p) == Ok::<(TossupView, int), ErrorKind>(
            (normal_tossup(t), p + enc_tossup(t).len()),
        ),
{
    let a = enc_marks(t);
    let b = enc_question_text(t.question);
    let c = enc_answer_text(t.answer);
    let d = enc_category(t.category);
    lemma_holds_split(s, p, a + b + c, d);
    lemma_holds_split(s, p, a + b, c);
    lemma_holds_split(s, p, a, b);
    let pm = mark_value(t.powermark);
    if pm == 0 {
        lemma_u16_round_trip(s, p, 0);
    } else {
        lemma_holds_split(s, p, enc_u16(pm), enc_u16(mark_value(t.second_powermark)));
        lemma_u16_round_trip(s, p, pm);
        lemma_u16_round_trip(s, p + 2, mark_value(t.second_powermark));
    }
    lemma_question_text_round_trip(s, p + a.len(), t.question);
    lemma_answer_text_round_trip(s, p + a.len() + b.len(), t.answer);
    lemma_category_round_trip(s, p + a.len() + b.len() + c.len(), t.category);
}

pub proof fn lemma_part_round_trip(x: BonusPartView)
    requires
        part_fits(x),
    ensures
        reads_back(part_parser(), part_encoder(), x),
{
    assert forall|s: Seq<u8>, p: int| holds_at(s, p, enc_part(x)) implies parse_part(s, p)
        == Ok::<(BonusPartView, int), ErrorKind>((x, p + enc_part(x).len())) by {
        let a = enc_u8(x.value);
        let b = enc_question_text(x.text);
        lemma_holds_split(s, p, a + b, enc_answer_text(x.answer));
        lemma_holds_split(s, p, a, b);
        lemma_u8_round_trip(s, p, x.value);
        lemma_question_text_round_trip(s, p + 1, x.text);
        lemma_answer_text_round_trip(s, p + 1 + b.len(), x.answer);
    }
}

pub proof fn lemma_bonus_round_trip(s: Seq<u8>, p: int, x: BonusView)
    requires
        bonus_fits(x),
        holds_at(s, p, enc_bonus(x)),
    ensures
        parse_bonus(s, p) == Ok::<(BonusView, int), ErrorKind>((x, p + enc_bonus(x).len())),
{
    let a = enc_question_text(x.leadin);
    let b = enc_category(x.category);
    let c = enc_u8(x.parts.len() as u8);
    let d = enc_seq(x.parts, part_encoder());
    lemma_holds_split(s, p, a + b + c, d);
    lemma_holds_split(s, p, a + b, c);
    lemma_holds_split(s, p, a, b);
    lemma_question_text_round_trip(s, p, x.leadin);
    lemma_category_round_trip(s, p + a.len(), x.category);
    lemma_u8_round_trip(s, p + a.len() + 1, x.parts.len() as u8);
    assert forall|i: int| 0 <= i < x.parts.len() implies reads_back(
        part_parser(),
        part_encoder(),
        #[trigger] x.parts[i],
    ) by {
        lemma_part_round_trip(x.parts[i]);
    }
    lemma_seq_round_trip(s, p + a.len() + 2, x.parts, part_parser(), part_encoder());
}

} // verus!
