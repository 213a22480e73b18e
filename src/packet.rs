//! Cycles and packets.
use vstd::prelude::*;

use crate::error::{agrees, Error, ErrorKind, PResult};
use crate::question::{
    bonus_fits, enc_bonus, enc_tossup, lemma_bonus_round_trip, lemma_tossup_round_trip,
    normal_tossup, parse_bonus, parse_tossup, tossup_fits, Bonus, BonusView, Tossup, TossupView,
};
use crate::wire::{
    enc_seq, enc_string, enc_u8, fits_prefix, holds_at, lemma_holds_split, lemma_seq_err_stays, lemma_seq_round_trip,
    lemma_string_round_trip, lemma_u8_round_trip, parse_seq, parse_string, parse_u8, read_string,
    read_u8, reads_back, string_fits, write_string, write_u8,
};

verus! {

/// One game 'cycle'. In most packets, this will have both a tossup and a bonus,
/// but many packets are written with only tossups, and even a few out there
/// that are only bonuses.
#[derive(Clone, PartialEq, Debug)]
pub struct Cycle {
    pub tossup: Option<Tossup>,
    pub bonus: Option<Bonus>,
}

/// One quizbowl packet
#[derive(Clone, PartialEq, Debug)]
pub struct Packet {
    pub number: u8,
    pub description: Option<String>,
    pub cycles: Vec<Cycle>,
}

pub ghost struct CycleView {
    pub tossup: Option<TossupView>,
    pub bonus: Option<BonusView>,
}

pub ghost struct PacketView {
    pub number: u8,
    pub description: Option<Seq<char>>,
    pub cycles: Seq<CycleView>,
}

impl View for Cycle {
    type V = CycleView;

    open spec fn view(&self) -> CycleView {
        CycleView {
            tossup: match self.tossup {
                Some(t) => Some(t@),
                None => None,
            },
            bonus: match self.bonus {
                Some(b) => Some(b@),
                None => None,
            },
        }
    }
}

pub open spec fn cycles_view(v: Seq<Cycle>) -> Seq<CycleView> {
    v.map_values(|c: Cycle| c@)
}

impl View for Packet {
    type V = PacketView;

    open spec fn view(&self) -> PacketView {
        PacketView {
            number: self.number,
            description: match self.description {
                Some(d) => Some(d@),
                None => None,
            },
            cycles: cycles_view(self.cycles@),
        }
    }
}

// ---------------------------------------------------------------------------
// Layout

/// Bit 1 of a cycle's flag byte: a tossup follows.
pub open spec fn flag_tossup(f: u8) -> bool {
    (f / 2) % 2 == 1
}

/// Bit 0 of a cycle's flag byte: a bonus follows.
pub open spec fn flag_bonus(f: u8) -> bool {
    f % 2 == 1
}

pub open spec fn cycle_flags(c: CycleView) -> u8 {
    ((if c.tossup is Some { 2int } else { 0int }) + (if c.bonus is Some { 1int } else { 0int })) as u8
}

pub open spec fn parse_opt_tossup(s: Seq<u8>, p: int, present: bool) -> PResult<Option<TossupView>> {
    if !present {
        Ok((None, p))
    } else {
        match parse_tossup(s, p) {
            Err(k) => Err(k),
            Ok((t, q)) => Ok((Some(t), q)),
        }
    }
}

pub open spec fn parse_opt_bonus(s: Seq<u8>, p: int, present: bool) -> PResult<Option<BonusView>> {
    if !present {
        Ok((None, p))
    } else {
        match parse_bonus(s, p) {
            Err(k) => Err(k),
            Ok((b, q)) => Ok((Some(b), q)),
        }
    }
}

/// A cycle: its flag byte, then the tossup and the bonus that it flags.
pub open spec fn parse_cycle(s: Seq<u8>, p: int) -> PResult<CycleView> {
    match parse_u8(s, p) {
        Err(k) => Err(k),
        Ok((f, q)) => match parse_opt_tossup(s, q, flag_tossup(f)) {
            Err(k) => Err(k),
            Ok((tossup, r)) => match parse_opt_bonus(s, r, flag_bonus(f)) {
                Err(k) => Err(k),
                Ok((bonus, t)) => Ok((CycleView { tossup, bonus }, t)),
            },
        },
    }
}

pub open spec fn enc_cycle(c: CycleView) -> Seq<u8> {
    enc_u8(cycle_flags(c)) + match c.tossup {
        Some(t) => enc_tossup(t),
        None => Seq::empty(),
    } + match c.bonus {
        Some(b) => enc_bonus(b),
        None => Seq::empty(),
    }
}

pub open spec fn cycle_fits(c: CycleView) -> bool {
    &&& c.tossup matches Some(t) ==> tossup_fits(t)
    &&& c.bonus matches Some(b) ==> bonus_fits(b)
}

/// A cycle that reads back unchanged.
pub open spec fn cycle_canonical(c: CycleView) -> bool {
    &&& cycle_fits(c)
    &&& c.tossup matches Some(t) ==> normal_tossup(t) == t
}

pub open spec fn cycle_parser() -> spec_fn(Seq<u8>, int) -> PResult<CycleView> {
    |s: Seq<u8>, p: int| parse_cycle(s, p)
}

pub open spec fn cycle_encoder() -> spec_fn(CycleView) -> Seq<u8> {
    |c: CycleView| enc_cycle(c)
}

/// An empty description string stands for no description.
pub open spec fn description_of(d: Seq<char>) -> Option<Seq<char>> {
    if d.len() == 0 {
        None
    } else {
        Some(d)
    }
}

pub open spec fn description_text(d: Option<Seq<char>>) -> Seq<char> {
    match d {
        Some(t) => t,
        None => Seq::empty(),
    }
}

/// A packet: its number, its description, an 8-bit cycle count, then the
/// cycles.
pub open spec fn parse_packet(s: Seq<u8>, p: int) -> PResult<PacketView> {
    match parse_u8(s, p) {
        Err(k) => Err(k),
        Ok((number, q)) => match parse_string(s, q) {
            Err(k) => Err(k),
            Ok((d, r)) => match parse_u8(s, r) {
                Err(k) => Err(k),
                Ok((n, t)) => match parse_seq(s, t, n as nat, cycle_parser()) {
                    Err(k) => Err(k),
                    Ok((cycles, u)) => Ok(
                        (PacketView { number, description: description_of(d), cycles }, u),
                    ),
                },
            },
        },
    }
}

pub open spec fn enc_packet(x: PacketView) -> Seq<u8> {
    enc_u8(x.number) + enc_string(description_text(x.description)) + enc_u8(x.cycles.len() as u8)
        + enc_seq(x.cycles, cycle_encoder())
}

pub open spec fn packet_fits(x: PacketView) -> bool {
    &&& string_fits(description_text(x.description))
    &&& x.cycles.len() <= 255
    &&& forall|i: int| 0 <= i < x.cycles.len() ==> cycle_fits(#[trigger] x.cycles[i])
}

/// What a packet reads back as: an empty description is no description.
pub open spec fn normal_packet(x: PacketView) -> PacketView {
    PacketView { description: description_of(description_text(x.description)), ..x }
}

/// A packet that reads back unchanged.
pub open spec fn packet_canonical(x: PacketView) -> bool {
    &&& packet_fits(x)
    &&& normal_packet(x) == x
    &&& forall|i: int| 0 <= i < x.cycles.len() ==> cycle_canonical(#[trigger] x.cycles[i])
}

// ---------------------------------------------------------------------------
// Readers and writers

impl Cycle {
    /// Whether the cycle can be written.
    pub fn fits(&self) -> (r: bool)
        ensures
            r == cycle_fits(self@),
    {
        let t = match &self.tossup {
            Some(t) => t.fits(),
            None => true,
        };
        let b = match &self.bonus {
            Some(b) => b.fits(),
            None => true,
        };
        t && b
    }

    /// Reads a cycle at `pos`.
    pub fn read_from(buf: &[u8], pos: usize) -> (r: Result<(Cycle, usize), Error>)
        ensures
            agrees(r, parse_cycle(buf@, pos as int)),
    {
        let (flags, q) = match read_u8(buf, pos) {
            Ok(x) => x,
            Err(e) => return Err(e),
        };
        let (tossup, r) = if flags / 2 % 2 == 1 {
            match Tossup::read_from(buf, q) {
                Ok((t, r)) => (Some(t), r),
                Err(e) => return Err(e),
            }
        } else {
            (None, q)
        };
        let (bonus, t) = if flags % 2 == 1 {
            match Bonus::read_from(buf, r) {
                Ok((b, t)) => (Some(b), t),
                Err(e) => return Err(e),
            }
        } else {
            (None, r)
        };
        Ok((Cycle { tossup, bonus }, t))
    }

    /// Appends the cycle's record.
    pub fn write_to(&self, out: &mut Vec<u8>)
        requires
            cycle_fits(self@),
        ensures
            final(out)@ == old(out)@ + enc_cycle(self@),
    {
        let mut flags: u8 = 0;
        if self.tossup.is_some() {
            flags = flags + 2;
        }
        if self.bonus.is_some() {
            flags = flags + 1;
        }
        write_u8(out, flags);
        let ghost a = out@;
        match &self.tossup {
            Some(t) => t.write_to(out),
            None => {},
        }
        let ghost b = out@;
        match &self.bonus {
            Some(x) => x.write_to(out),
            None => {},
        }
        assert(b =~= a + match self@.tossup {
            Some(t) => enc_tossup(t),
            None => Seq::empty(),
        });
        assert(final(out)@ =~= old(out)@ + enc_cycle(self@));
    }
}

impl Packet {
    /// Whether the packet can be written.
    pub fn fits(&self) -> (r: bool)
        ensures
            r == packet_fits(self@),
    {
        let d = match &self.description {
            Some(d) => fits_prefix(d.as_str()),
            None => {
                assert(vstd::utf8::encode_utf8(Seq::<char>::empty()) =~= Seq::<u8>::empty());
                true
            },
        };
        if !d || self.cycles.len() > 255 {
            return false;
        }
        let ghost view = self@.cycles;
        let mut i: usize = 0;
        while i < self.cycles.len()
            invariant
                i <= self.cycles@.len(),
                view == cycles_view(self.cycles@),
                forall|j: int| 0 <= j < i ==> cycle_fits(#[trigger] view[j]),
            decreases self.cycles@.len() - i,
        {
            assert(view[i as int] == self.cycles@[i as int]@);
            if !self.cycles[i].fits() {
                return false;
            }
            i = i + 1;
        }
        true
    }

    /// Reads a packet at `pos`. An empty description reads as none.
    pub fn read_from(buf: &[u8], pos: usize) -> (r: Result<(Packet, usize), Error>)
        ensures
            agrees(r, parse_packet(buf@, pos as int)),
    {
        let (number, q) = match read_u8(buf, pos) {
            Ok(x) => x,
            Err(e) => return Err(e),
        };
        let (d, r) = match read_string(buf, q) {
            Ok(x) => x,
            Err(e) => return Err(e),
        };
        let ghost dv = d@;
        let description = if d.as_str().is_empty() {
            None
        } else {
            Some(d)
        };
        let (n, t) = match read_u8(buf, r) {
            Ok(x) => x,
            Err(e) => return Err(e),
        };
        let mut cycles: Vec<Cycle> = Vec::new();
        let mut u = t;
        let mut i: u8 = 0;
        assert(cycles_view(cycles@) =~= Seq::<CycleView>::empty());
        while i < n
            invariant
                i <= n,
                parse_u8(buf@, pos as int) == Ok::<(u8, int), ErrorKind>((number, q as int)),
                parse_string(buf@, q as int) == Ok::<(Seq<char>, int), ErrorKind>((dv, r as int)),
                parse_u8(buf@, r as int) == Ok::<(u8, int), ErrorKind>((n, t as int)),
                parse_seq(buf@, t as int, i as nat, cycle_parser()) == Ok::<(Seq<CycleView>, int), ErrorKind>(
                    (cycles_view(cycles@), u as int),
                ),
            decreases n - i,
        {
            let ghost old_cycles = cycles@;
            let (c, u2) = match Cycle::read_from(buf, u) {
                Ok(x) => x,
                Err(e) => {
                    proof {
                        assert(parse_seq(buf@, t as int, (i + 1) as nat, cycle_parser())
                            == Err::<(Seq<CycleView>, int), ErrorKind>(e.spec_kind()));
                        lemma_seq_err_stays(buf@, t as int, (i + 1) as nat, n as nat, cycle_parser());
                    }
                    return Err(e);
                },
            };
            cycles.push(c);
            u = u2;
            i = i + 1;
            assert(cycles_view(cycles@) =~= cycles_view(old_cycles).push(c@));
        }
        Ok((Packet { number, description, cycles }, u))
    }

    /// Appends the packet's record; no description is written as an empty
    /// one.
    pub fn write_to(&self, out: &mut Vec<u8>)
        requires
            packet_fits(self@),
        ensures
            final(out)@ == old(out)@ + enc_packet(self@),
    {
        let ghost view = self@.cycles;
        write_u8(out, self.number);
        match &self.description {
            Some(d) => write_string(out, d.as_str()),
            None => {
                let ghost before = out@;
                crate::wire::write_u16(out, 0);
                assert(vstd::utf8::encode_utf8(Seq::<char>::empty()) =~= Seq::<u8>::empty());
                assert(out@ =~= before + enc_string(Seq::empty()));
            },
        }
        write_u8(out, self.cycles.len() as u8);
        let ghost start = out@;
        let mut i: usize = 0;
        while i < self.cycles.len()
            invariant
                i <= self.cycles@.len(),
                view == cycles_view(self.cycles@),
                packet_fits(self@),
                out@ == start + enc_seq(view.take(i as int), cycle_encoder()),
            decreases self.cycles@.len() - i,
        {
            assert(view[i as int] == self.cycles@[i as int]@);
            self.cycles[i].write_to(out);
            i = i + 1;
            assert(view.take(i as int).drop_last() =~= view.take(i - 1));
            assert(out@ =~= start + enc_seq(view.take(i as int), cycle_encoder()));
        }
        assert(view.take(self.cycles@.len() as int) =~= view);
        assert(final(out)@ =~= old(out)@ + enc_packet(self@));
    }
}

// ---------------------------------------------------------------------------
// Round trips

pub open spec fn enc_opt_tossup(t: Option<TossupView>) -> Seq<u8> {
    match t {
        Some(t) => enc_tossup(t),
        None => Seq::empty(),
    }
}

pub open spec fn enc_opt_bonus(b: Option<BonusView>) -> Seq<u8> {
    match b {
        Some(b) => enc_bonus(b),
        None => Seq::empty(),
    }
}

proof fn lemma_flags(x: CycleView)
    ensures
        flag_tossup(cycle_flags(x)) == x.tossup is Some,
        flag_bonus(cycle_flags(x)) == x.bonus is Some,
{
}

proof fn lemma_opt_tossup(s: Seq<u8>, p: int, t: Option<TossupView>)
    requires
        t matches Some(v) ==> tossup_fits(v) && normal_tossup(v) == v,
        holds_at(s, p, enc_opt_tossup(t)),
    ensures
        parse_opt_tossup(s, p, t is Some) == Ok::<(Option<TossupView>, int), ErrorKind>(
            (t, p + enc_opt_tossup(t).len()),
        ),
{
    if let Some(v) = t {
        lemma_tossup_round_trip(s, p, v);
    }
}

proof fn lemma_opt_bonus(s: Seq<u8>, p: int, b: Option<BonusView>)
    requires
        b matches Some(v) ==> bonus_fits(v),
        holds_at(s, p, enc_opt_bonus(b)),
    ensures
        parse_opt_bonus(s, p, b is Some) == Ok::<(Option<BonusView>, int), ErrorKind>(
            (b, p + enc_opt_bonus(b).len()),
        ),
{
    if let Some(v) = b {
        lemma_bonus_round_trip(s, p, v);
    }
}

proof fn lemma_cycle_at(s: Seq<u8>, p: int, x: CycleView)
    requires
        cycle_canonical(x),
        holds_at(s, p, enc_cycle(x)),
    ensures
        parse_cycle(s, p) == Ok::<(CycleView, int), ErrorKind>((x, p + enc_cycle(x).len())),
{
    let f = cycle_flags(x);
    let a = enc_u8(f);
    let b = enc_opt_tossup(x.tossup);
    let c = enc_opt_bonus(x.bonus);
    assert(enc_cycle(x) == a + b + c);
    lemma_holds_split(s, p, a + b, c);
    lemma_holds_split(s, p, a, b);
    lemma_u8_round_trip(s, p, f);
    lemma_flags(x);
    lemma_opt_tossup(s, p + 1, x.tossup);
    lemma_opt_bonus(s, p + 1 + b.len(), x.bonus);
}

pub proof fn lemma_cycle_round_trip(x: CycleView)
    requires
        cycle_canonical(x),
    ensures
        reads_back(cycle_parser(), cycle_encoder(), x),
{
    assert forall|s: Seq<u8>, p: int| holds_at(s, p, enc_cycle(x)) implies parse_cycle(s, p)
        == Ok::<(CycleView, int), ErrorKind>((x, p + enc_cycle(x).len())) by {
        lemma_cycle_at(s, p, x);
    }
}

/// A packet that can be written, whose cycles read back unchanged, reads
/// back as its normal form: an empty description is read as none.
pub proof fn lemma_packet_round_trip(s: Seq<u8>, p: int, x: PacketView)
    requires
        packet_fits(x),
        forall|i: int| 0 <= i < x.cycles.len() ==> cycle_canonical(#[trigger] x.cycles[i]),
        holds_at(s, p, enc_packet(x)),
    ensures
        parse_packet(s, p) == Ok::<(PacketView, int), ErrorKind>(
            (normal_packet(x), p + enc_packet(x).len()),
        ),
{
    let d = description_text(x.description);
    let a = enc_u8(x.number);
    let b = enc_string(d);
    let c = enc_u8(x.cycles.len() as u8);
    let e = enc_seq(x.cycles, cycle_encoder());
    lemma_holds_split(s, p, a + b + c, e);
    lemma_holds_split(s, p, a + b, c);
    lemma_holds_split(s, p, a, b);
    lemma_u8_round_trip(s, p, x.number);
    lemma_string_round_trip(s, p + 1, d);
    lemma_u8_round_trip(s, p + 1 + b.len(), x.cycles.len() as u8);
    assert forall|i: int| 0 <= i < x.cycles.len() implies reads_back(
        cycle_parser(),
        cycle_encoder(),
        #[trigger] x.cycles[i],
    ) by {
        lemma_cycle_round_trip(x.cycles[i]);
    }
    lemma_seq_round_trip(s, p + 1 + b.len() + 1, x.cycles, cycle_parser(), cycle_encoder());
}

} // verus!
