//! The whole document: a named set of packets with its custom categories.
use vstd::prelude::*;

use crate::categories::{
    custom_category_wf, enc_custom_category, lemma_custom_category_round_trip, parse_custom_category,
    CustomCategory, CustomCategoryView,
};
use crate::error::{Error, ErrorKind, PResult};
use crate::packet::{
    enc_packet, lemma_packet_round_trip, packet_canonical,
    packet_fits, parse_packet, Packet, PacketView,
};
use crate::wire::{
    enc_seq, enc_string, enc_u16, enc_u8, fits_prefix, holds_at, lemma_holds_split,
    lemma_seq_err_stays, lemma_seq_round_trip, lemma_string_round_trip, lemma_u16_round_trip,
    lemma_u8_round_trip, parse_seq, parse_string, parse_u16, parse_u8, read_string, read_u16,
    read_u8, reads_back, string_fits, write_string, write_u16, write_u8,
};

verus! {

/// The format version that is written.
pub const FORMAT_VERSION: u8 = 0;

/// A quizbowl set that contains one or more packets.
#[derive(Clone, PartialEq, Debug)]
pub struct QuestionSet {
    pub name: String,
    pub year: u16,
    pub custom_categories: Vec<CustomCategory>,
    pub packets: Vec<Packet>,
}

pub ghost struct QuestionSetView {
    pub name: Seq<char>,
    pub year: u16,
    pub custom_categories: Seq<CustomCategoryView>,
    pub packets: Seq<PacketView>,
}

pub open spec fn customs_view(v: Seq<CustomCategory>) -> Seq<CustomCategoryView> {
    v.map_values(|c: CustomCategory| c@)
}

pub open spec fn packets_view(v: Seq<Packet>) -> Seq<PacketView> {
    v.map_values(|x: Packet| x@)
}

impl View for QuestionSet {
    type V = QuestionSetView;

    open spec fn view(&self) -> QuestionSetView {
        QuestionSetView {
            name: self.name@,
            year: self.year,
            custom_categories: customs_view(self.custom_categories@),
            packets: packets_view(self.packets@),
        }
    }
}

// ---------------------------------------------------------------------------
// Layout

/// The file magic: "QbSet" and a NUL byte.
pub open spec fn magic() -> Seq<u8> {
    seq![0x51u8, 0x62u8, 0x53u8, 0x65u8, 0x74u8, 0x00u8]
}

/// The input begins with the file magic.
pub open spec fn starts_with_magic(s: Seq<u8>) -> bool {
    s.len() >= 6 && s.subrange(0, 6) == magic()
}

pub open spec fn custom_parser() -> spec_fn(Seq<u8>, int) -> PResult<CustomCategoryView> {
    |s: Seq<u8>, p: int| parse_custom_category(s, p)
}

pub open spec fn custom_encoder() -> spec_fn(CustomCategoryView) -> Seq<u8> {
    |c: CustomCategoryView| enc_custom_category(c)
}

pub open spec fn packet_parser() -> spec_fn(Seq<u8>, int) -> PResult<PacketView> {
    |s: Seq<u8>, p: int| parse_packet(s, p)
}

pub open spec fn packet_encoder() -> spec_fn(PacketView) -> Seq<u8> {
    |x: PacketView| enc_packet(x)
}

/// A set: the magic, the name, the year, a version byte (read and not
/// interpreted), the custom categories after their 8-bit count, then the
/// packets after theirs.
pub open spec fn parse_set(s: Seq<u8>) -> PResult<QuestionSetView> {
    if !starts_with_magic(s) {
        Err(ErrorKind::MalformedInput)
    } else {
        match parse_string(s, 6) {
            Err(k) => Err(k),
            Ok((name, q)) => match parse_u16(s, q) {
                Err(k) => Err(k),
                Ok((year, r)) => match parse_u8(s, r) {
                    Err(k) => Err(k),
                    Ok((_version, t)) => match parse_u8(s, t) {
                        Err(k) => Err(k),
                        Ok((n, u)) => match parse_seq(s, u, n as nat, custom_parser()) {
                            Err(k) => Err(k),
                            Ok((custom_categories, w)) => match parse_u8(s, w) {
                                Err(k) => Err(k),
                                Ok((m, y)) => match parse_seq(s, y, m as nat, packet_parser()) {
                                    Err(k) => Err(k),
                                    Ok((packets, z)) => Ok(
                                        (QuestionSetView { name, year, custom_categories, packets }, z),
                                    ),
                                },
                            },
                        },
                    },
                },
            },
        }
    }
}

pub open spec fn enc_set(x: QuestionSetView) -> Seq<u8> {
    magic() + enc_string(x.name) + enc_u16(x.year) + enc_u8(0) + enc_u8(
        x.custom_categories.len() as u8,
    ) + enc_seq(x.custom_categories, custom_encoder()) + enc_u8(x.packets.len() as u8) + enc_seq(
        x.packets,
        packet_encoder(),
    )
}

/// A set can be written: every string fits its prefix and every count fits
/// its byte.
pub open spec fn set_fits(x: QuestionSetView) -> bool {
    &&& string_fits(x.name)
    &&& x.custom_categories.len() <= 255
    &&& forall|i: int|
        0 <= i < x.custom_categories.len() ==> custom_category_wf(#[trigger] x.custom_categories[i])
    &&& x.packets.len() <= 255
    &&& forall|i: int| 0 <= i < x.packets.len() ==> packet_fits(#[trigger] x.packets[i])
}

/// A set that reads back unchanged: it can be written, and it holds no
/// empty description and no zero powermark or stray second powermark.
pub open spec fn set_canonical(x: QuestionSetView) -> bool {
    &&& set_fits(x)
    &&& forall|i: int| 0 <= i < x.packets.len() ==> packet_canonical(#[trigger] x.packets[i])
}

// ---------------------------------------------------------------------------
// Reading and writing

/// Whether `bytes` begins with the file magic.
fn has_magic(bytes: &[u8]) -> (r: bool)
    ensures
        r == starts_with_magic(bytes@),
{
    if bytes.len() < 6 {
        return false;
    }
    let r = bytes[0] == 0x51 && bytes[1] == 0x62 && bytes[2] == 0x53 && bytes[3] == 0x65
        && bytes[4] == 0x74 && bytes[5] == 0x00;
    assert(r ==> bytes@.subrange(0, 6) =~= magic());
    assert(bytes@.subrange(0, 6) == magic() ==> bytes@.subrange(0, 6)[0] == 0x51 && bytes@.subrange(
        0,
        6,
    )[1] == 0x62 && bytes@.subrange(0, 6)[2] == 0x53 && bytes@.subrange(0, 6)[3] == 0x65
        && bytes@.subrange(0, 6)[4] == 0x74 && bytes@.subrange(0, 6)[5] == 0x00);
    r
}

impl QuestionSet {
    /// Whether the set can be written.
    pub fn fits(&self) -> (r: bool)
        ensures
            r == set_fits(self@),
    {
        if !fits_prefix(self.name.as_str()) || self.custom_categories.len() > 255
            || self.packets.len() > 255 {
            return false;
        }
        let ghost customs = self@.custom_categories;
        let mut i: usize = 0;
        while i < self.custom_categories.len()
            invariant
                i <= self.custom_categories@.len(),
                customs == customs_view(self.custom_categories@),
                forall|j: int| 0 <= j < i ==> custom_category_wf(#[trigger] customs[j]),
            decreases self.custom_categories@.len() - i,
        {
            assert(customs[i as int] == self.custom_categories@[i as int]@);
            if !self.custom_categories[i].fits() {
                return false;
            }
            i = i + 1;
        }
        let ghost packets = self@.packets;
        let mut k: usize = 0;
        while k < self.packets.len()
            invariant
                k <= self.packets@.len(),
                packets == packets_view(self.packets@),
                forall|j: int| 0 <= j < k ==> packet_fits(#[trigger] packets[j]),
            decreases self.packets@.len() - k,
        {
            assert(packets[k as int] == self.packets@[k as int]@);
            if !self.packets[k].fits() {
                return false;
            }
            k = k + 1;
        }
        true
    }

    /// Reads a set from the start of `bytes`; whatever follows it is ignored.
    pub fn from_reader(bytes: &[u8]) -> (r: Result<QuestionSet, Error>)
        ensures
            match parse_set(bytes@) {
                Ok((v, _)) => r is Ok && r->Ok_0@ == v,
                Err(k) => r is Err && r->Err_0.spec_kind() == k,
            },
    {
        if !has_magic(bytes) {
            return Err(Error::MalformedInput("invalid file magic".to_owned()));
        }
        let (name, q) = match read_string(bytes, 6) {
            Ok(x) => x,
            Err(e) => return Err(e),
        };
        let (year, r) = match read_u16(bytes, q) {
            Ok(x) => x,
            Err(e) => return Err(e),
        };
        let (_version, t) = match read_u8(bytes, r) {
            Ok(x) => x,
            Err(e) => return Err(e),
        };
        let (n, u) = match read_u8(bytes, t) {
            Ok(x) => x,
            Err(e) => return Err(e),
        };
        let (custom_categories, w) = match read_customs(bytes, u, n) {
            Ok(x) => x,
            Err(e) => return Err(e),
        };
        let (m, y) = match read_u8(bytes, w) {
            Ok(x) => x,
            Err(e) => return Err(e),
        };
        let (packets, _z) = match read_packets(bytes, y, m) {
            Ok(x) => x,
            Err(e) => return Err(e),
        };
        Ok(QuestionSet { name, year, custom_categories, packets })
    }

    /// Appends the set's bytes to `out`. A set that cannot be written (a
    /// string longer than its 16-bit prefix allows, a count over 255, a
    /// custom-category index past the category byte) is refused with
    /// `MalformedInput` before anything is written.
    pub fn write_to(&self, out: &mut Vec<u8>) -> (r: Result<(), Error>)
        ensures
            r is Ok <==> set_fits(self@),
            r is Ok ==> final(out)@ == old(out)@ + enc_set(self@),
            r matches Err(e) ==> e.spec_kind() == ErrorKind::MalformedInput && final(out)@ == old(out)@,
    {
        if !self.fits() {
            return Err(Error::MalformedInput("set does not fit the format".to_owned()));
        }
        out.push(0x51);
        out.push(0x62);
        out.push(0x53);
        out.push(0x65);
        out.push(0x74);
        out.push(0x00);
        assert(out@ =~= old(out)@ + magic());
        write_string(out, self.name.as_str());
        write_u16(out, self.year);
        write_u8(out, FORMAT_VERSION);
        write_u8(out, self.custom_categories.len() as u8);
        write_customs(out, &self.custom_categories);
        write_u8(out, self.packets.len() as u8);
        write_packets(out, &self.packets);
        assert(out@ =~= old(out)@ + enc_set(self@));
        Ok(())
    }
}

/// Reads `n` custom categories at `pos`.
fn read_customs(buf: &[u8], pos: usize, n: u8) -> (r: Result<(Vec<CustomCategory>, usize), Error>)
    ensures
        match parse_seq(buf@, pos as int, n as nat, custom_parser()) {
            Ok((v, q)) => r is Ok && customs_view(r->Ok_0.0@) == v && r->Ok_0.1 as int == q,
            Err(k) => r is Err && r->Err_0.spec_kind() == k,
        },
{
    let mut v: Vec<CustomCategory> = Vec::new();
    let mut q = pos;
    let mut i: u8 = 0;
    assert(customs_view(v@) =~= Seq::<CustomCategoryView>::empty());
    while i < n
        invariant
            i <= n,
            parse_seq(buf@, pos as int, i as nat, custom_parser()) == Ok::<(Seq<CustomCategoryView>, int), ErrorKind>(
                (customs_view(v@), q as int),
            ),
        decreases n - i,
    {
        let ghost old_v = v@;
        let (c, q2) = match CustomCategory::read_from(buf, q) {
            Ok(x) => x,
            Err(e) => {
                proof {
                    assert(parse_seq(buf@, pos as int, (i + 1) as nat, custom_parser())
                        == Err::<(Seq<CustomCategoryView>, int), ErrorKind>(e.spec_kind()));
                    lemma_seq_err_stays(buf@, pos as int, (i + 1) as nat, n as nat, custom_parser());
                }
                return Err(e);
            },
        };
        v.push(c);
        q = q2;
        i = i + 1;
        assert(customs_view(v@) =~= customs_view(old_v).push(c@));
    }
    Ok((v, q))
}

/// Reads `n` packets at `pos`.
fn read_packets(buf: &[u8], pos: usize, n: u8) -> (r: Result<(Vec<Packet>, usize), Error>)
    ensures
        match parse_seq(buf@, pos as int, n as nat, packet_parser()) {
            Ok((v, q)) => r is Ok && packets_view(r->Ok_0.0@) == v && r->Ok_0.1 as int == q,
            Err(k) => r is Err && r->Err_0.spec_kind() == k,
        },
{
    let mut v: Vec<Packet> = Vec::new();
    let mut q = pos;
    let mut i: u8 = 0;
    assert(packets_view(v@) =~= Seq::<PacketView>::empty());
    while i < n
        invariant
            i <= n,
            parse_seq(buf@, pos as int, i as nat, packet_parser()) == Ok::<(Seq<PacketView>, int), ErrorKind>(
                (packets_view(v@), q as int),
            ),
        decreases n - i,
    {
        let ghost old_v = v@;
        let (x, q2) = match Packet::read_from(buf, q) {
            Ok(x) => x,
            Err(e) => {
                proof {
                    assert(parse_seq(buf@, pos as int, (i + 1) as nat, packet_parser())
                        == Err::<(Seq<PacketView>, int), ErrorKind>(e.spec_kind()));
                    lemma_seq_err_stays(buf@, pos as int, (i + 1) as nat, n as nat, packet_parser());
                }
                return Err(e);
            },
        };
        v.push(x);
        q = q2;
        i = i + 1;
        assert(packets_view(v@) =~= packets_view(old_v).push(x@));
    }
    Ok((v, q))
}

/// Appends the records of `v`.
fn write_customs(out: &mut Vec<u8>, v: &Vec<CustomCategory>)
    requires
        forall|j: int| 0 <= j < v@.len() ==> custom_category_wf(#[trigger] customs_view(v@)[j]),
    ensures
        final(out)@ == old(out)@ + enc_seq(customs_view(v@), custom_encoder()),
{
    let ghost view = customs_view(v@);
    let ghost start = out@;
    let mut i: usize = 0;
    while i < v.len()
        invariant
            i <= v@.len(),
            view == customs_view(v@),
            forall|j: int| 0 <= j < v@.len() ==> custom_category_wf(#[trigger] view[j]),
            out@ == start + enc_seq(view.take(i as int), custom_encoder()),
        decreases v@.len() - i,
    {
        assert(view[i as int] == v@[i as int]@);
        v[i].write_to(out);
        i = i + 1;
        assert(view.take(i as int).drop_last() =~= view.take(i - 1));
        assert(out@ =~= start + enc_seq(view.take(i as int), custom_encoder()));
    }
    assert(view.take(v@.len() as int) =~= view);
}

/// Appends the records of `v`.
fn write_packets(out: &mut Vec<u8>, v: &Vec<Packet>)
    requires
        forall|j: int| 0 <= j < v@.len() ==> packet_fits(#[trigger] packets_view(v@)[j]),
    ensures
        final(out)@ == old(out)@ + enc_seq(packets_view(v@), packet_encoder()),
{
    let ghost view = packets_view(v@);
    let ghost start = out@;
    let mut i: usize = 0;
    while i < v.len()
        invariant
            i <= v@.len(),
            view == packets_view(v@),
            forall|j: int| 0 <= j < v@.len() ==> packet_fits(#[trigger] view[j]),
            out@ == start + enc_seq(view.take(i as int), packet_encoder()),
        decreases v@.len() - i,
    {
        assert(view[i as int] == v@[i as int]@);
        v[i].write_to(out);
        i = i + 1;
        assert(view.take(i as int).drop_last() =~= view.take(i - 1));
        assert(out@ =~= start + enc_seq(view.take(i as int), packet_encoder()));
    }
    assert(view.take(v@.len() as int) =~= view);
}

// ---------------------------------------------------------------------------
// Round trip

proof fn lemma_packets_read_back(packets: Seq<PacketView>)
    requires
        forall|i: int| 0 <= i < packets.len() ==> packet_canonical(#[trigger] packets[i]),
    ensures
        forall|i: int| 0 <= i < packets.len() ==> reads_back(packet_parser(), packet_encoder(), #[trigger] packets[i]),
{
    assert forall|i: int| 0 <= i < packets.len() implies reads_back(
        packet_parser(),
        packet_encoder(),
        #[trigger] packets[i],
    ) by {
        let x = packets[i];
        assert forall|s: Seq<u8>, p: int| holds_at(s, p, enc_packet(x)) implies parse_packet(s, p)
            == Ok::<(PacketView, int), ErrorKind>((x, p + enc_packet(x).len())) by {
            lemma_packet_round_trip(s, p, x);
        }
    }
}

proof fn lemma_customs_read_back(customs: Seq<CustomCategoryView>)
    requires
        forall|i: int| 0 <= i < customs.len() ==> custom_category_wf(#[trigger] customs[i]),
    ensures
        forall|i: int| 0 <= i < customs.len() ==> reads_back(custom_parser(), custom_encoder(), #[trigger] customs[i]),
{
    assert forall|i: int| 0 <= i < customs.len() implies reads_back(
        custom_parser(),
        custom_encoder(),
        #[trigger] customs[i],
    ) by {
        let x = customs[i];
        assert forall|s: Seq<u8>, p: int| holds_at(s, p, enc_custom_category(x)) implies parse_custom_category(s, p)
            == Ok::<(CustomCategoryView, int), ErrorKind>((x, p + enc_custom_category(x).len())) by {
            lemma_custom_category_round_trip(s, p, x);
        }
    }
}

pub proof fn lemma_set_round_trip(s: Seq<u8>, x: QuestionSetView)
    requires
        set_canonical(x),
        holds_at(s, 0, enc_set(x)),
    ensures
        parse_set(s) == Ok::<(QuestionSetView, int), ErrorKind>((x, enc_set(x).len() as int)),
{
    let a0 = magic();
    let a1 = enc_string(x.name);
    let a2 = enc_u16(x.year);
    let a3 = enc_u8(0);
    let a4 = enc_u8(x.custom_categories.len() as u8);
    let a5 = enc_seq(x.custom_categories, custom_encoder());
    let a6 = enc_u8(x.packets.len() as u8);
    let a7 = enc_seq(x.packets, packet_encoder());
    lemma_holds_split(s, 0, a0 + a1 + a2 + a3 + a4 + a5 + a6, a7);
    lemma_holds_split(s, 0, a0 + a1 + a2 + a3 + a4 + a5, a6);
    lemma_holds_split(s, 0, a0 + a1 + a2 + a3 + a4, a5);
    lemma_holds_split(s, 0, a0 + a1 + a2 + a3, a4);
    lemma_holds_split(s, 0, a0 + a1 + a2, a3);
    lemma_holds_split(s, 0, a0 + a1, a2);
    lemma_holds_split(s, 0, a0, a1);
    assert(starts_with_magic(s));
    lemma_string_round_trip(s, 6, x.name);
    let q: int = 6 + a1.len() as int;
    lemma_u16_round_trip(s, q, x.year);
    lemma_u8_round_trip(s, q + 2, 0);
    lemma_u8_round_trip(s, q + 3, x.custom_categories.len() as u8);
    lemma_customs_read_back(x.custom_categories);
    lemma_seq_round_trip(s, q + 4, x.custom_categories, custom_parser(), custom_encoder());
    let w: int = q + 4 + a5.len() as int;
    lemma_u8_round_trip(s, w, x.packets.len() as u8);
    lemma_packets_read_back(x.packets);
    lemma_seq_round_trip(s, w + 1, x.packets, packet_parser(), packet_encoder());
}

} // verus!
