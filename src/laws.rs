//! Properties of the format as a whole, stated over the spec parsers and
//! encoders that the readers and writers are verified against.
use vstd::prelude::*;

use crate::error::ErrorKind;
use crate::packet::{cycle_canonical, enc_packet, lemma_packet_round_trip, packet_fits, parse_packet, Packet, PacketView};
use crate::question::{
    enc_tossup, enc_unmarked_tossup, lemma_tossup_round_trip, parse_tossup, tossup_fits, Tossup,
    TossupView,
};
use crate::set::{enc_set, lemma_set_round_trip, parse_set, set_canonical, set_fits, starts_with_magic, QuestionSet, QuestionSetView};
use crate::wire::holds_at;

verus! {

/// Writing a canonical set and reading the bytes back gives the same set,
/// whatever bytes follow it; the reader stops where the set ends.
pub proof fn law_set_round_trip(set: &QuestionSet, rest: Seq<u8>)
    requires
        set_canonical(set@),
    ensures
        parse_set(enc_set(set@) + rest) == Ok::<(QuestionSetView, int), ErrorKind>(
            (set@, enc_set(set@).len() as int),
        ),
{
    let e = enc_set(set@);
    assert((e + rest).subrange(0, e.len() as int) =~= e);
    lemma_set_round_trip(e + rest, set@);
}

/// Input that does not begin with the file magic is refused as malformed,
/// whatever follows.
pub proof fn law_magic_required(bytes: Seq<u8>)
    requires
        !starts_with_magic(bytes),
    ensures
        parse_set(bytes) == Err::<(QuestionSetView, int), ErrorKind>(ErrorKind::MalformedInput),
{
}

/// A tossup without a powermark is written with a single zero field for its
/// marks, and reads back with no second powermark whatever it held.
pub proof fn law_no_second_mark_without_powermark(t: &Tossup)
    requires
        tossup_fits(t@),
        t.powermark is None,
    ensures
        enc_tossup(t@) == enc_unmarked_tossup(t@),
        parse_tossup(enc_tossup(t@), 0) == Ok::<(TossupView, int), ErrorKind>(
            (TossupView { second_powermark: None, ..t@ }, enc_tossup(t@).len() as int),
        ),
{
    let e = enc_tossup(t@);
    assert(e.subrange(0, e.len() as int) =~= e);
    lemma_tossup_round_trip(e, 0, t@);
}

/// A packet whose description is the empty string reads back with no
/// description.
pub proof fn law_empty_description_reads_as_none(x: &Packet)
    requires
        packet_fits(x@),
        forall|i: int| 0 <= i < x@.cycles.len() ==> cycle_canonical(#[trigger] x@.cycles[i]),
        x@.description == Some(Seq::<char>::empty()),
    ensures
        parse_packet(enc_packet(x@), 0) == Ok::<(PacketView, int), ErrorKind>(
            (PacketView { description: None, ..x@ }, enc_packet(x@).len() as int),
        ),
{
    let e = enc_packet(x@);
    assert(e.subrange(0, e.len() as int) =~= e);
    lemma_packet_round_trip(e, 0, x@);
}

/// A set with more than 255 packets, or more than 255 custom categories,
/// cannot be written: `QuestionSet::write_to` refuses it.
pub proof fn law_count_overflow_refused(set: &QuestionSet)
    requires
        set.packets.len() > 255 || set.custom_categories.len() > 255,
    ensures
        !set_fits(set@),
{
}

} // verus!
