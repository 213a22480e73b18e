//! Primitive fields of the format: bytes, little-endian 16-bit integers,
//! length-prefixed UTF-8 strings, and counted sequences of records.
use vstd::prelude::*;
use vstd::utf8::{decode_utf8, encode_utf8, encode_utf8_decode_utf8, encode_utf8_valid_utf8, valid_utf8};

use vstd::string::StringSliceAdditionalSpecFns;

use crate::error::{Error, ErrorKind, PResult};

verus! {

// ---------------------------------------------------------------------------
// Spec parsers and encoders

/// `s` holds the bytes `e` starting at position `p`.
pub open spec fn holds_at(s: Seq<u8>, p: int, e: Seq<u8>) -> bool {
    &&& 0 <= p
    &&& p + e.len() <= s.len()
    &&& s.subrange(p, p + e.len()) == e
}

pub open spec fn parse_u8(s: Seq<u8>, p: int) -> PResult<u8> {
    if 0 <= p < s.len() {
        Ok((s[p], p + 1))
    } else {
        Err(ErrorKind::UnexpectedEof)
    }
}

pub open spec fn parse_u16(s: Seq<u8>, p: int) -> PResult<u16> {
    if 0 <= p && p + 2 <= s.len() {
        Ok(((s[p] as int + 256 * s[p + 1] as int) as u16, p + 2))
    } else {
        Err(ErrorKind::UnexpectedEof)
    }
}

/// A string: its byte length as a 16-bit integer, then its UTF-8 bytes.
pub open spec fn parse_string(s: Seq<u8>, p: int) -> PResult<Seq<char>> {
    match parse_u16(s, p) {
        Err(k) => Err(k),
        Ok((n, q)) => if q + n > s.len() {
            Err(ErrorKind::UnexpectedEof)
        } else if !valid_utf8(s.subrange(q, q + n)) {
            Err(ErrorKind::InvalidUtf8)
        } else {
            Ok((decode_utf8(s.subrange(q, q + n)), q + n))
        },
    }
}

pub open spec fn enc_u8(b: u8) -> Seq<u8> {
    seq![b]
}

pub open spec fn enc_u16(v: u16) -> Seq<u8> {
    seq![(v % 256) as u8, (v / 256) as u8]
}

/// A string can be written when its UTF-8 length fits in the 16-bit prefix.
pub open spec fn string_fits(c: Seq<char>) -> bool {
    encode_utf8(c).len() <= 0xffff
}

pub open spec fn enc_string(c: Seq<char>) -> Seq<u8> {
    enc_u16(encode_utf8(c).len() as u16) + encode_utf8(c)
}

/// `n` records read one after the other with `item`, starting at `p`.
pub open spec fn parse_seq<T>(
    s: Seq<u8>,
    p: int,
    n: nat,
    item: spec_fn(Seq<u8>, int) -> PResult<T>,
) -> PResult<Seq<T>>
    decreases n,
{
    if n == 0 {
        Ok((Seq::empty(), p))
    } else {
        match parse_seq(s, p, (n - 1) as nat, item) {
            Err(k) => Err(k),
            Ok((xs, q)) => match item(s, q) {
                Err(k) => Err(k),
                Ok((x, r)) => Ok((xs.push(x), r)),
            },
        }
    }
}

/// The records of `xs` written one after the other with `item`.
pub open spec fn enc_seq<T>(xs: Seq<T>, item: spec_fn(T) -> Seq<u8>) -> Seq<u8>
    decreases xs.len(),
{
    if xs.len() == 0 {
        Seq::empty()
    } else {
        enc_seq(xs.drop_last(), item) + item(xs.last())
    }
}

/// `parse` reads back exactly what `enc` wrote for `x`, wherever it stands.
pub open spec fn reads_back<T>(
    parse: spec_fn(Seq<u8>, int) -> PResult<T>,
    enc: spec_fn(T) -> Seq<u8>,
    x: T,
) -> bool {
    forall|s: Seq<u8>, p: int|
        holds_at(s, p, enc(x)) ==> #[trigger] parse(s, p) == Ok::<(T, int), ErrorKind>((x, p + enc(x).len()))
}

// ---------------------------------------------------------------------------
// Lemmas

pub proof fn lemma_holds_split(s: Seq<u8>, p: int, a: Seq<u8>, b: Seq<u8>)
    requires
        holds_at(s, p, a + b),
    ensures
        holds_at(s, p, a),
        holds_at(s, p + a.len(), b),
{
    let whole = s.subrange(p, p + a.len() + b.len());
    assert(whole == a + b);
    assert(s.subrange(p, p + a.len()) =~= whole.subrange(0, a.len() as int));
    assert(whole.subrange(0, a.len() as int) =~= a);
    assert(s.subrange(p + a.len(), p + a.len() + b.len()) =~= whole.subrange(
        a.len() as int,
        (a.len() + b.len()) as int,
    ));
    assert(whole.subrange(a.len() as int, (a.len() + b.len()) as int) =~= b);
}

pub proof fn lemma_u8_round_trip(s: Seq<u8>, p: int, b: u8)
    requires
        holds_at(s, p, enc_u8(b)),
    ensures
        parse_u8(s, p) == Ok::<(u8, int), ErrorKind>((b, p + 1)),
{
    assert(s[p] == s.subrange(p, p + 1)[0]);
}

pub proof fn lemma_u16_round_trip(s: Seq<u8>, p: int, v: u16)
    requires
        holds_at(s, p, enc_u16(v)),
    ensures
        parse_u16(s, p) == Ok::<(u16, int), ErrorKind>((v, p + 2)),
{
    assert(s[p] == s.subrange(p, p + 2)[0]);
    assert(s[p + 1] == s.subrange(p, p + 2)[1]);
}

pub proof fn lemma_string_round_trip(s: Seq<u8>, p: int, c: Seq<char>)
    requires
        string_fits(c),
        holds_at(s, p, enc_string(c)),
    ensures
        parse_string(s, p) == Ok::<(Seq<char>, int), ErrorKind>((c, p + enc_string(c).len())),
{
    let bytes = encode_utf8(c);
    lemma_holds_split(s, p, enc_u16(bytes.len() as u16), bytes);
    lemma_u16_round_trip(s, p, bytes.len() as u16);
    encode_utf8_valid_utf8(c);
    encode_utf8_decode_utf8(c);
}

/// Once reading a sequence fails, reading a longer one fails the same way.
pub proof fn lemma_seq_err_stays<T>(
    s: Seq<u8>,
    p: int,
    i: nat,
    n: nat,
    item: spec_fn(Seq<u8>, int) -> PResult<T>,
)
    requires
        i <= n,
        parse_seq(s, p, i, item) is Err,
    ensures
        parse_seq(s, p, n, item) == parse_seq(s, p, i, item),
    decreases n,
{
    if n > i {
        lemma_seq_err_stays(s, p, i, (n - 1) as nat, item);
    }
}

pub proof fn lemma_seq_round_trip<T>(
    s: Seq<u8>,
    p: int,
    xs: Seq<T>,
    parse: spec_fn(Seq<u8>, int) -> PResult<T>,
    enc: spec_fn(T) -> Seq<u8>,
)
    requires
        holds_at(s, p, enc_seq(xs, enc)),
        forall|i: int| 0 <= i < xs.len() ==> reads_back(parse, enc, #[trigger] xs[i]),
    ensures
        parse_seq(s, p, xs.len(), parse) == Ok::<(Seq<T>, int), ErrorKind>(
            (xs, p + enc_seq(xs, enc).len()),
        ),
    decreases xs.len(),
{
    if xs.len() > 0 {
        let init = xs.drop_last();
        lemma_holds_split(s, p, enc_seq(init, enc), enc(xs.last()));
        assert forall|i: int| 0 <= i < init.len() implies reads_back(parse, enc, #[trigger] init[i]) by {
            assert(init[i] == xs[i]);
        }
        lemma_seq_round_trip(s, p, init, parse, enc);
        assert(reads_back(parse, enc, xs[xs.len() - 1]));
        let q = p + enc_seq(init, enc).len();
        assert(parse(s, q) == Ok::<(T, int), ErrorKind>((xs.last(), q + enc(xs.last()).len())));
        assert(init.push(xs.last()) =~= xs);
        assert(enc_seq(xs, enc) == enc_seq(init, enc) + enc(xs.last()));
        assert(parse_seq(s, p, init.len(), parse) == Ok::<(Seq<T>, int), ErrorKind>((init, q)));
        assert((xs.len() - 1) as nat == init.len());
    } else {
        assert(xs =~= Seq::<T>::empty());
    }
}

// ---------------------------------------------------------------------------
// Readers

/// Reads one byte at `pos`.
pub fn read_u8(buf: &[u8], pos: usize) -> (r: Result<(u8, usize), Error>)
    ensures
        crate::error::agrees(r, parse_u8(buf@, pos as int)),
{
    if pos < buf.len() {
        Ok((buf[pos], pos + 1))
    } else {
        Err(Error::UnexpectedEof)
    }
}

/// Reads a little-endian 16-bit integer at `pos`.
pub fn read_u16(buf: &[u8], pos: usize) -> (r: Result<(u16, usize), Error>)
    ensures
        crate::error::agrees(r, parse_u16(buf@, pos as int)),
{
    if pos < buf.len() && buf.len() - pos >= 2 {
        let lo = buf[pos] as u16;
        let hi = buf[pos + 1] as u16;
        Ok((lo + 256 * hi, pos + 2))
    } else {
        Err(Error::UnexpectedEof)
    }
}

/// Relies on std::str::from_utf8: it succeeds exactly when the bytes are
/// valid UTF-8, and then returns a string slice over those same bytes.
#[verifier::external_body]
fn utf8_str(b: &[u8]) -> (r: Option<&str>)
    ensures
        r is Some <==> valid_utf8(b@),
        r matches Some(t) ==> t.spec_bytes() == b@,
{
    std::str::from_utf8(b).ok()
}

/// Reads a length-prefixed UTF-8 string at `pos`.
pub fn read_string(buf: &[u8], pos: usize) -> (r: Result<(String, usize), Error>)
    ensures
        crate::error::agrees(r, parse_string(buf@, pos as int)),
{
    let (n, q) = match read_u16(buf, pos) {
        Ok(x) => x,
        Err(e) => return Err(e),
    };
    if n as usize > buf.len() - q {
        return Err(Error::UnexpectedEof);
    }
    let end = q + n as usize;
    let bytes = &buf[q..end];
    match utf8_str(bytes) {
        None => Err(Error::InvalidUtf8),
        Some(t) => {
            proof {
                encode_utf8_decode_utf8(t@);
            }
            Ok((t.to_owned(), end))
        },
    }
}

// ---------------------------------------------------------------------------
// Writers

/// Whether `s` can be written: its UTF-8 length fits the 16-bit prefix.
pub fn fits_prefix(s: &str) -> (r: bool)
    ensures
        r == string_fits(s@),
{
    s.as_bytes().len() <= 0xffff
}

pub fn write_u8(out: &mut Vec<u8>, b: u8)
    ensures
        final(out)@ == old(out)@ + enc_u8(b),
{
    out.push(b);
    assert(final(out)@ =~= old(out)@ + enc_u8(b));
}

pub fn write_u16(out: &mut Vec<u8>, v: u16)
    ensures
        final(out)@ == old(out)@ + enc_u16(v),
{
    out.push((v % 256) as u8);
    out.push((v / 256) as u8);
    assert(final(out)@ =~= old(out)@ + enc_u16(v));
}

/// Writes `s` as its byte length followed by its UTF-8 bytes.
pub fn write_string(out: &mut Vec<u8>, s: &str)
    requires
        string_fits(s@),
    ensures
        final(out)@ == old(out)@ + enc_string(s@),
{
    let bytes = s.as_bytes();
    write_u16(out, bytes.len() as u16);
    let ghost mid = out@;
    let mut i: usize = 0;
    while i < bytes.len()
        invariant
            bytes@ == encode_utf8(s@),
            i <= bytes@.len(),
            out@ == mid + bytes@.subrange(0, i as int),
        decreases bytes@.len() - i,
    {
        out.push(bytes[i]);
        i = i + 1;
        assert(out@ =~= mid + bytes@.subrange(0, i as int));
    }
    assert(bytes@.subrange(0, bytes@.len() as int) =~= bytes@);
}

} // verus!
