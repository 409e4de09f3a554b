//! Length-prefixed records: `u64` big-endian length, then that many bytes.
use vstd::prelude::*;

use crate::error::Failure;

verus! {

/// Default ceiling on the length of one record: 16 MiB.
pub const DEFAULT_CEILING: u64 = 16777216;

/// Byte `k` (0 = most significant) of the big-endian form of `n`.
pub open spec fn be_byte(n: u64, k: int) -> u8 {
    ((n >> ((56 - 8 * k) as u64)) & 0xff) as u8
}

/// The eight big-endian bytes of `n`.
pub open spec fn be_bytes(n: u64) -> Seq<u8> {
    seq![
        be_byte(n, 0), be_byte(n, 1), be_byte(n, 2), be_byte(n, 3),
        be_byte(n, 4), be_byte(n, 5), be_byte(n, 6), be_byte(n, 7),
    ]
}

/// The number whose big-endian form is the first eight bytes of `s`.
pub open spec fn be_value(s: Seq<u8>) -> u64
    recommends
        s.len() >= 8,
{
    ((s[0] as u64) << 56) | ((s[1] as u64) << 48) | ((s[2] as u64) << 40) | ((s[3] as u64) << 32)
        | ((s[4] as u64) << 24) | ((s[5] as u64) << 16) | ((s[6] as u64) << 8) | (s[7] as u64)
}

/// The wire form of one record carrying payload `p`.
pub open spec fn record_of(p: Seq<u8>) -> Seq<u8> {
    be_bytes(p.len() as u64) + p
}

/// The wire form of records carrying the payloads `ps`, in order.
pub open spec fn records_of(ps: Seq<Seq<u8>>) -> Seq<u8>
    decreases ps.len(),
{
    if ps.len() == 0 {
        seq![]
    } else {
        record_of(ps[0]) + records_of(ps.drop_first())
    }
}

/// Reading one record from the front of `s`: its payload and the number of
/// bytes it took, or why there is none.
pub open spec fn parse_record(s: Seq<u8>, ceiling: u64) -> Result<(Seq<u8>, nat), Failure> {
    if s.len() < 8 {
        Err(Failure::ConnectionClosed)
    } else if be_value(s) > ceiling {
        Err(Failure::TooLarge)
    } else if s.len() < 8 + be_value(s) {
        Err(Failure::ConnectionClosed)
    } else {
        Ok((s.subrange(8, 8 + be_value(s)), (8 + be_value(s)) as nat))
    }
}

/// Reading records from `s` until it is used up.
pub open spec fn parse_records(s: Seq<u8>, ceiling: u64) -> Result<Seq<Seq<u8>>, Failure>
    decreases s.len(),
{
    if s.len() == 0 {
        Ok(seq![])
    } else if s.len() < 8 {
        Err(Failure::ConnectionClosed)
    } else if be_value(s) > ceiling {
        Err(Failure::TooLarge)
    } else if s.len() < 8 + be_value(s) {
        Err(Failure::ConnectionClosed)
    } else {
        match parse_records(s.subrange(8 + be_value(s), s.len() as int), ceiling) {
            Ok(rest) => Ok(seq![s.subrange(8, 8 + be_value(s))] + rest),
            Err(e) => Err(e),
        }
    }
}

proof fn lemma_be_round_trip(n: u64)
    ensures
        be_value(be_bytes(n)) == n,
{
    let b = be_bytes(n);
    assert(((((n >> 56) & 0xff) as u8 as u64) << 56) | ((((n >> 48) & 0xff) as u8 as u64) << 48)
        | ((((n >> 40) & 0xff) as u8 as u64) << 40) | ((((n >> 32) & 0xff) as u8 as u64) << 32)
        | ((((n >> 24) & 0xff) as u8 as u64) << 24) | ((((n >> 16) & 0xff) as u8 as u64) << 16)
        | ((((n >> 8) & 0xff) as u8 as u64) << 8) | (((n >> 0) & 0xff) as u8 as u64) == n)
        by (bit_vector);
}

/// Records written one after another are read back as the same payloads, in
/// the same order, when none is longer than the ceiling.
pub proof fn lemma_framing(ps: Seq<Seq<u8>>, ceiling: u64)
    requires
        forall|i: int| 0 <= i < ps.len() ==> #[trigger] ps[i].len() <= ceiling,
    ensures
        parse_records(records_of(ps), ceiling) == Ok::<Seq<Seq<u8>>, Failure>(ps),
    decreases ps.len(),
{
    if ps.len() > 0 {
        let p = ps[0];
        let rest = ps.drop_first();
        assert forall|i: int| 0 <= i < rest.len() implies #[trigger] rest[i].len() <= ceiling by {
            assert(rest[i] == ps[i + 1]);
        }
        lemma_framing(rest, ceiling);
        let s = records_of(ps);
        lemma_be_round_trip(p.len() as u64);
        assert(s.subrange(0, 8) =~= be_bytes(p.len() as u64));
        assert(be_value(s) == be_value(s.subrange(0, 8)));
        assert(be_value(s) == p.len());
        assert(s.subrange(8, 8 + p.len() as int) =~= p);
        assert(s.subrange(8 + p.len() as int, s.len() as int) =~= records_of(rest));
        assert(seq![p] + rest =~= ps);
    } else {
        assert(records_of(ps) == Seq::<u8>::empty());
        assert(ps =~= Seq::<Seq<u8>>::empty());
    }
}

/// Frames `payload` as one record.
pub fn encode_record(payload: &[u8]) -> (r: Vec<u8>)
    ensures
        r@ == record_of(payload@),
{
    let n = payload.len() as u64;
    let mut out: Vec<u8> = Vec::new();
    out.push(((n >> 56) & 0xff) as u8);
    out.push(((n >> 48) & 0xff) as u8);
    out.push(((n >> 40) & 0xff) as u8);
    out.push(((n >> 32) & 0xff) as u8);
    out.push(((n >> 24) & 0xff) as u8);
    out.push(((n >> 16) & 0xff) as u8);
    out.push(((n >> 8) & 0xff) as u8);
    out.push((n & 0xff) as u8);
    assert(out@ == be_bytes(n)) by {
        assert((n >> 0u64) == n) by (bit_vector);
    }
    let mut i: usize = 0;
    while i < payload.len()
        invariant
            i <= payload@.len(),
            out@ == be_bytes(n) + payload@.subrange(0, i as int),
        decreases payload@.len() - i,
    {
        out.push(payload[i]);
        i = i + 1;
        assert(payload@.subrange(0, i as int) == payload@.subrange(0, i - 1) + seq![payload@[i - 1]]);
    }
    assert(payload@.subrange(0, payload@.len() as int) == payload@);
    out
}

/// Reads one record from the front of `buf`, whose declared length may be at
/// most `ceiling`: its payload and the number of bytes it took.
pub fn decode_record(buf: &[u8], ceiling: u64) -> (r: Result<(Vec<u8>, usize), Failure>)
    ensures
        match r {
            Ok((p, n)) => parse_record(buf@, ceiling) == Ok::<(Seq<u8>, nat), Failure>(
                (p@, n as nat),
            ),
            Err(e) => parse_record(buf@, ceiling) == Err::<(Seq<u8>, nat), Failure>(e),
        },
{
    if buf.len() < 8 {
        return Err(Failure::ConnectionClosed);
    }
    let len = ((buf[0] as u64) << 56) | ((buf[1] as u64) << 48) | ((buf[2] as u64) << 40) | ((
    buf[3] as u64) << 32) | ((buf[4] as u64) << 24) | ((buf[5] as u64) << 16) | ((buf[6] as u64)
        << 8) | (buf[7] as u64);
    assert(len == be_value(buf@));
    if len > ceiling {
        return Err(Failure::TooLarge);
    }
    if len > (buf.len() - 8) as u64 {
        return Err(Failure::ConnectionClosed);
    }
    let end = 8 + len as usize;
    let mut p: Vec<u8> = Vec::with_capacity(len as usize);
    let mut i: usize = 8;
    while i < end
        invariant
            8 <= i <= end <= buf@.len(),
            p@ == buf@.subrange(8, i as int),
        decreases end - i,
    {
        p.push(buf[i]);
        i = i + 1;
        assert(buf@.subrange(8, i as int) == buf@.subrange(8, i - 1) + seq![buf@[i - 1]]);
    }
    Ok((p, end))
}

/// The payload length that the eight-byte `header` of a record declares, for a
/// reader that takes the header and the payload from a stream one after the
/// other.
pub fn payload_len(header: &[u8], ceiling: u64) -> (r: Result<u64, Failure>)
    ensures
        header@.len() < 8 ==> r == Err::<u64, Failure>(Failure::ConnectionClosed),
        header@.len() >= 8 && be_value(header@) > ceiling ==> r == Err::<u64, Failure>(
            Failure::TooLarge,
        ),
        header@.len() >= 8 && be_value(header@) <= ceiling ==> r == Ok::<u64, Failure>(
            be_value(header@),
        ),
{
    if header.len() < 8 {
        return Err(Failure::ConnectionClosed);
    }
    let len = ((header[0] as u64) << 56) | ((header[1] as u64) << 48) | ((header[2] as u64) << 40)
        | ((header[3] as u64) << 32) | ((header[4] as u64) << 24) | ((header[5] as u64) << 16) | ((
    header[6] as u64) << 8) | (header[7] as u64);
    if len > ceiling {
        Err(Failure::TooLarge)
    } else {
        Ok(len)
    }
}

/// Reads every record in `buf`, which must end on a record boundary.
pub fn decode_records(buf: &[u8], ceiling: u64) -> (r: Result<Vec<Vec<u8>>, Failure>)
    ensures
        match r {
            Ok(ps) => parse_records(buf@, ceiling) == Ok::<Seq<Seq<u8>>, Failure>(
                ps@.map_values(|p: Vec<u8>| p@),
            ),
            Err(e) => parse_records(buf@, ceiling) == Err::<Seq<Seq<u8>>, Failure>(e),
        },
{
    let mut out: Vec<Vec<u8>> = Vec::new();
    let mut pos: usize = 0;
    proof {
        assert(buf@.subrange(0, buf@.len() as int) =~= buf@);
        match parse_records(buf@, ceiling) {
            Ok(all) => {
                assert(out@.map_values(|p: Vec<u8>| p@) + all =~= all);
            },
            Err(e) => {},
        }
    }
    while pos < buf.len()
        invariant
            pos <= buf@.len(),
            parse_records(buf@, ceiling) == match parse_records(
                buf@.subrange(pos as int, buf@.len() as int),
                ceiling,
            ) {
                Ok(rest) => Ok(out@.map_values(|p: Vec<u8>| p@) + rest),
                Err(e) => Err(e),
            },
        decreases buf@.len() - pos,
    {
        let rest = &buf[pos..buf.len()];
        assert(rest@ == buf@.subrange(pos as int, buf@.len() as int));
        match decode_record(rest, ceiling) {
            Ok((p, n)) => {
                let ghost old_view = out@.map_values(|q: Vec<u8>| q@);
                proof {
                    let tail = rest@.subrange(n as int, rest@.len() as int);
                    assert(tail == buf@.subrange(pos + n, buf@.len() as int));
                    assert(old_view.push(p@) == old_view + seq![p@]);
                    match parse_records(tail, ceiling) {
                        Ok(more) => {
                            assert(old_view + (seq![p@] + more) == old_view.push(p@) + more);
                        },
                        Err(e) => {},
                    }
                }
                out.push(p);
                proof {
                    assert(out@.map_values(|q: Vec<u8>| q@) == old_view.push(p@));
                }
                pos = pos + n;
            },
            Err(e) => {
                return Err(e);
            },
        }
    }
    proof {
        assert(buf@.subrange(pos as int, buf@.len() as int) == Seq::<u8>::empty());
        assert(out@.map_values(|p: Vec<u8>| p@) + Seq::<Seq<u8>>::empty() == out@.map_values(|p: Vec<u8>| p@));
    }
    Ok(out)
}

} // verus!
