//! The Noise session: packet-wise encryption over a stateless transport state,
//! and the coin flip that picks the initiator of the symmetric handshake.
use std::sync::Arc;
use vstd::prelude::*;

use snow::StatelessTransportState;

use crate::error::Failure;

verus! {

#[verifier::external_type_specification]
#[verifier::external_body]
pub struct ExStatelessTransportState(snow::StatelessTransportState);

#[verifier::external_type_specification]
#[verifier::external_body]
pub struct ExSnowError(snow::Error);

/// Plaintext bytes in one encrypted packet.
pub const PACKET_LEN: usize = 65519;

/// Bytes that encryption adds to each packet (the AEAD tag).
pub const TAG_LEN: usize = 16;

/// Number of packets of at most `size` bytes that `n` bytes split into.
pub open spec fn packet_count(n: nat, size: nat) -> nat
    recommends
        size > 0,
{
    if n == 0 {
        0
    } else {
        ((n - 1) as nat / size + 1) as nat
    }
}

/// Length of the encryption of `n` plaintext bytes.
pub open spec fn sealed_len(n: nat) -> nat {
    (n + TAG_LEN * packet_count(n, PACKET_LEN as nat)) as nat
}

/// Length of the decryption of `n` ciphertext bytes.
pub open spec fn opened_len(n: nat) -> int {
    n - TAG_LEN * packet_count(n, (PACKET_LEN + TAG_LEN) as nat)
}

/// The pieces of `s` of `size` bytes each, in order, the last possibly
/// shorter; none for empty `s`.
pub open spec fn chunks(s: Seq<u8>, size: nat) -> Seq<Seq<u8>>
    decreases s.len(),
{
    if s.len() == 0 || size == 0 {
        seq![]
    } else if s.len() <= size {
        seq![s]
    } else {
        seq![s.subrange(0, size as int)] + chunks(s.subrange(size as int, s.len() as int), size)
    }
}

/// The outcomes of a packet-wise operation put together in order: the
/// concatenation of every result, or `None` if any packet failed.
pub open spec fn join_outcomes(os: Seq<Option<Seq<u8>>>) -> Option<Seq<u8>>
    decreases os.len(),
{
    if os.len() == 0 {
        Some(seq![])
    } else {
        match (join_outcomes(os.drop_last()), os.last()) {
            (Some(a), Some(b)) => Some(a + b),
            _ => None,
        }
    }
}

/// What sealing the packet `p` may give: nothing, or its ciphertext with a
/// tag, 16 bytes longer.
pub open spec fn seal_outcome(p: Seq<u8>, c: Option<Seq<u8>>) -> bool {
    c is Some ==> c->0.len() == p.len() + TAG_LEN
}

/// What opening the packet `c` may give: nothing, or a plaintext 16 bytes
/// shorter; a packet shorter than its tag never opens.
pub open spec fn open_outcome(c: Seq<u8>, p: Option<Seq<u8>>) -> bool {
    &&& c.len() < TAG_LEN ==> p is None
    &&& p is Some ==> p->0.len() + TAG_LEN == c.len()
}

/// `os` are outcomes of sealing the packets `ps`, one each, in order.
pub open spec fn sealing_outcomes(ps: Seq<Seq<u8>>, os: Seq<Option<Seq<u8>>>) -> bool {
    os.len() == ps.len() && forall|i: int| 0 <= i < os.len() ==> seal_outcome(ps[i], #[trigger] os[i])
}

/// `os` are outcomes of opening the packets `cs`, one each, in order.
pub open spec fn opening_outcomes(cs: Seq<Seq<u8>>, os: Seq<Option<Seq<u8>>>) -> bool {
    os.len() == cs.len() && forall|i: int| 0 <= i < os.len() ==> open_outcome(cs[i], #[trigger] os[i])
}

proof fn lemma_join_none(a: Seq<Option<Seq<u8>>>, b: Seq<Option<Seq<u8>>>)
    ensures
        join_outcomes(a.push(None) + b) is None,
    decreases b.len(),
{
    if b.len() == 0 {
        assert(a.push(None) + b =~= a.push(None));
        assert(a.push(None).drop_last() =~= a);
    } else {
        lemma_join_none(a, b.drop_last());
        assert((a.push(None) + b).drop_last() =~= a.push(None) + b.drop_last());
    }
}

proof fn lemma_chunks_step(s: Seq<u8>, size: nat, end: int)
    requires
        size > 0,
        s.len() > 0,
        end == if s.len() <= size { s.len() as int } else { size as int },
    ensures
        chunks(s, size) == seq![s.subrange(0, end)] + chunks(s.subrange(end, s.len() as int), size),
{
    if s.len() <= size {
        assert(s.subrange(0, end) =~= s);
        assert(s.subrange(end, s.len() as int) =~= Seq::<u8>::empty());
    }
}

/// Whether the peer that drew `local` against `peer` leads the handshake:
/// the larger draw initiates, and a tie decides nothing.
pub open spec fn initiator_role(local: u64, peer: u64) -> Option<bool> {
    if local == peer {
        None
    } else {
        Some(local > peer)
    }
}

/// Two peers that drew different numbers take opposite roles, whichever of them
/// drew first: exactly one of them initiates.
pub proof fn lemma_roles_complement(a: u64, b: u64)
    requires
        a != b,
    ensures
        initiator_role(a, b) is Some,
        initiator_role(b, a) is Some,
        initiator_role(a, b)->0 != initiator_role(b, a)->0,
{
}

/// Decrypting what was encrypted gives back as many bytes as went in.
pub proof fn lemma_sealed_opened_len(n: nat)
    ensures
        opened_len(sealed_len(n)) == n,
{
    if n > 0 {
        let k = packet_count(n, PACKET_LEN as nat);
        let m = sealed_len(n);
        assert((n - 1) as nat / 65519 + 1 == k);
        assert(m == n + 16 * k);
        assert(((m - 1) as nat / 65535 + 1) == k) by (nonlinear_arith)
            requires
                k == (n - 1) as nat / 65519 + 1,
                m == n + 16 * k,
                n > 0,
        {
            let q = (n - 1) as nat / 65519;
            let r = (n - 1) as nat % 65519;
            assert(n - 1 == 65519 * q + r);
            assert(m - 1 == 65535 * q + r + 16);
            assert(r + 16 < 65535);
        }
    }
}

/// Decides the role of this peer from its draw and the peer's: `Some(true)` to
/// initiate, `Some(false)` to respond, `None` to draw again.
pub fn initiator_from_draws(local: u64, peer: u64) -> (r: Option<bool>)
    ensures
        r == initiator_role(local, peer),
{
    if local == peer {
        None
    } else {
        Some(local > peer)
    }
}

/// Relies on snow's StatelessTransportState::write_message with nonce 0: the
/// message is the plaintext and a 16-byte tag.
#[verifier::external_body]
fn seal_packet(t: &StatelessTransportState, packet: &[u8]) -> (r: Result<Vec<u8>, snow::Error>)
    requires
        packet@.len() <= PACKET_LEN,
    ensures
        seal_outcome(packet@, if r is Ok { Some(r->Ok_0@) } else { None }),
{
    let mut msg = vec![0u8; packet.len() + TAG_LEN];
    t.write_message(0, packet, &mut msg).map(|_| msg)
}

/// Relies on snow's StatelessTransportState::read_message with nonce 0: a
/// message shorter than its tag fails, and the plaintext is the message
/// without its 16-byte tag.
#[verifier::external_body]
fn open_packet(t: &StatelessTransportState, packet: &[u8]) -> (r: Result<Vec<u8>, snow::Error>)
    ensures
        open_outcome(packet@, if r is Ok { Some(r->Ok_0@) } else { None }),
{
    let mut msg = vec![0u8; packet.len()];
    t.read_message(0, packet, &mut msg).map(|n| msg[..n].to_vec())
}

/// A Noise session in stateless transport mode, shared by every send and
/// receive of its channel.
#[derive(Clone)]
pub struct Snow {
    transport: Arc<StatelessTransportState>,
}

impl Snow {
    /// Wraps a transport state that a finished handshake produced.
    pub fn from_transport(transport: StatelessTransportState) -> (r: Snow) {
        Snow { transport: Arc::new(transport) }
    }

    /// Encrypts `buf` as consecutive packets of `PACKET_LEN` plaintext bytes
    /// (the last may be shorter), each sealed on its own.
    pub fn encrypt_packets(&self, buf: Vec<u8>) -> (r: Result<Vec<u8>, Failure>)
        ensures
            match r {
                Ok(c) => c@.len() == sealed_len(buf@.len()),
                Err(e) => e == Failure::InvalidData,
            },
            buf@.len() == 0 ==> (r matches Ok(c) && c@.len() == 0),
            exists|os: Seq<Option<Seq<u8>>>|
                #[trigger] sealing_outcomes(chunks(buf@, PACKET_LEN as nat), os) && match r {
                    Ok(c) => join_outcomes(os) == Some(c@),
                    Err(_) => join_outcomes(os) is None,
                },
    {
        let mut total: Vec<u8> = Vec::new();
        let mut start: usize = 0;
        let ghost all = chunks(buf@, PACKET_LEN as nat);
        let ghost mut done: Seq<Seq<u8>> = seq![];
        let ghost mut outs: Seq<Option<Seq<u8>>> = seq![];
        assert(buf@.subrange(0, buf@.len() as int) =~= buf@);
        assert(all =~= done + all);
        while start < buf.len()
            invariant
                all == chunks(buf@, PACKET_LEN as nat),
                all == done + chunks(buf@.subrange(start as int, buf@.len() as int), PACKET_LEN as nat),
                sealing_outcomes(done, outs),
                join_outcomes(outs) == Some(total@),
                start <= buf@.len(),
                start % PACKET_LEN == 0 || start == buf@.len(),
                total@.len() == start + TAG_LEN * packet_count(start as nat, PACKET_LEN as nat),
            decreases buf@.len() - start,
        {
            let end = if buf.len() - start > PACKET_LEN {
                start + PACKET_LEN
            } else {
                buf.len()
            };
            let packet = &buf[start..end];
            let ghost rest = buf@.subrange(start as int, buf@.len() as int);
            let ghost after = chunks(buf@.subrange(end as int, buf@.len() as int), PACKET_LEN as nat);
            proof {
                lemma_chunks_step(rest, PACKET_LEN as nat, end - start);
                assert(rest.subrange(0, end - start) =~= packet@);
                assert(rest.subrange(end - start, rest.len() as int) =~= buf@.subrange(
                    end as int,
                    buf@.len() as int,
                ));
                assert(all =~= done.push(packet@) + after);
            }
            match seal_packet(&self.transport, packet) {
                Ok(mut sealed) => {
                    let ghost sv = sealed@;
                    let ghost old_total = total@;
                    total.append(&mut sealed);
                    proof {
                        let o2 = outs.push(Some(sv));
                        assert(o2.drop_last() =~= outs);
                        assert(join_outcomes(o2) == Some(total@));
                        let d2 = done.push(packet@);
                        assert(sealing_outcomes(d2, o2)) by {
                            assert forall|i: int| 0 <= i < o2.len() implies seal_outcome(
                                d2[i],
                                #[trigger] o2[i],
                            ) by {
                                if i < outs.len() {
                                    assert(o2[i] == outs[i] && d2[i] == done[i]);
                                }
                            }
                        }
                        done = d2;
                        outs = o2;
                    }
                },
                Err(_) => {
                    proof {
                        let w = outs.push(None) + Seq::new(after.len(), |i: int| None::<Seq<u8>>);
                        lemma_join_none(outs, Seq::new(after.len(), |i: int| None::<Seq<u8>>));
                        assert(sealing_outcomes(all, w)) by {
                            assert forall|i: int| 0 <= i < w.len() implies seal_outcome(
                                all[i],
                                #[trigger] w[i],
                            ) by {
                                if i < outs.len() {
                                    assert(w[i] == outs[i] && all[i] == done[i]);
                                } else {
                                    assert(w[i] is None);
                                }
                            }
                        }
                    }
                    return Err(Failure::InvalidData);
                },
            }
            proof {
                let k = start as nat / 65519;
                if start > 0 {
                    assert(packet_count(start as nat, 65519) == k) by (nonlinear_arith)
                        requires
                            start % 65519 == 0,
                            start > 0,
                            k == start as nat / 65519,
                    {
                        assert(start == 65519 * k);
                        assert((start - 1) as nat / 65519 == k - 1);
                    }
                }
                assert(packet_count(end as nat, 65519) == k + 1) by (nonlinear_arith)
                    requires
                        start % 65519 == 0,
                        k == start as nat / 65519,
                        start < end <= start + 65519,
                {
                    assert(start == 65519 * k);
                    assert((end - 1) as nat / 65519 == k);
                }
            }
            start = end;
        }
        proof {
            assert(buf@.subrange(start as int, buf@.len() as int) =~= Seq::<u8>::empty());
            assert(done =~= all);
            assert(sealing_outcomes(all, outs));
        }
        Ok(total)
    }

    /// Decrypts packets of `PACKET_LEN + TAG_LEN` ciphertext bytes (the last may
    /// be shorter); a truncated or tampered packet fails with `Other`.
    pub fn decrypt(&self, buf: &[u8]) -> (r: Result<Vec<u8>, Failure>)
        ensures
            match r {
                Ok(p) => p@.len() == opened_len(buf@.len()),
                Err(e) => e == Failure::Other,
            },
            buf@.len() == 0 ==> (r matches Ok(p) && p@.len() == 0),
            exists|os: Seq<Option<Seq<u8>>>|
                #[trigger] opening_outcomes(chunks(buf@, (PACKET_LEN + TAG_LEN) as nat), os)
                    && match r {
                    Ok(p) => join_outcomes(os) == Some(p@),
                    Err(_) => join_outcomes(os) is None,
                },
    {
        let mut bytes: Vec<u8> = Vec::new();
        let mut start: usize = 0;
        let size: usize = PACKET_LEN + TAG_LEN;
        let ghost all = chunks(buf@, size as nat);
        let ghost mut done: Seq<Seq<u8>> = seq![];
        let ghost mut outs: Seq<Option<Seq<u8>>> = seq![];
        assert(buf@.subrange(0, buf@.len() as int) =~= buf@);
        assert(all =~= done + all);
        while start < buf.len()
            invariant
                all == chunks(buf@, size as nat),
                all == done + chunks(buf@.subrange(start as int, buf@.len() as int), size as nat),
                opening_outcomes(done, outs),
                join_outcomes(outs) == Some(bytes@),
                size == PACKET_LEN + TAG_LEN,
                start <= buf@.len(),
                start % size == 0 || start == buf@.len(),
                bytes@.len() == start - TAG_LEN * packet_count(start as nat, size as nat),
            decreases buf@.len() - start,
        {
            let end = if buf.len() - start > size {
                start + size
            } else {
                buf.len()
            };
            let packet = &buf[start..end];
            let ghost rest = buf@.subrange(start as int, buf@.len() as int);
            let ghost after = chunks(buf@.subrange(end as int, buf@.len() as int), size as nat);
            proof {
                lemma_chunks_step(rest, size as nat, end - start);
                assert(rest.subrange(0, end - start) =~= packet@);
                assert(rest.subrange(end - start, rest.len() as int) =~= buf@.subrange(
                    end as int,
                    buf@.len() as int,
                ));
                assert(all =~= done.push(packet@) + after);
            }
            match open_packet(&self.transport, packet) {
                Ok(mut opened) => {
                    let ghost pv = opened@;
                    bytes.append(&mut opened);
                    proof {
                        let o2 = outs.push(Some(pv));
                        assert(o2.drop_last() =~= outs);
                        assert(join_outcomes(o2) == Some(bytes@));
                        let d2 = done.push(packet@);
                        assert(opening_outcomes(d2, o2)) by {
                            assert forall|i: int| 0 <= i < o2.len() implies open_outcome(
                                d2[i],
                                #[trigger] o2[i],
                            ) by {
                                if i < outs.len() {
                                    assert(o2[i] == outs[i] && d2[i] == done[i]);
                                }
                            }
                        }
                        done = d2;
                        outs = o2;
                    }
                },
                Err(_) => {
                    proof {
                        let w = outs.push(None) + Seq::new(after.len(), |i: int| None::<Seq<u8>>);
                        lemma_join_none(outs, Seq::new(after.len(), |i: int| None::<Seq<u8>>));
                        assert(all == chunks(buf@, (PACKET_LEN + TAG_LEN) as nat));
                        assert(opening_outcomes(all, w)) by {
                            assert forall|i: int| 0 <= i < w.len() implies open_outcome(
                                all[i],
                                #[trigger] w[i],
                            ) by {
                                if i < outs.len() {
                                    assert(w[i] == outs[i] && all[i] == done[i]);
                                } else {
                                    assert(w[i] is None);
                                }
                            }
                        }
                        assert(opening_outcomes(chunks(buf@, (PACKET_LEN + TAG_LEN) as nat), w));
                    }
                    return Err(Failure::Other);
                },
            }
            proof {
                let k = start as nat / 65535;
                if start > 0 {
                    assert(packet_count(start as nat, 65535) == k) by (nonlinear_arith)
                        requires
                            start % 65535 == 0,
                            start > 0,
                            k == start as nat / 65535,
                    {
                        assert(start == 65535 * k);
                        assert((start - 1) as nat / 65535 == k - 1);
                    }
                }
                assert(packet_count(end as nat, 65535) == k + 1) by (nonlinear_arith)
                    requires
                        start % 65535 == 0,
                        k == start as nat / 65535,
                        start < end <= start + 65535,
                {
                    assert(start == 65535 * k);
                    assert((end - 1) as nat / 65535 == k);
                }
            }
            start = end;
        }
        proof {
            assert(buf@.subrange(start as int, buf@.len() as int) =~= Seq::<u8>::empty());
            assert(done =~= all);
            assert(opening_outcomes(all, outs));
            assert(all == chunks(buf@, (PACKET_LEN + TAG_LEN) as nat));
            assert(opening_outcomes(chunks(buf@, (PACKET_LEN + TAG_LEN) as nat), outs));
        }
        Ok(bytes)
    }
}

} // verus!
