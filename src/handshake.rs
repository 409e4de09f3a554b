//! The symmetric Noise handshake, as a state machine: each step takes the
//! payload of the record just received and says what to send and where the
//! handshake stands. The caller moves the records and draws the random numbers.
use vstd::prelude::*;

use snow::params::NoiseParams;
use snow::{HandshakeState, StatelessTransportState};

use crate::error::Failure;
use crate::formats::{bincode_bytes, bincode_frames_bytes, le_bytes, le_value, Bincode};
use crate::noise::{initiator_role, Snow};

verus! {

#[verifier::external_type_specification]
#[verifier::external_body]
pub struct ExNoiseParams(snow::params::NoiseParams);

#[verifier::external_type_specification]
#[verifier::external_body]
pub struct ExHandshakeState(snow::HandshakeState);

/// The suite used when none is chosen.
pub const DEFAULT_NOISE_PARAMS: &'static str = "Noise_NN_25519_ChaChaPoly_BLAKE2s";

/// Longest public key that snow's builder takes.
pub const MAX_KEY_LEN: usize = 56;

/// Room for one handshake message.
pub const HANDSHAKE_MSG_LEN: usize = 256;

/// The name of the suite used when none is chosen.
pub open spec fn default_suite() -> Seq<char> {
    DEFAULT_NOISE_PARAMS@
}

/// Whether snow reads `name` as a Noise suite.
pub uninterp spec fn parses_suite(name: Seq<char>) -> bool;

/// Relies on snow's `NoiseParams::from_str` to read a suite name; it reads the
/// default suite's name.
#[verifier::external_body]
fn parse_params(name: &str) -> (r: Result<NoiseParams, snow::Error>)
    ensures
        r is Ok <==> parses_suite(name@),
        name@ == default_suite() ==> r is Ok,
{
    name.parse()
}

/// Relies on snow's `Builder::generate_keypair`: a fresh private and public
/// key, sized by the default resolver's only DH, Curve25519 (32 bytes each).
#[verifier::external_body]
fn generate_keypair(params: &NoiseParams) -> (r: Result<(Vec<u8>, Vec<u8>), snow::Error>)
    ensures
        r is Ok ==> r->Ok_0.0@.len() == 32 && r->Ok_0.1@.len() == 32,
{
    snow::Builder::new(params.clone()).generate_keypair().map(|k| (k.private, k.public))
}

/// Relies on snow's `Builder::build_initiator`, with the local private key and
/// the peer's public key set (the builder copies a private key of at most 32
/// bytes and a remote key of at most 56 bytes).
#[verifier::external_body]
fn build_initiator(params: &NoiseParams, private: &[u8], remote: &[u8]) -> (r: Result<
    HandshakeState,
    snow::Error,
>)
    requires
        private@.len() <= 32,
        remote@.len() <= MAX_KEY_LEN,
{
    snow::Builder::new(params.clone()).local_private_key(private).remote_public_key(
        remote,
    ).build_initiator()
}

/// Relies on snow's `Builder::build_responder`, with the local private key and
/// the peer's public key set (the builder copies a private key of at most 32
/// bytes and a remote key of at most 56 bytes).
#[verifier::external_body]
fn build_responder(params: &NoiseParams, private: &[u8], remote: &[u8]) -> (r: Result<
    HandshakeState,
    snow::Error,
>)
    requires
        private@.len() <= 32,
        remote@.len() <= MAX_KEY_LEN,
{
    snow::Builder::new(params.clone()).local_private_key(private).remote_public_key(
        remote,
    ).build_responder()
}

/// Relies on snow's `HandshakeState::write_message` with an empty payload: the
/// next handshake message, written into 256 bytes.
#[verifier::external_body]
fn write_handshake(state: &mut HandshakeState) -> (r: Result<Vec<u8>, snow::Error>)
    ensures
        r is Ok ==> r->Ok_0@.len() <= HANDSHAKE_MSG_LEN,
{
    let mut buf = vec![0u8; HANDSHAKE_MSG_LEN];
    state.write_message(&[], &mut buf).map(|n| buf[..n].to_vec())
}

/// Relies on snow's `HandshakeState::read_message`: takes in the peer's
/// handshake message.
#[verifier::external_body]
fn read_handshake(state: &mut HandshakeState, msg: &[u8]) -> (r: Result<(), snow::Error>) {
    let mut buf = vec![0u8; HANDSHAKE_MSG_LEN];
    state.read_message(msg, &mut buf).map(|_| ())
}

/// Relies on snow's `HandshakeState::into_stateless_transport_mode`.
#[verifier::external_body]
fn into_transport(state: HandshakeState) -> (r: Result<StatelessTransportState, snow::Error>) {
    state.into_stateless_transport_mode()
}

/// Where a handshake stands, as far as the messages go.
pub enum Stage {
    /// Our draw was sent; the peer's is awaited.
    AwaitDraw(u64),
    /// Roles are settled; the peer's public key is awaited.
    AwaitPeerKey(bool),
    /// The initiator sent its handshake message and awaits the reply.
    AwaitReply,
    /// The responder awaits the initiator's handshake message.
    AwaitFirst,
}

enum Phase {
    AwaitDraw { local: u64 },
    AwaitPeerKey { initiator: bool, private: Vec<u8>, public: Vec<u8> },
    AwaitReply { state: HandshakeState },
    AwaitFirst { state: HandshakeState },
}

/// A handshake in progress.
pub struct Handshake {
    params: NoiseParams,
    phase: Phase,
    suite: Ghost<Seq<char>>,
}

/// What a step of the handshake produced.
pub enum Step {
    /// The handshake goes on; send these record payloads, in order.
    Continue(Handshake, Vec<Vec<u8>>),
    /// The handshake is done; send these record payloads, then use the session.
    Done(Snow, Vec<Vec<u8>>),
}

impl Handshake {
    /// Where this handshake stands.
    pub closed spec fn stage(&self) -> Stage {
        match self.phase {
            Phase::AwaitDraw { local } => Stage::AwaitDraw(local),
            Phase::AwaitPeerKey { initiator, .. } => Stage::AwaitPeerKey(initiator),
            Phase::AwaitReply { .. } => Stage::AwaitReply,
            Phase::AwaitFirst { .. } => Stage::AwaitFirst,
        }
    }

    /// The name of the suite this handshake runs.
    pub closed spec fn suite(&self) -> Seq<char> {
        self.suite@
    }

    /// The public key this peer generated, while the peer's key is awaited.
    pub closed spec fn public_key(&self) -> Seq<u8> {
        match self.phase {
            Phase::AwaitPeerKey { public, .. } => public@,
            _ => seq![],
        }
    }

    /// Starts a handshake with the default suite and the draw `local`; the
    /// payload to send first is the draw in bincode.
    pub fn new(local: u64) -> (r: Result<(Handshake, Vec<u8>), Failure>)
        ensures
            r is Ok,
            r matches Ok((h, send)) ==> h.stage() == Stage::AwaitDraw(local) && h.suite()
                == default_suite() && send@ == le_bytes(local),
    {
        Handshake::new_with_params(DEFAULT_NOISE_PARAMS, local)
    }

    /// Starts a handshake with the suite named `params` and the draw `local`; a
    /// name that snow does not read as a suite is `Other`.
    pub fn new_with_params(params: &str, local: u64) -> (r: Result<(Handshake, Vec<u8>), Failure>)
        ensures
            r is Ok <==> parses_suite(params@),
            params@ == default_suite() ==> r is Ok,
            r matches Ok((h, send)) ==> h.stage() == Stage::AwaitDraw(local) && h.suite() == params@
                && send@ == le_bytes(local),
            r is Err ==> r->Err_0 == Failure::Other,
    {
        match parse_params(params) {
            Ok(p) => Ok(
                (
                    Handshake { params: p, phase: Phase::AwaitDraw { local }, suite: Ghost(params@) },
                    Bincode.serialize_u64(local),
                ),
            ),
            Err(_) => Err(Failure::Other),
        }
    }

    /// Takes the payload of the record just received. `fresh` is a new random
    /// draw, used only when the two draws tie. Records that do not decode are
    /// `InvalidData`; failures of the Noise machinery are `Other`.
    pub fn step(self, payload: &[u8], fresh: u64) -> (r: Result<Step, Failure>)
        ensures
            r matches Ok(Step::Continue(h, _)) ==> h.suite() == self.suite(),
            match self.stage() {
                Stage::AwaitDraw(local) => {
                    &&& payload@.len() < 8 ==> r == Err::<Step, Failure>(Failure::InvalidData)
                    &&& payload@.len() >= 8 && le_value(payload@) == local ==> (r matches Ok(
                        Step::Continue(h, send),
                    ) && h.stage() == Stage::AwaitDraw(fresh) && send@.len() == 1 && send@[0]@
                        == le_bytes(fresh))
                    &&& payload@.len() >= 8 && le_value(payload@) != local ==> match r {
                        Ok(Step::Continue(h, send)) => h.stage() == Stage::AwaitPeerKey(
                            initiator_role(local, le_value(payload@))->0,
                        ) && h.public_key().len() == 32 && (if initiator_role(
                            local,
                            le_value(payload@),
                        )->0 {
                            send@.len() == 1 && send@[0]@ == bincode_bytes(h.public_key())
                        } else {
                            send@.len() == 0
                        }),
                        Ok(Step::Done(..)) => false,
                        Err(e) => e == Failure::Other,
                    }
                },
                Stage::AwaitPeerKey(initiator) => {
                    &&& !bincode_frames_bytes(payload@) || le_value(payload@) > MAX_KEY_LEN ==> r
                        == Err::<Step, Failure>(Failure::InvalidData)
                    &&& match r {
                        Ok(Step::Continue(h, send)) => send@.len() == 1 && (if initiator {
                            h.stage() == Stage::AwaitReply && exists|m: Seq<u8>|
                                m.len() <= HANDSHAKE_MSG_LEN && #[trigger] bincode_bytes(m)
                                    == send@[0]@
                        } else {
                            h.stage() == Stage::AwaitFirst && send@[0]@ == bincode_bytes(
                                self.public_key(),
                            )
                        }),
                        Ok(Step::Done(..)) => false,
                        Err(e) => bincode_frames_bytes(payload@) && le_value(payload@) <= MAX_KEY_LEN
                            ==> e == Failure::Other,
                    }
                },
                Stage::AwaitFirst => {
                    &&& !bincode_frames_bytes(payload@) ==> r == Err::<Step, Failure>(
                        Failure::InvalidData,
                    )
                    &&& match r {
                        Ok(Step::Done(_, send)) => send@.len() == 1 && exists|m: Seq<u8>|
                            m.len() <= HANDSHAKE_MSG_LEN && #[trigger] bincode_bytes(m) == send@[0]@,
                        Ok(Step::Continue(..)) => false,
                        Err(e) => bincode_frames_bytes(payload@) ==> e == Failure::Other,
                    }
                },
                Stage::AwaitReply => {
                    &&& !bincode_frames_bytes(payload@) ==> r == Err::<Step, Failure>(
                        Failure::InvalidData,
                    )
                    &&& match r {
                        Ok(Step::Done(_, send)) => send@.len() == 0,
                        Ok(Step::Continue(..)) => false,
                        Err(e) => bincode_frames_bytes(payload@) ==> e == Failure::Other,
                    }
                },
            },
    {
        let Handshake { params, phase, suite } = self;
        match phase {
            Phase::AwaitDraw { local } => {
                let peer = Bincode.deserialize_u64(payload)?;
                match crate::noise::initiator_from_draws(local, peer) {
                    None => {
                        let mut send: Vec<Vec<u8>> = Vec::new();
                        send.push(Bincode.serialize_u64(fresh));
                        Ok(Step::Continue(Handshake { params, phase: Phase::AwaitDraw { local: fresh }, suite }, send))
                    },
                    Some(initiator) => {
                        let (private, public) = match generate_keypair(&params) {
                            Ok(k) => k,
                            Err(_) => {
                                return Err(Failure::Other);
                            },
                        };
                        let mut send: Vec<Vec<u8>> = Vec::new();
                        if initiator {
                            send.push(Bincode.serialize_bytes(public.as_slice()));
                        }
                        Ok(
                            Step::Continue(
                                Handshake { params, phase: Phase::AwaitPeerKey { initiator, private, public }, suite },
                                send,
                            ),
                        )
                    },
                }
            },
            Phase::AwaitPeerKey { initiator, private, public } => {
                let remote = Bincode.deserialize_bytes(payload)?;
                if remote.len() > MAX_KEY_LEN {
                    return Err(Failure::InvalidData);
                }
                if private.len() > 32 {
                    return Err(Failure::Other);
                }
                let mut send: Vec<Vec<u8>> = Vec::new();
                if initiator {
                    let mut state = match build_initiator(&params, private.as_slice(), remote.as_slice()) {
                        Ok(s) => s,
                        Err(_) => {
                            return Err(Failure::Other);
                        },
                    };
                    let msg = match write_handshake(&mut state) {
                        Ok(m) => m,
                        Err(_) => {
                            return Err(Failure::Other);
                        },
                    };
                    send.push(Bincode.serialize_bytes(msg.as_slice()));
                    Ok(Step::Continue(Handshake { params, phase: Phase::AwaitReply { state }, suite }, send))
                } else {
                    let state = match build_responder(&params, private.as_slice(), remote.as_slice()) {
                        Ok(s) => s,
                        Err(_) => {
                            return Err(Failure::Other);
                        },
                    };
                    send.push(Bincode.serialize_bytes(public.as_slice()));
                    Ok(Step::Continue(Handshake { params, phase: Phase::AwaitFirst { state }, suite }, send))
                }
            },
            Phase::AwaitFirst { mut state } => {
                let msg = Bincode.deserialize_bytes(payload)?;
                if read_handshake(&mut state, msg.as_slice()).is_err() {
                    return Err(Failure::Other);
                }
                let reply = match write_handshake(&mut state) {
                    Ok(m) => m,
                    Err(_) => {
                        return Err(Failure::Other);
                    },
                };
                let mut send: Vec<Vec<u8>> = Vec::new();
                send.push(Bincode.serialize_bytes(reply.as_slice()));
                match into_transport(state) {
                    Ok(t) => Ok(Step::Done(Snow::from_transport(t), send)),
                    Err(_) => Err(Failure::Other),
                }
            },
            Phase::AwaitReply { mut state } => {
                let msg = Bincode.deserialize_bytes(payload)?;
                if read_handshake(&mut state, msg.as_slice()).is_err() {
                    return Err(Failure::Other);
                }
                match into_transport(state) {
                    Ok(t) => Ok(Step::Done(Snow::from_transport(t), Vec::new())),
                    Err(_) => Err(Failure::Other),
                }
            },
        }
    }
}

} // verus!
