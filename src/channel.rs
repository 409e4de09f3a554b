//! A channel over a byte stream (records carry a length prefix) or a message
//! stream (each message is one record), with optional Noise encryption. The
//! channel turns values into the bytes to write and read bytes into values;
//! the transport itself moves them.
use vstd::prelude::*;

use crate::error::Failure;
use crate::formats::{encoding, reading, Format, ReadFormat, SendFormat};
use crate::noise::{sealed_len, Snow};
use crate::record::{encode_record, record_of};

verus! {

/// The two shapes of transport a channel can run over.
#[derive(Debug, Clone, Copy, PartialEq, Eq, Structural)]
pub enum Transport {
    /// A duplex byte stream: each record carries an eight-byte length prefix.
    Stream,
    /// A duplex message stream: each binary message is one record.
    Message,
}

/// The bytes written for a record body `body` on a transport of kind `t`.
pub open spec fn framed(t: Transport, body: Seq<u8>) -> Seq<u8> {
    match t {
        Transport::Stream => record_of(body),
        Transport::Message => body,
    }
}

/// A typed, optionally encrypted channel.
pub struct Channel {
    transport: Transport,
    snow: Option<Snow>,
}

impl Channel {
    /// A channel without encryption.
    pub fn new(transport: Transport) -> (r: Channel)
        ensures
            r.transport() == transport,
            !r.is_encrypted(),
    {
        Channel { transport, snow: None }
    }

    /// A channel whose records are encrypted with `snow`.
    pub fn encrypted(transport: Transport, snow: Snow) -> (r: Channel)
        ensures
            r.transport() == transport,
            r.is_encrypted(),
    {
        Channel { transport, snow: Some(snow) }
    }

    /// The kind of transport this channel runs over.
    pub closed spec fn transport(&self) -> Transport {
        self.transport
    }

    /// Whether the channel encrypts its records.
    pub closed spec fn is_encrypted(&self) -> bool {
        self.snow is Some
    }

    /// The same channel without its encryption: the untyped handle that the
    /// introduction protocol works on.
    pub fn bare(self) -> (r: Channel)
        ensures
            r.transport() == self.transport(),
            !r.is_encrypted(),
    {
        Channel { transport: self.transport, snow: None }
    }

    /// The bytes to write for one record whose body is `payload`, encrypted
    /// first when the channel is encrypted.
    pub fn frame(&self, payload: Vec<u8>) -> (r: Result<Vec<u8>, Failure>)
        ensures
            !self.is_encrypted() ==> (r matches Ok(b) && b@ == framed(self.transport(), payload@)),
            self.is_encrypted() ==> match r {
                Ok(b) => exists|c: Seq<u8>|
                    c.len() == sealed_len(payload@.len()) && b@ == framed(self.transport(), c),
                Err(e) => e == Failure::InvalidData,
            },
    {
        let ghost plen = payload@.len();
        let body = match &self.snow {
            Some(snow) => snow.encrypt_packets(payload)?,
            None => payload,
        };
        assert(self.is_encrypted() ==> body@.len() == sealed_len(plen));
        let out = match self.transport {
            Transport::Stream => encode_record(body.as_slice()),
            Transport::Message => body,
        };
        assert(out@ == framed(self.transport(), body@));
        Ok(out)
    }

    /// The payload of a received record body, decrypted when the channel is
    /// encrypted (a truncated or tampered body fails with `Other`).
    pub fn open(&self, body: &[u8]) -> (r: Result<Vec<u8>, Failure>)
        ensures
            !self.is_encrypted() ==> (r matches Ok(p) && p@ == body@),
            self.is_encrypted() ==> (r is Err ==> r->Err_0 == Failure::Other),
    {
        match &self.snow {
            Some(snow) => snow.decrypt(body),
            None => {
                let mut out: Vec<u8> = Vec::new();
                let mut i: usize = 0;
                while i < body.len()
                    invariant
                        i <= body@.len(),
                        out@ == body@.subrange(0, i as int),
                    decreases body@.len() - i,
                {
                    out.push(body[i]);
                    i = i + 1;
                    assert(body@.subrange(0, i as int) =~= body@.subrange(0, i - 1) + seq![
                        body@[i - 1],
                    ]);
                }
                assert(body@.subrange(0, body@.len() as int) =~= body@);
                Ok(out)
            },
        }
    }

    /// The bytes to write to send the string `s` in `format`; a format that
    /// writes nothing for `s` gives `InvalidData`.
    pub fn send(&self, s: &str, format: Format) -> (r: Result<Vec<u8>, Failure>)
        ensures
            !self.is_encrypted() ==> match r {
                Ok(b) => encoding(format, s@) is Some && b@ == framed(
                    self.transport(),
                    encoding(format, s@)->0,
                ),
                Err(e) => e == Failure::InvalidData && encoding(format, s@) is None,
            },
            encoding(format, s@) is None ==> r == Err::<Vec<u8>, Failure>(Failure::InvalidData),
            r is Err ==> r->Err_0 == Failure::InvalidData,
    {
        let payload = format.serialize(s)?;
        self.frame(payload)
    }

    /// The string carried by a received record body, in `format`. On a channel
    /// without encryption, what `send` framed for a string reads back as it,
    /// and a body that holds no string is `InvalidData`.
    pub fn receive(&self, body: &[u8], format: Format) -> (r: Result<String, Failure>)
        ensures
            !self.is_encrypted() ==> match r {
                Ok(v) => reading(format, body@) == Some(v@),
                Err(e) => e == Failure::InvalidData && reading(format, body@) is None,
            },
            !self.is_encrypted() ==> forall|s: Seq<char>|
                encoding(format, s) == Some(body@) ==> (r is Ok && r->Ok_0@ == s),
    {
        let payload = self.open(body)?;
        let r = format.deserialize(payload.as_slice());
        assert forall|s: Seq<char>| !self.is_encrypted() && encoding(format, s) == Some(body@) implies (
        r is Ok && r->Ok_0@ == s) by {
            assert(format.encoding_of(s) == encoding(format, s));
        }
        r
    }
}

} // verus!
