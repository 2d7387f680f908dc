//! Peer identities and the listing of the peers that the peer-information service
//! knows.
use vstd::prelude::*;
use crate::codec::{decode, decode_text, encode, encode_text, lemma_decode_encode, lemma_decode_len, text_len};
use crate::error::{IoError, NextPeerError, ReadMessageError};
use crate::framing::{
    be32_at, be32_bytes, frame_of, header_bytes, read_message, write_message, ByteReader,
};

verus! {

/// Number of bytes in a peer identity.
pub const PEER_IDENTITY_LEN: usize = 32;

/// Message type of a request for all known peers.
pub const MESSAGE_TYPE_PEERINFO_GET_ALL: u16 = 331;

/// Message type of one entry of a peer listing.
pub const MESSAGE_TYPE_PEERINFO_INFO: u16 = 332;

/// Message type that ends a peer listing.
pub const MESSAGE_TYPE_PEERINFO_INFO_END: u16 = 333;

/// Length of a request for all known peers: the header and a `u32` of flags.
pub const GET_ALL_LEN: u16 = 8;

/// Number of payload bytes of a listing entry before its optional HELLO: a
/// reserved `u32` and the identity.
pub const INFO_FIXED_LEN: usize = 36;

/// The identity of a peer: the 32 bytes of its public key.
#[derive(Clone, Debug, Hash)]
pub struct PeerIdentity {
    data: Vec<u8>,
}

impl View for PeerIdentity {
    type V = Seq<u8>;

    closed spec fn view(&self) -> Seq<u8> {
        self.data@
    }
}

/// The error of reading a peer identity from text that does not encode one.
#[derive(Debug, PartialEq, Eq, Structural)]
pub struct PeerIdentityFromStrError;

/// The HELLO that may follow an identity in a listing entry, kept as the raw,
/// undecoded bytes that the service sent.
#[derive(Clone, Debug, PartialEq, Eq)]
pub struct Hello {
    pub bytes: Vec<u8>,
}

/// Text of the error of a stream that ends before a value is complete.
pub open spec fn short_read_text() -> Seq<char> {
    "failed to fill whole buffer"@
}

impl PeerIdentity {
    /// Whether the identity holds exactly `PEER_IDENTITY_LEN` bytes.
    pub open spec fn wf(&self) -> bool {
        self@.len() == PEER_IDENTITY_LEN
    }

    /// Reads an identity: its raw 32 bytes. Fails, reading nothing, where fewer
    /// bytes are left.
    pub fn deserialize(r: &mut ByteReader) -> (res: Result<PeerIdentity, IoError>)
        requires
            old(r).wf(),
        ensures
            final(r).wf(),
            old(r)@.len() >= PEER_IDENTITY_LEN <==> res is Ok,
            res matches Ok(p) ==> (p.wf() && p@ == old(r)@.take(PEER_IDENTITY_LEN as int)
                && final(r)@ == old(r)@.skip(PEER_IDENTITY_LEN as int)),
            res matches Err(e) ==> (e.description@ == short_read_text() && final(r)@ == old(r)@),
    {
        match r.read_exact(PEER_IDENTITY_LEN) {
            Some(data) => Ok(PeerIdentity { data }),
            None => {
                let description = String::from_str("failed to fill whole buffer");
                Err(IoError { description })
            },
        }
    }

    /// Appends the raw 32 bytes of the identity to `w`.
    pub fn serialize(&self, w: &mut Vec<u8>)
        ensures
            final(w)@ == old(w)@ + self@,
    {
        let mut i: usize = 0;
        while i < self.data.len()
            invariant
                i <= self@.len(),
                w@ == old(w)@ + self@.take(i as int),
            decreases self@.len() - i,
        {
            w.push(self.data[i]);
            i = i + 1;
            assert(w@ =~= old(w)@ + self@.take(i as int));
        }
        assert(self@.take(i as int) == self@);
    }

    /// The bytes of the identity.
    pub fn as_bytes(&self) -> (r: &Vec<u8>)
        ensures
            r@ == self@,
    {
        &self.data
    }

    /// The text form of the identity.
    pub fn to_string(&self) -> (r: String)
        requires
            self.wf(),
        ensures
            r@ == encode_text(self@),
            r@.len() == text_len(PEER_IDENTITY_LEN as nat),
    {
        proof {
            lemma_decode_encode(self@);
        }
        encode(&self.data)
    }

    /// Reads an identity from its text form.
    pub fn from_str(s: &str) -> (r: Result<PeerIdentity, PeerIdentityFromStrError>)
        ensures
            match r {
                Ok(p) => p.wf() && decode_text(s@, PEER_IDENTITY_LEN as nat) == Some(p@),
                Err(_) => decode_text(s@, PEER_IDENTITY_LEN as nat) is None,
            },
    {
        match decode(s, PEER_IDENTITY_LEN) {
            Some(data) => {
                proof {
                    lemma_decode_len(s@, PEER_IDENTITY_LEN as nat);
                }
                Ok(PeerIdentity { data })
            },
            None => Err(PeerIdentityFromStrError),
        }
    }
}

/// Reading the text form of an identity gives back the identity; the text has 52
/// characters.
pub proof fn lemma_peer_identity_text_round_trip(x: PeerIdentity)
    requires
        x.wf(),
    ensures
        decode_text(encode_text(x@), PEER_IDENTITY_LEN as nat) == Some(x@),
        encode_text(x@).len() == 52,
{
    lemma_decode_encode(x@);
}

/// The request for all known peers.
pub open spec fn get_all_request() -> Seq<u8> {
    header_bytes(GET_ALL_LEN, MESSAGE_TYPE_PEERINFO_GET_ALL) + be32_bytes(0)
}

/// Starts a listing of all the peers that the service knows: appends the request
/// to `outgoing` and returns the listing over the service's replies `incoming`.
pub fn iterate_peers(outgoing: &mut Vec<u8>, incoming: ByteReader) -> (r: Peers)
    requires
        incoming.wf(),
    ensures
        final(outgoing)@ == old(outgoing)@ + get_all_request(),
        r.wf(),
        r.pending()@ == incoming@,
        !r.is_finished(),
{
    let mut mw = write_message(GET_ALL_LEN, MESSAGE_TYPE_PEERINFO_GET_ALL);
    mw.write_u32(0);
    let sent = mw.send(outgoing);
    assert(sent is Ok);
    Peers { service: incoming, finished: false }
}

/// A listing of peers: a forward-only sequence of entries read from the service's
/// replies. It ends at the end message or at the first error, and cannot be
/// restarted.
#[derive(Clone, Debug)]
pub struct Peers {
    service: ByteReader,
    finished: bool,
}

impl Peers {
    /// The replies of the service that are still to be read.
    pub closed spec fn pending(&self) -> ByteReader {
        self.service
    }

    /// Whether the listing has ended.
    pub closed spec fn is_finished(&self) -> bool {
        self.finished
    }

    /// Whether the cursor over the replies is well formed.
    pub open spec fn wf(&self) -> bool {
        self.pending().wf()
    }

    /// The next entry: a peer's identity with the HELLO that may follow it, or an
    /// error. `None` once the listing has ended.
    pub fn next(&mut self) -> (r: Option<Result<(PeerIdentity, Option<Hello>), NextPeerError>>)
        requires
            old(self).wf(),
        ensures
            final(self).wf(),
            old(self).is_finished() ==> r is None && *final(self) == *old(self),
            !old(self).is_finished() ==> match frame_of(old(self).pending()@) {
                Err(ReadMessageError::Disconnected) => r == Some(
                    Err::<(PeerIdentity, Option<Hello>), NextPeerError>(NextPeerError::Disconnected),
                ) && final(self).is_finished(),
                Err(e) => r == Some(
                    Err::<(PeerIdentity, Option<Hello>), NextPeerError>(NextPeerError::ReadMessage(e)),
                ) && final(self).is_finished(),
                Ok((t, p, len)) => final(self).pending()@ == old(self).pending()@.skip(len) && if t
                    == MESSAGE_TYPE_PEERINFO_INFO_END {
                    r is None && final(self).is_finished()
                } else if t != MESSAGE_TYPE_PEERINFO_INFO {
                    r == Some(
                        Err::<(PeerIdentity, Option<Hello>), NextPeerError>(
                            NextPeerError::UnexpectedMessageType(t),
                        ),
                    ) && final(self).is_finished()
                } else if p.len() < 4 {
                    r == Some(
                        Err::<(PeerIdentity, Option<Hello>), NextPeerError>(NextPeerError::Disconnected),
                    ) && final(self).is_finished()
                } else if be32_at(p, 0) != 0 {
                    r == Some(
                        Err::<(PeerIdentity, Option<Hello>), NextPeerError>(NextPeerError::InvalidResponse),
                    ) && final(self).is_finished()
                } else if p.len() < INFO_FIXED_LEN {
                    (r matches Some(Err(NextPeerError::Io(e))) && e.description@ == short_read_text())
                        && final(self).is_finished()
                } else {
                    (r matches Some(Ok((id, hello))) && id.wf() && id@ == p.subrange(4, INFO_FIXED_LEN as int)
                        && (hello is None <==> p.len() == INFO_FIXED_LEN)
                        && (hello matches Some(h) ==> h.bytes@ == p.skip(INFO_FIXED_LEN as int)))
                        && !final(self).is_finished()
                },
            },
    {
        if self.finished {
            return None;
        }
        let (tpe, mut mr) = match read_message(&mut self.service) {
            Err(e) => {
                self.finished = true;
                return match e {
                    ReadMessageError::Disconnected => Some(Err(NextPeerError::Disconnected)),
                    e => Some(Err(NextPeerError::ReadMessage(e))),
                };
            },
            Ok(x) => x,
        };
        if tpe == MESSAGE_TYPE_PEERINFO_INFO_END {
            self.finished = true;
            return None;
        }
        if tpe != MESSAGE_TYPE_PEERINFO_INFO {
            self.finished = true;
            return Some(Err(NextPeerError::UnexpectedMessageType(tpe)));
        }
        let ghost p = mr@;
        match mr.read_u32() {
            None => {
                self.finished = true;
                Some(Err(NextPeerError::Disconnected))
            },
            Some(reserved) => {
                if reserved != 0 {
                    self.finished = true;
                    return Some(Err(NextPeerError::InvalidResponse));
                }
                match PeerIdentity::deserialize(&mut mr) {
                    Err(e) => {
                        self.finished = true;
                        Some(Err(NextPeerError::Io(e)))
                    },
                    Ok(pi) => {
                        assert(pi@ =~= p.subrange(4, INFO_FIXED_LEN as int));
                        let rest = mr.read_to_end();
                        assert(rest@ =~= p.skip(INFO_FIXED_LEN as int));
                        let hello = if rest.len() == 0 {
                            None
                        } else {
                            Some(Hello { bytes: rest })
                        };
                        Some(Ok((pi, hello)))
                    },
                }
            },
        }
    }
}

} // verus!
