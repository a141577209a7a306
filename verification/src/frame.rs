//! The datagram as it travels: one frame per rumor.
//!
//! A frame is a header of six bytes, the wire version, the kind tag and the
//! length of the body, followed by the body. The body holds the sender's id,
//! the rumor's key, its version and its payload, in that order. The length
//! in the header lets a reader pass over fields that a later writer has put
//! behind the payload.

use vstd::prelude::*;
use vstd::bytes::*;
use crate::error::Error;
use crate::wire::{
    lemma_int_widths, lemma_prefixed_at_is_written, lemma_prefixed_at_written,
    lemma_u64_at_is_written, lemma_u64_at_written, put_prefixed, put_u32, put_u64, read_prefixed,
    read_u32, read_u64, spec_prefixed, spec_prefixed_at, spec_u64_at, MAX_LEN,
};

verus! {

/// The wire version that this library writes and reads.
pub const WIRE_VERSION: u8 = 1;

/// Bytes in front of the body.
pub const HEADER_LEN: usize = 6;

/// A datagram taken apart, before its payload is read by kind.
#[derive(Debug)]
pub struct Frame {
    pub tag: u8,
    pub from_id: Vec<u8>,
    pub key: Vec<u8>,
    pub version: u64,
    pub payload: Vec<u8>,
}

/// A [`Frame`] as a mathematical value.
pub struct FrameView {
    pub tag: u8,
    pub from_id: Seq<u8>,
    pub key: Seq<u8>,
    pub version: u64,
    pub payload: Seq<u8>,
}

impl View for Frame {
    type V = FrameView;

    open spec fn view(&self) -> FrameView {
        FrameView {
            tag: self.tag,
            from_id: self.from_id@,
            key: self.key@,
            version: self.version,
            payload: self.payload@,
        }
    }
}

impl FrameView {
    /// The body: the four fields in their written forms.
    pub open spec fn body(self) -> Seq<u8> {
        spec_prefixed(self.from_id) + spec_prefixed(self.key) + spec_u64_to_le_bytes(self.version)
            + spec_prefixed(self.payload)
    }

    /// Whether the frame has a written form: the body's length fits the
    /// header, and with it each field's length its prefix.
    pub open spec fn fits(self) -> bool {
        self.from_id.len() + self.key.len() + self.payload.len() + 20 <= MAX_LEN
    }

    /// The written form.
    pub open spec fn emit(self) -> Seq<u8> {
        seq![WIRE_VERSION, self.tag] + spec_u32_to_le_bytes(self.body().len() as u32) + self.body()
    }
}

/// The sender's id, read from the front of a datagram without looking at
/// what follows it.
pub open spec fn spec_sender(s: Seq<u8>) -> Option<Seq<u8>> {
    if s.len() < HEADER_LEN || s[0] != WIRE_VERSION {
        None
    } else {
        match spec_prefixed_at(s, HEADER_LEN as int) {
            Some((from_id, _)) => Some(from_id),
            None => None,
        }
    }
}

/// The frame that a datagram holds, with the position at which its known
/// fields end. `None` where the header is cut short or of another version,
/// where the length in the header is not the length of what follows, or
/// where a field runs over the end.
pub open spec fn spec_parse(s: Seq<u8>) -> Option<(FrameView, int)> {
    if s.len() < HEADER_LEN || s[0] != WIRE_VERSION {
        None
    } else if s.len() != HEADER_LEN + spec_u32_from_le_bytes(s.subrange(2, 6)) {
        None
    } else {
        match spec_prefixed_at(s, HEADER_LEN as int) {
            None => None,
            Some((from_id, p1)) => match spec_prefixed_at(s, p1) {
                None => None,
                Some((key, p2)) => match spec_u64_at(s, p2) {
                    None => None,
                    Some((version, p3)) => match spec_prefixed_at(s, p3) {
                        None => None,
                        Some((payload, p4)) => Some(
                            (FrameView { tag: s[1], from_id, key, version, payload }, p4),
                        ),
                    },
                },
            },
        }
    }
}

/// Whether a datagram holds a frame and nothing behind its known fields.
pub open spec fn spec_exact(s: Seq<u8>) -> bool {
    spec_parse(s) matches Some((_, end)) && end == s.len()
}

/// The body is as long as its fields and their prefixes.
pub proof fn lemma_body_len(f: FrameView)
    ensures
        f.body().len() == f.from_id.len() + f.key.len() + f.payload.len() + 20,
        f.emit().len() == HEADER_LEN + f.body().len(),
{
    lemma_int_widths(0, f.version);
    lemma_int_widths(f.from_id.len() as u32, 0);
    lemma_int_widths(f.key.len() as u32, 0);
    lemma_int_widths(f.payload.len() as u32, 0);
    lemma_int_widths(f.body().len() as u32, 0);
}

/// A frame that was written is read back as it was, with nothing left over.
pub proof fn lemma_parse_emit(f: FrameView)
    requires
        f.fits(),
    ensures
        spec_parse(f.emit()) == Some((f, f.emit().len() as int)),
        spec_sender(f.emit()) == Some(f.from_id),
{
    lemma_body_len(f);
    let s = f.emit();
    let body = f.body();
    let n = body.len() as u32;
    let head = seq![WIRE_VERSION, f.tag];
    lemma_int_widths(n, f.version);
    assert(s[0] == WIRE_VERSION);
    assert(s[1] == f.tag);
    assert(s.subrange(2, 6) =~= spec_u32_to_le_bytes(n));
    let a0 = head + spec_u32_to_le_bytes(n);
    let from = spec_prefixed(f.from_id);
    let key = spec_prefixed(f.key);
    let ver = spec_u64_to_le_bytes(f.version);
    let pay = spec_prefixed(f.payload);
    assert(s =~= a0 + from + (key + ver + pay));
    lemma_prefixed_at_written(a0, f.from_id, key + ver + pay);
    let a1 = a0 + from;
    assert(s =~= a1 + key + (ver + pay));
    lemma_prefixed_at_written(a1, f.key, ver + pay);
    let a2 = a1 + key;
    assert(s =~= a2 + ver + pay);
    lemma_u64_at_written(a2, f.version, pay);
    let a3 = a2 + ver;
    assert(s =~= a3 + pay + Seq::<u8>::empty());
    lemma_prefixed_at_written(a3, f.payload, Seq::<u8>::empty());
}

/// A datagram that holds a frame and nothing more is the written form of
/// that frame.
pub proof fn lemma_emit_parse(s: Seq<u8>)
    requires
        spec_exact(s),
    ensures
        spec_parse(s).unwrap().0.fits(),
        spec_parse(s).unwrap().0.emit() == s,
{
    let (f, end) = spec_parse(s).unwrap();
    let p0 = HEADER_LEN as int;
    let (from_id, p1) = spec_prefixed_at(s, p0).unwrap();
    let (key, p2) = spec_prefixed_at(s, p1).unwrap();
    let (version, p3) = spec_u64_at(s, p2).unwrap();
    let (payload, p4) = spec_prefixed_at(s, p3).unwrap();
    lemma_prefixed_at_is_written(s, p0);
    lemma_prefixed_at_is_written(s, p1);
    lemma_u64_at_is_written(s, p2);
    lemma_prefixed_at_is_written(s, p3);
    lemma_body_len(f);
    let n = spec_u32_from_le_bytes(s.subrange(2, 6));
    lemma_auto_spec_u32_to_from_le_bytes();
    assert(s.subrange(2, 6).len() == 4);
    assert(f.body() =~= s.subrange(p0, p1) + s.subrange(p1, p2) + s.subrange(p2, p3) + s.subrange(
        p3,
        p4,
    ));
    assert(f.body() =~= s.subrange(p0, s.len() as int));
    assert(f.body().len() == n);
    assert(f.emit() =~= s);
}

impl Frame {
    /// Takes a datagram apart.
    ///
    /// Fields behind the payload, if the body holds any, are passed over.
    pub fn parse(buf: &[u8]) -> (r: Result<Frame, Error>)
        ensures
            r is Ok <==> spec_parse(buf@) is Some,
            r matches Ok(f) ==> spec_parse(buf@).unwrap().0 == f@,
            r matches Err(e) ==> e == Error::MalformedEnvelope,
    {
        if buf.len() < HEADER_LEN || buf[0] != WIRE_VERSION {
            return Err(Error::MalformedEnvelope);
        }
        let tag = buf[1];
        let body_len = match read_u32(buf, 2) {
            Some((n, _)) => n,
            None => {
                return Err(Error::MalformedEnvelope);
            },
        };
        if buf.len() - HEADER_LEN != body_len as usize {
            return Err(Error::MalformedEnvelope);
        }
        let (from_id, p1) = match read_prefixed(buf, HEADER_LEN) {
            Some(x) => x,
            None => {
                return Err(Error::MalformedEnvelope);
            },
        };
        let (key, p2) = match read_prefixed(buf, p1) {
            Some(x) => x,
            None => {
                return Err(Error::MalformedEnvelope);
            },
        };
        let (version, p3) = match read_u64(buf, p2) {
            Some(x) => x,
            None => {
                return Err(Error::MalformedEnvelope);
            },
        };
        let (payload, _) = match read_prefixed(buf, p3) {
            Some(x) => x,
            None => {
                return Err(Error::MalformedEnvelope);
            },
        };
        Ok(Frame { tag, from_id, key, version, payload })
    }

    /// Puts the frame into its written form, if it has one.
    pub fn emit(&self) -> (r: Result<Vec<u8>, Error>)
        ensures
            r is Ok <==> self@.fits(),
            r matches Ok(b) ==> b@ == self@.emit(),
            r matches Err(e) ==> e == Error::TooLarge,
    {
        if self.from_id.len() > MAX_LEN || self.key.len() > MAX_LEN || self.payload.len()
            > MAX_LEN {
            return Err(Error::TooLarge);
        }
        let total: u64 = self.from_id.len() as u64 + self.key.len() as u64
            + self.payload.len() as u64 + 20;
        if total > MAX_LEN as u64 {
            return Err(Error::TooLarge);
        }
        proof {
            lemma_body_len(self@);
        }
        let mut out: Vec<u8> = Vec::new();
        out.push(WIRE_VERSION);
        out.push(self.tag);
        put_u32(&mut out, total as u32);
        let ghost head = out@;
        put_prefixed(&mut out, self.from_id.as_slice());
        put_prefixed(&mut out, self.key.as_slice());
        put_u64(&mut out, self.version);
        put_prefixed(&mut out, self.payload.as_slice());
        assert(head =~= seq![WIRE_VERSION, self.tag] + spec_u32_to_le_bytes(total as u32));
        assert(out@ =~= self@.emit());
        Ok(out)
    }
}

/// Reads the sender's id from the front of a datagram.
pub fn peek_sender(buf: &[u8]) -> (r: Option<Vec<u8>>)
    ensures
        r is Some <==> spec_sender(buf@) is Some,
        r matches Some(id) ==> spec_sender(buf@) == Some(id@),
{
    if buf.len() < HEADER_LEN || buf[0] != WIRE_VERSION {
        return None;
    }
    match read_prefixed(buf, HEADER_LEN) {
        Some((id, _)) => Some(id),
        None => None,
    }
}

} // verus!
