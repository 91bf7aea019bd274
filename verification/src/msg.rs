//! The wire unit: either a text payload or a control frame, passed through
//! the hub unmodified except for enrichment of parseable text envelopes.

use vstd::prelude::*;

verus! {

/// One message as it travels between a client and the hub.
#[derive(Debug, PartialEq, Eq)]
pub enum Frame {
    Text(String),
    Binary(Vec<u8>),
    Ping(Vec<u8>),
    Pong(Vec<u8>),
    Close,
}

/// The mathematical value of a `Frame`: payloads as sequences.
pub enum FrameModel {
    Text(Seq<char>),
    Binary(Seq<u8>),
    Ping(Seq<u8>),
    Pong(Seq<u8>),
    Close,
}

impl View for Frame {
    type V = FrameModel;

    open spec fn view(&self) -> FrameModel {
        match self {
            Frame::Text(s) => FrameModel::Text(s@),
            Frame::Binary(b) => FrameModel::Binary(b@),
            Frame::Ping(b) => FrameModel::Ping(b@),
            Frame::Pong(b) => FrameModel::Pong(b@),
            Frame::Close => FrameModel::Close,
        }
    }
}

impl Frame {
    /// An independent copy carrying the same payload; the broadcaster hands
    /// one such copy to every registered connection.
    pub fn duplicate(&self) -> (r: Frame)
        ensures
            r@ == self@,
    {
        match self {
            Frame::Text(s) => Frame::Text(s.clone()),
            Frame::Binary(b) => Frame::Binary(copy_bytes(b)),
            Frame::Ping(b) => Frame::Ping(copy_bytes(b)),
            Frame::Pong(b) => Frame::Pong(copy_bytes(b)),
            Frame::Close => Frame::Close,
        }
    }

    /// Whether this frame is a text payload.
    pub fn is_text(&self) -> (r: bool)
        ensures
            r == (self@ is Text),
    {
        match self {
            Frame::Text(_) => true,
            _ => false,
        }
    }
}

/// An element-for-element copy of a byte vector.
fn copy_bytes(b: &Vec<u8>) -> (r: Vec<u8>)
    ensures
        r@ == b@,
{
    let mut r: Vec<u8> = Vec::new();
    let mut i: usize = 0;
    while i < b.len()
        invariant
            i <= b.len(),
            r@ == b@.subrange(0, i as int),
        decreases b.len() - i,
    {
        r.push(b[i]);
        assert(r@ =~= b@.subrange(0, i + 1 as int));
        i += 1;
    }
    assert(r@ =~= b@);
    r
}

} // verus!
