//! Frames on a byte stream: one message per line.
//!
//! A frame is a run of bytes without a line feed, followed by one line feed.
//! The receiver collects what it reads in a [`FrameBuffer`] and takes frames
//! out of it as they become complete, however the reads were cut.

use vstd::prelude::*;

verus! {

/// The byte that ends a frame.
pub const DELIMITER: u8 = 10;

/// The transport could not carry or recover a frame.
#[derive(Debug)]
pub enum TransportError {
    /// The stream closed with these bytes left over.
    Truncated(Vec<u8>),
    /// A payload to send holds the delimiter, so it cannot be one frame.
    DelimiterInPayload,
    /// These bytes were framed correctly and could not be decoded.
    MalformedFrame(Vec<u8>),
}

/// Whether the first delimiter of `buf` stands at index `at`.
pub open spec fn first_delimiter_at(buf: Seq<u8>, at: int) -> bool {
    &&& 0 <= at < buf.len()
    &&& buf[at] == DELIMITER
    &&& forall|j: int| 0 <= j < at ==> buf[j] != DELIMITER
}

/// Whether `buf` holds no delimiter, and so no complete frame.
pub open spec fn incomplete(buf: Seq<u8>) -> bool {
    forall|j: int| 0 <= j < buf.len() ==> buf[j] != DELIMITER
}

/// The bytes that carry `payload` as one frame.
pub open spec fn framed(payload: Seq<u8>) -> Seq<u8> {
    payload.push(DELIMITER)
}

/// A framed payload, whatever follows it, is the first frame of the stream:
/// the first delimiter is the one that framing added.
pub proof fn lemma_framed_is_first_frame(payload: Seq<u8>, rest: Seq<u8>)
    requires
        incomplete(payload),
    ensures
        first_delimiter_at(framed(payload) + rest, payload.len() as int),
        (framed(payload) + rest).take(payload.len() as int) == payload,
        (framed(payload) + rest).skip(payload.len() as int + 1) == rest,
{
    let stream = framed(payload) + rest;
    assert forall|j: int| 0 <= j < payload.len() implies stream[j] != DELIMITER by {
        assert(stream[j] == payload[j]);
    }
    assert(stream.take(payload.len() as int) =~= payload);
    assert(stream.skip(payload.len() as int + 1) =~= rest);
}

/// The bytes received and not yet taken out as frames.
#[derive(Debug)]
pub struct FrameBuffer {
    bytes: Vec<u8>,
}

impl View for FrameBuffer {
    type V = Seq<u8>;

    closed spec fn view(&self) -> Seq<u8> {
        self.bytes@
    }
}

/// Frames `payload` for sending. A payload that holds the delimiter is
/// refused: the receiver would cut it in two.
pub fn encode_frame(payload: &[u8]) -> (res: Result<Vec<u8>, TransportError>)
    ensures
        match res {
            Ok(bytes) => incomplete(payload@) && bytes@ == framed(payload@),
            Err(TransportError::DelimiterInPayload) => !incomplete(payload@),
            Err(_) => false,
        },
{
    let mut bytes: Vec<u8> = Vec::new();
    let mut i: usize = 0;
    while i < payload.len()
        invariant
            i <= payload@.len(),
            bytes@ == payload@.take(i as int),
            incomplete(payload@.take(i as int)),
        decreases payload@.len() - i,
    {
        if payload[i] == DELIMITER {
            return Err(TransportError::DelimiterInPayload);
        }
        bytes.push(payload[i]);
        i += 1;
        assert(bytes@ =~= payload@.take(i as int));
    }
    assert(payload@.take(i as int) =~= payload@);
    bytes.push(DELIMITER);
    Ok(bytes)
}

impl FrameBuffer {
    /// A buffer that holds nothing.
    pub fn new() -> (res: FrameBuffer)
        ensures
            res@ == Seq::<u8>::empty(),
    {
        FrameBuffer { bytes: Vec::new() }
    }

    /// How many bytes wait in the buffer.
    pub fn len(&self) -> (res: usize)
        ensures
            res == self@.len(),
    {
        self.bytes.len()
    }

    /// Appends what one read returned.
    pub fn extend(&mut self, chunk: &[u8])
        ensures
            final(self)@ == old(self)@ + chunk@,
    {
        let mut i: usize = 0;
        while i < chunk.len()
            invariant
                i <= chunk@.len(),
                self.bytes@ == old(self).bytes@ + chunk@.take(i as int),
            decreases chunk@.len() - i,
        {
            self.bytes.push(chunk[i]);
            i += 1;
            assert(self.bytes@ =~= old(self).bytes@ + chunk@.take(i as int));
        }
        assert(chunk@.take(i as int) =~= chunk@);
    }

    /// Takes the first complete frame out of the buffer, without its
    /// delimiter. While no frame is complete the buffer stays as it is.
    pub fn next_frame(&mut self) -> (res: Option<Vec<u8>>)
        ensures
            match res {
                Some(frame) => {
                    &&& first_delimiter_at(old(self)@, frame@.len() as int)
                    &&& frame@ == old(self)@.take(frame@.len() as int)
                    &&& final(self)@ == old(self)@.skip(frame@.len() as int + 1)
                },
                None => incomplete(old(self)@) && final(self)@ == old(self)@,
            },
    {
        let mut at: usize = 0;
        while at < self.bytes.len()
            invariant
                at <= self.bytes@.len(),
                self.bytes@ == old(self).bytes@,
                incomplete(self.bytes@.take(at as int)),
            decreases self.bytes@.len() - at,
        {
            if self.bytes[at] == DELIMITER {
                let mut frame = self.bytes.split_off(at + 1);
                self.bytes.pop();
                core::mem::swap(&mut self.bytes, &mut frame);
                proof {
                    let before = old(self).bytes@;
                    assert forall|j: int| 0 <= j < at implies before[j] != DELIMITER by {
                        assert(before.take(at as int)[j] == before[j]);
                    }
                    assert(frame@ =~= before.take(at as int));
                    assert(self.bytes@ =~= before.skip(at + 1));
                }
                return Some(frame);
            }
            at += 1;
            proof {
                let seen = self.bytes@.take(at as int);
                assert forall|j: int| 0 <= j < seen.len() implies seen[j] != DELIMITER by {
                    if j < at - 1 {
                        assert(self.bytes@.take(at - 1)[j] == seen[j]);
                    }
                }
            }
        }
        assert(self.bytes@.take(at as int) =~= self.bytes@);
        None
    }

    /// Ends reception when the stream has closed. Bytes that are still in the
    /// buffer belong to a frame that never ended: they are handed back as an
    /// error rather than dropped.
    pub fn finish(self) -> (res: Result<(), TransportError>)
        ensures
            match res {
                Ok(()) => self@.len() == 0,
                Err(TransportError::Truncated(rest)) => self@.len() > 0 && rest@ == self@,
                Err(_) => false,
            },
    {
        if self.bytes.len() == 0 {
            Ok(())
        } else {
            Err(TransportError::Truncated(self.bytes))
        }
    }
}

} // verus!
