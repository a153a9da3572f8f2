use crate::frame::{
    decode, decode_body, DecodeError, RfidTag, BODY_LENGTH, HEAD, TAIL,
};
use vstd::prelude::*;

verus! {

/// Where the decoder stands within a frame.
#[derive(Debug, Clone, Copy, PartialEq, Eq, Structural)]
pub enum State {
    ReadHead,
    ReadBody,
    ReadTail,
}

/// Why a read failed: the serial line itself, or the frame it carried.
#[derive(Debug)]
pub enum Error<E> {
    SerialError(E),
    DecodeError(DecodeError),
}

impl<E> From<E> for Error<E> {
    fn from(err: E) -> (r: Self)
        ensures
            r == Error::<E>::SerialError(err),
    {
        Error::SerialError(err)
    }
}

impl<E> vstd::std_specs::convert::FromSpecImpl<E> for Error<E> {
    open spec fn obeys_from_spec() -> bool {
        true
    }

    open spec fn from_spec(v: E) -> Self {
        Error::SerialError(v)
    }
}

/// What one non-blocking read of the serial line reported.
pub enum SerialRead<E> {
    /// A byte arrived.
    Byte(u8),
    /// No byte is available yet.
    WouldBlock,
    /// The line failed.
    Fault(E),
}

/// What the decoder asks of its caller after one serial read.
pub enum Progress<E> {
    /// The frame is not complete: read the next byte.
    NeedByte,
    /// No byte was available: try again later; nothing read so far is lost.
    WouldBlock,
    /// The read is over, with a tag or an error.
    Done(Result<RfidTag, Error<E>>),
}

/// The decoder's observable state: where it stands, and the body bytes buffered so far.
pub struct FrameView {
    pub state: State,
    pub body: Seq<u8>,
}

/// The state in which a decoder waits for the head of a new frame.
pub open spec fn idle() -> FrameView {
    FrameView { state: State::ReadHead, body: Seq::empty() }
}

/// What every reachable decoder state satisfies: the buffer never holds more
/// than a body, is empty while a head is awaited, and is full while the tail is.
pub open spec fn frame_inv(v: FrameView) -> bool {
    &&& v.body.len() <= BODY_LENGTH
    &&& v.state == State::ReadHead ==> v.body.len() == 0
    &&& v.state == State::ReadBody ==> v.body.len() < BODY_LENGTH
    &&& v.state == State::ReadTail ==> v.body.len() == BODY_LENGTH
}

/// The state after `reset`, whatever the state before.
pub open spec fn reset_view(v: FrameView) -> FrameView {
    idle()
}

/// One byte fed to the decoder in state `v`: the next state, and the result of
/// the read if the byte ends it.
pub open spec fn step(v: FrameView, b: u8) -> (FrameView, Option<Result<Seq<u8>, DecodeError>>) {
    match v.state {
        State::ReadHead => {
            if b == HEAD {
                (FrameView { state: State::ReadBody, body: Seq::empty() }, None)
            } else {
                (v, Some(Err(DecodeError::InvalidHead)))
            }
        },
        State::ReadBody => {
            let body = v.body.push(b);
            (
                FrameView {
                    state: if body.len() == BODY_LENGTH {
                        State::ReadTail
                    } else {
                        State::ReadBody
                    },
                    body,
                },
                None,
            )
        },
        State::ReadTail => {
            if b == TAIL {
                (idle(), Some(decode_body(v.body)))
            } else {
                (idle(), Some(Err(DecodeError::InvalidTail)))
            }
        },
    }
}

/// Whether `p` is what the decoder reports for the outcome `o` of a byte.
pub open spec fn reports<E>(p: Progress<E>, o: Option<Result<Seq<u8>, DecodeError>>) -> bool {
    match o {
        None => p is NeedByte,
        Some(Ok(id)) => match p {
            Progress::Done(Ok(t)) => t.id@ == id,
            _ => false,
        },
        Some(Err(e)) => p == Progress::<E>::Done(Err(Error::DecodeError(e))),
    }
}

/// A decoder of RDM6300 frames, bound to the serial line it reads from.
pub struct Rdm6300<R> {
    pub serial: R,
    state: State,
    buffer: [u8; BODY_LENGTH],
    offset: usize,
}

impl<R> View for Rdm6300<R> {
    type V = FrameView;

    closed spec fn view(&self) -> FrameView {
        FrameView { state: self.state, body: self.buffer@.take(self.offset as int) }
    }
}

impl<R> Rdm6300<R> {
    /// Well-formedness: the offset stays within the buffer and the state is reachable.
    pub closed spec fn wf(&self) -> bool {
        &&& self.offset <= BODY_LENGTH
        &&& frame_inv(self@)
    }

    /// The serial line the decoder reads from.
    pub closed spec fn source(&self) -> R {
        self.serial
    }

    /// A decoder on `serial` that waits for the head of a frame.
    pub fn new(serial: R) -> (r: Self)
        ensures
            r.wf(),
            r@ == idle(),
            frame_inv(r@),
            r.source() == serial,
    {
        let r = Rdm6300 { serial, state: State::ReadHead, buffer: [0; BODY_LENGTH], offset: 0 };
        assert(r@.body =~= Seq::<u8>::empty());
        r
    }

    /// Reset State Machine to prepare for a new package
    pub fn reset(&mut self)
        ensures
            final(self).wf(),
            final(self)@ == reset_view(old(self)@),
            frame_inv(final(self)@),
            final(self).source() == old(self).source(),
    {
        self.offset = 0;
        self.state = State::ReadHead;
        assert(self@.body =~= Seq::<u8>::empty());
    }

    /// Takes the outcome of one read of the serial line and says what comes next.
    pub fn advance<E>(&mut self, input: SerialRead<E>) -> (r: Progress<E>)
        requires
            old(self).wf(),
        ensures
            final(self).wf(),
            frame_inv(final(self)@),
            final(self).source() == old(self).source(),
            match input {
                SerialRead::Byte(b) => {
                    &&& final(self)@ == step(old(self)@, b).0
                    &&& reports(r, step(old(self)@, b).1)
                },
                SerialRead::WouldBlock => {
                    &&& final(self)@ == old(self)@
                    &&& r is WouldBlock
                },
                SerialRead::Fault(e) => {
                    &&& final(self)@ == old(self)@
                    &&& r == Progress::<E>::Done(Err(Error::SerialError(e)))
                },
            },
    {
        let byte = match input {
            SerialRead::Byte(b) => b,
            SerialRead::WouldBlock => return Progress::WouldBlock,
            SerialRead::Fault(e) => return Progress::Done(Err(Error::SerialError(e))),
        };
        match self.state {
            State::ReadHead => {
                if byte == HEAD {
                    self.state = State::ReadBody;
                    assert(self@.body =~= Seq::<u8>::empty());
                    Progress::NeedByte
                } else {
                    Progress::Done(Err(Error::DecodeError(DecodeError::InvalidHead)))
                }
            },
            State::ReadBody => {
                let ghost before = self@.body;
                self.buffer[self.offset] = byte;
                self.offset = self.offset + 1;
                assert(self@.body =~= before.push(byte));
                if self.offset == BODY_LENGTH {
                    self.state = State::ReadTail;
                }
                Progress::NeedByte
            },
            State::ReadTail => {
                assert(self.buffer@.take(BODY_LENGTH as int) =~= self.buffer@);
                self.offset = 0;
                self.state = State::ReadHead;
                assert(self@.body =~= Seq::<u8>::empty());
                if byte == TAIL {
                    match decode(&self.buffer) {
                        Ok(tag) => Progress::Done(Ok(tag)),
                        Err(e) => Progress::Done(Err(Error::DecodeError(e))),
                    }
                } else {
                    Progress::Done(Err(Error::DecodeError(DecodeError::InvalidTail)))
                }
            },
        }
    }
}

} // verus!
