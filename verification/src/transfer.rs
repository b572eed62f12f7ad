//! A transfer: the writes that one payload takes, one decision at a time.
//!
//! A transfer touches no bus. It always has one request standing: write this
//! frame, hand over the next byte of the payload, or stop with this result.
//! Whoever drives it carries the request out and reports what happened with
//! [`Transfer::step`], which answers with the next request.

use vstd::prelude::*;
use vstd::slice::slice_subrange;
use vstd::std_specs::iter::IteratorSpec;
use crate::format::DisplayError;
use crate::frame::{
    command_frames, data_frames, frame_of, Frame, COMMAND_PREFIX, MAX_CMD_CHUNK, MAX_DATA_CHUNK,
};

verus! {

/// What a transfer frames: commands or data.
#[derive(Clone, Copy, Debug, PartialEq, Eq, Structural)]
pub enum Kind {
    /// One frame that holds the whole payload, even an empty one.
    Commands,
    /// Frames of at most sixteen payload bytes; none for an empty payload.
    Data,
}

/// What the driver reports to a transfer.
#[derive(Clone, Copy, Debug, PartialEq, Eq, Structural)]
pub enum Event {
    /// The bus accepted the frame.
    Written,
    /// The bus reported a failure for the frame.
    WriteFailed,
    /// The payload's next byte.
    Byte(u8),
    /// The payload has no further byte.
    End,
}

/// Where a transfer stands.
#[derive(Clone, Copy, Debug)]
pub enum Phase {
    /// A frame is out for writing.
    AwaitWrite,
    /// The next byte of the payload is wanted.
    AwaitByte,
    /// The transfer is over, with this result.
    Finished(Result<(), DisplayError>),
}

/// What a transfer asks its driver to do.
#[derive(Clone, Copy, Debug)]
pub enum Action {
    /// Write this frame to the device at this address in one transaction,
    /// then report [`Event::Written`] or [`Event::WriteFailed`].
    Write { address: u8, frame: Frame },
    /// Report the payload's next byte with [`Event::Byte`], or
    /// [`Event::End`] when there is none.
    Pull,
    /// Stop: this is the result of the whole operation.
    Done(Result<(), DisplayError>),
}

/// An [`Action`] as contracts see it: the frame as its bytes.
pub enum Request {
    /// Write these bytes to the device at this address in one transaction.
    Write { address: u8, bytes: Seq<u8> },
    /// Report the payload's next byte, or its end.
    Pull,
    /// Stop with this result.
    Done(Result<(), DisplayError>),
}

impl Action {
    /// Whether a byte of the payload is asked for.
    pub fn is_pull(&self) -> (pull: bool)
        ensures
            pull == (self@ is Pull),
    {
        match self {
            Action::Pull => true,
            _ => false,
        }
    }
}

impl View for Action {
    type V = Request;

    open spec fn view(&self) -> Request {
        match *self {
            Action::Write { address, frame } => Request::Write { address, bytes: frame@ },
            Action::Pull => Request::Pull,
            Action::Done(result) => Request::Done(result),
        }
    }
}

/// Whether the bus takes the write with number `n`, the first one being
/// number 0. `bus` lists the outcomes in order, `true` for a write that is
/// taken; a write past the end of the list is taken.
pub open spec fn accepts(bus: Seq<bool>, n: int) -> bool {
    0 <= n < bus.len() ==> bus[n]
}

/// A transfer as contracts see it.
pub struct TransferView {
    /// The address of the device that every frame is written to.
    pub address: u8,
    /// Commands or data.
    pub kind: Kind,
    /// The control byte of every frame.
    pub prefix: u8,
    /// The payload as far as the transfer has it: all of a contiguous
    /// payload, the bytes reported so far of one that comes byte by byte.
    pub payload: Seq<u8>,
    /// Whether `payload` is the whole payload.
    pub complete: bool,
    /// How many writes the transfer has asked for.
    pub written: nat,
    /// Where it stands.
    pub phase: Phase,
}

impl TransferView {
    /// Every frame that the payload, as far as it is known, takes.
    pub open spec fn plan(self) -> Seq<Seq<u8>> {
        match self.kind {
            Kind::Commands => command_frames(self.payload),
            Kind::Data => data_frames(self.prefix, self.payload),
        }
    }

    /// The frames asked for so far, in order.
    pub open spec fn issued(self) -> Seq<Seq<u8>> {
        self.plan().take(self.written as int)
    }

    /// The standing request.
    pub open spec fn pending(self) -> Request {
        match self.phase {
            Phase::AwaitWrite => Request::Write {
                address: self.address,
                bytes: self.plan()[self.written - 1],
            },
            Phase::AwaitByte => Request::Pull,
            Phase::Finished(result) => Request::Done(result),
        }
    }

    /// What holds of every transfer that the library hands out.
    pub open spec fn wf(self) -> bool {
        &&& self.written <= self.plan().len()
        &&& self.kind == Kind::Commands ==> self.complete && self.payload.len() <= MAX_CMD_CHUNK
        &&& match self.phase {
            Phase::AwaitWrite => {
                &&& self.written >= 1
                &&& !self.complete ==> self.written == self.plan().len() && self.payload.len()
                    % (MAX_DATA_CHUNK as nat) == 0
            },
            Phase::AwaitByte => {
                &&& !self.complete
                &&& self.written == self.payload.len() / (MAX_DATA_CHUNK as nat)
            },
            Phase::Finished(Ok(())) => self.complete && self.written == self.plan().len(),
            Phase::Finished(Err(DisplayError::BusWriteError)) => self.written >= 1,
            Phase::Finished(Err(DisplayError::DataFormatNotImplemented)) => {
                self.written == 0 && self.payload.len() == 0
            },
        }
    }

    /// The transfer after `event`. An event that does not answer the standing
    /// request changes nothing.
    pub open spec fn step(self, event: Event) -> TransferView {
        match (self.phase, event) {
            (Phase::AwaitWrite, Event::Written) => {
                if !self.complete {
                    TransferView { phase: Phase::AwaitByte, ..self }
                } else if self.written < self.plan().len() {
                    TransferView { written: self.written + 1, ..self }
                } else {
                    TransferView { phase: Phase::Finished(Ok(())), ..self }
                }
            },
            (Phase::AwaitWrite, Event::WriteFailed) => TransferView {
                phase: Phase::Finished(Err(DisplayError::BusWriteError)),
                ..self
            },
            (Phase::AwaitByte, Event::Byte(byte)) => {
                let payload = self.payload.push(byte);
                if payload.len() % (MAX_DATA_CHUNK as nat) == 0 {
                    TransferView {
                        payload,
                        written: self.written + 1,
                        phase: Phase::AwaitWrite,
                        ..self
                    }
                } else {
                    TransferView { payload, ..self }
                }
            },
            (Phase::AwaitByte, Event::End) => {
                if self.payload.len() % (MAX_DATA_CHUNK as nat) != 0 {
                    TransferView {
                        complete: true,
                        written: self.written + 1,
                        phase: Phase::AwaitWrite,
                        ..self
                    }
                } else {
                    TransferView { complete: true, phase: Phase::Finished(Ok(())), ..self }
                }
            },
            _ => self,
        }
    }

    /// The transfer after each byte of `bytes` was reported in turn.
    pub open spec fn feed(self, bytes: Seq<u8>) -> TransferView
        decreases bytes.len(),
    {
        if bytes.len() == 0 {
            self
        } else {
            self.feed(bytes.drop_last()).step(Event::Byte(bytes.last()))
        }
    }

    /// The transfer after `rounds` rounds in which every standing request
    /// is answered as [`TransferView::reply`] says.
    pub open spec fn run(self, bus: Seq<bool>, source: Seq<u8>, rounds: nat) -> TransferView
        decreases rounds,
    {
        if rounds == 0 {
            self
        } else {
            self.step(self.reply(bus, source)).run(bus, source, (rounds - 1) as nat)
        }
    }

    /// What a driver reports in answer to the standing request, where the
    /// bus treats the writes as `bus` lists and the payload's bytes, for a
    /// payload that comes byte by byte, are `source`.
    pub open spec fn reply(self, bus: Seq<bool>, source: Seq<u8>) -> Event {
        match self.phase {
            Phase::AwaitWrite => if accepts(bus, self.written - 1) {
                Event::Written
            } else {
                Event::WriteFailed
            },
            Phase::AwaitByte => if self.payload.len() < source.len() {
                Event::Byte(source[self.payload.len() as int])
            } else {
                Event::End
            },
            Phase::Finished(_) => Event::End,
        }
    }

    /// The transfer after each byte of `bytes` was reported in turn and
    /// then, where `end` holds, the end of the payload.
    pub open spec fn fed(self, bytes: Seq<u8>, end: bool) -> TransferView {
        if end {
            self.feed(bytes).step(Event::End)
        } else {
            self.feed(bytes)
        }
    }

    /// How many more bytes the filling frame has room for.
    pub open spec fn room(self) -> nat {
        (MAX_DATA_CHUNK - self.payload.len() % (MAX_DATA_CHUNK as nat)) as nat
    }

    /// A transfer of `commands` in one frame.
    pub open spec fn commands(address: u8, commands: Seq<u8>) -> TransferView {
        TransferView {
            address,
            kind: Kind::Commands,
            prefix: COMMAND_PREFIX,
            payload: commands,
            complete: true,
            written: 1,
            phase: Phase::AwaitWrite,
        }
    }

    /// A transfer of `data`, all of it at hand.
    pub open spec fn buffer(address: u8, prefix: u8, data: Seq<u8>) -> TransferView {
        TransferView {
            address,
            kind: Kind::Data,
            prefix,
            payload: data,
            complete: true,
            written: if data.len() == 0 { 0 } else { 1 },
            phase: if data.len() == 0 { Phase::Finished(Ok(())) } else { Phase::AwaitWrite },
        }
    }

    /// A transfer of data that comes byte by byte, none of it reported yet.
    pub open spec fn stream(address: u8, prefix: u8) -> TransferView {
        TransferView {
            address,
            kind: Kind::Data,
            prefix,
            payload: Seq::empty(),
            complete: false,
            written: 0,
            phase: Phase::AwaitByte,
        }
    }

    /// A transfer that was refused for the shape of its payload.
    pub open spec fn rejected(address: u8, kind: Kind, prefix: u8) -> TransferView {
        TransferView {
            address,
            kind,
            prefix,
            payload: Seq::empty(),
            complete: true,
            written: 0,
            phase: Phase::Finished(Err(DisplayError::DataFormatNotImplemented)),
        }
    }
}

/// The writes that one payload takes, decided one at a time.
pub struct Transfer<'a> {
    address: u8,
    kind: Kind,
    prefix: u8,
    /// The payload, where all of it is at hand.
    buffer: Option<&'a [u8]>,
    /// How many bytes of `buffer` are in frames already.
    offset: usize,
    /// The frame that is out for writing, or the one that is filling.
    frame: Frame,
    phase: Phase,
    complete: bool,
    payload: Ghost<Seq<u8>>,
    written: Ghost<nat>,
}

impl<'a> View for Transfer<'a> {
    type V = TransferView;

    closed spec fn view(&self) -> TransferView {
        TransferView {
            address: self.address,
            kind: self.kind,
            prefix: self.prefix,
            payload: self.payload@,
            complete: self.complete,
            written: self.written@,
            phase: self.phase,
        }
    }
}

impl<'a> Transfer<'a> {
    #[verifier::type_invariant]
    spec fn well_formed(self) -> bool {
        &&& self@.wf()
        &&& match self.buffer {
            Some(bytes) => {
                &&& self.complete
                &&& self.payload@ == bytes@
                &&& self.offset <= bytes@.len()
                &&& self.kind == Kind::Commands ==> self.offset == bytes@.len()
                &&& self.kind == Kind::Data ==> (self.offset < bytes@.len() <==> self.written@
                    < self@.plan().len())
                &&& self.kind == Kind::Data && self.offset < bytes@.len() ==> self.offset
                    == self.written@ * MAX_DATA_CHUNK
            },
            None => self.phase is AwaitWrite && self.complete ==> self.written@
                == self@.plan().len(),
        }
        &&& self.phase is AwaitWrite ==> self.frame@ == self@.plan()[self.written@ - 1]
        &&& self.phase is AwaitByte ==> self.buffer is None && self.frame@ == frame_of(
            self.prefix,
            self.payload@.skip(self.written@ * MAX_DATA_CHUNK),
        )
    }

    /// A transfer of `commands` in one frame behind the command control byte.
    pub(crate) fn commands(address: u8, commands: &'a [u8]) -> (transfer: Transfer<'a>)
        requires
            commands@.len() <= MAX_CMD_CHUNK,
        ensures
            transfer@ == TransferView::commands(address, commands@),
            transfer@.wf(),
    {
        Transfer {
            address,
            kind: Kind::Commands,
            prefix: COMMAND_PREFIX,
            buffer: Some(commands),
            offset: commands.len(),
            frame: Frame::new(COMMAND_PREFIX, commands),
            phase: Phase::AwaitWrite,
            complete: true,
            payload: Ghost(commands@),
            written: Ghost(1),
        }
    }

    /// A transfer of `data`, all of it at hand, behind the control byte `prefix`.
    pub(crate) fn buffer(address: u8, prefix: u8, data: &'a [u8]) -> (transfer: Transfer<'a>)
        ensures
            transfer@ == TransferView::buffer(address, prefix, data@),
            transfer@.wf(),
    {
        let len: usize = data.len();
        if len == 0 {
            Transfer {
                address,
                kind: Kind::Data,
                prefix,
                buffer: Some(data),
                offset: 0,
                frame: Frame::empty(prefix),
                phase: Phase::Finished(Ok(())),
                complete: true,
                payload: Ghost(data@),
                written: Ghost(0),
            }
        } else {
            let end: usize = if len >= MAX_DATA_CHUNK { MAX_DATA_CHUNK } else { len };
            let chunk = slice_subrange(data, 0, end);
            Transfer {
                address,
                kind: Kind::Data,
                prefix,
                buffer: Some(data),
                offset: end,
                frame: Frame::new(prefix, chunk),
                phase: Phase::AwaitWrite,
                complete: true,
                payload: Ghost(data@),
                written: Ghost(1),
            }
        }
    }

    /// A transfer of data that comes byte by byte, behind the control byte `prefix`.
    pub(crate) fn stream(address: u8, prefix: u8) -> (transfer: Transfer<'a>)
        ensures
            transfer@ == TransferView::stream(address, prefix),
            transfer@.wf(),
    {
        let transfer = Transfer {
            address,
            kind: Kind::Data,
            prefix,
            buffer: None,
            offset: 0,
            frame: Frame::empty(prefix),
            phase: Phase::AwaitByte,
            complete: false,
            payload: Ghost(Seq::empty()),
            written: Ghost(0),
        };
        assert(transfer.payload@.skip(0) =~= Seq::<u8>::empty());
        transfer
    }

    /// A transfer that is over before it began: the payload's shape is not framed.
    pub(crate) fn rejected(address: u8, kind: Kind, prefix: u8) -> (transfer: Transfer<'a>)
        ensures
            transfer@ == TransferView::rejected(address, kind, prefix),
            transfer@.wf(),
    {
        Transfer {
            address,
            kind,
            prefix,
            buffer: None,
            offset: 0,
            frame: Frame::empty(prefix),
            phase: Phase::Finished(Err(DisplayError::DataFormatNotImplemented)),
            complete: true,
            payload: Ghost(Seq::empty()),
            written: Ghost(0),
        }
    }

    /// Takes in what the driver reports and answers with the next request.
    ///
    /// A report that does not answer the standing request is passed over:
    /// the transfer stays as it is and the request is repeated. After a
    /// failed write the transfer is over with
    /// [`DisplayError::BusWriteError`]; no further frame is asked for.
    pub fn step(&mut self, event: Event) -> (action: Action)
        ensures
            final(self)@ == old(self)@.step(event),
            final(self)@.wf(),
            action@ == final(self)@.pending(),
    {
        proof {
            use_type_invariant(&*self);
        }
        match (self.phase, event) {
            (Phase::AwaitWrite, Event::Written) => {
                if !self.complete {
                    *self = Transfer {
                        frame: Frame::empty(self.prefix),
                        phase: Phase::AwaitByte,
                        ..*self
                    };
                } else {
                    self.next_chunk();
                }
            },
            (Phase::AwaitWrite, Event::WriteFailed) => {
                self.phase = Phase::Finished(Err(DisplayError::BusWriteError));
            },
            (Phase::AwaitByte, Event::Byte(byte)) => {
                self.take_byte(byte);
            },
            (Phase::AwaitByte, Event::End) => {
                self.close();
            },
            _ => {},
        }
        self.pending()
    }

    /// After a write of a complete payload: the next chunk goes out, or the
    /// transfer is over.
    fn next_chunk(&mut self)
        requires
            old(self).phase is AwaitWrite,
            old(self).complete,
        ensures
            final(self)@ == old(self)@.step(Event::Written),
    {
        proof {
            use_type_invariant(&*self);
        }
        let rest: Option<&'a [u8]> = match self.buffer {
            Some(bytes) => if self.offset < bytes.len() { Some(bytes) } else { None },
            None => None,
        };
        match rest {
            Some(bytes) => {
                let len: usize = bytes.len();
                let start: usize = self.offset;
                let end: usize = if len - start >= MAX_DATA_CHUNK {
                    start + MAX_DATA_CHUNK
                } else {
                    len
                };
                let chunk = slice_subrange(bytes, start, end);
                *self = Transfer {
                    offset: end,
                    frame: Frame::new(self.prefix, chunk),
                    written: Ghost((self.written@ + 1) as nat),
                    ..*self
                };
            },
            None => {
                self.phase = Phase::Finished(Ok(()));
            },
        }
    }

    /// The payload's next byte joins the filling frame, which goes out once full.
    fn take_byte(&mut self, byte: u8)
        requires
            old(self).phase is AwaitByte,
        ensures
            final(self)@ == old(self)@.step(Event::Byte(byte)),
    {
        proof {
            use_type_invariant(&*self);
        }
        let mut frame: Frame = self.frame;
        frame.push(byte);
        let full: bool = frame.is_full();
        let ghost payload = self.payload@.push(byte);
        proof {
            let start = self.written@ * MAX_DATA_CHUNK;
            assert(payload.skip(start) =~= self.payload@.skip(start).push(byte));
            assert(frame@ =~= frame_of(self.prefix, payload.skip(start)));
        }
        if full {
            *self = Transfer {
                frame,
                phase: Phase::AwaitWrite,
                payload: Ghost(payload),
                written: Ghost((self.written@ + 1) as nat),
                ..*self
            };
        } else {
            *self = Transfer { frame, payload: Ghost(payload), ..*self };
        }
    }

    /// The payload has ended: what has gathered goes out, if there is any.
    fn close(&mut self)
        requires
            old(self).phase is AwaitByte,
        ensures
            final(self)@ == old(self)@.step(Event::End),
    {
        proof {
            use_type_invariant(&*self);
        }
        if self.frame.len() > 1 {
            *self = Transfer {
                phase: Phase::AwaitWrite,
                complete: true,
                written: Ghost((self.written@ + 1) as nat),
                ..*self
            };
        } else {
            *self = Transfer { phase: Phase::Finished(Ok(())), complete: true, ..*self };
        }
    }

    /// Answers requests for bytes from `source` until the transfer asks for
    /// a write or is over.
    ///
    /// Takes from `source` no more than the filling frame has room for, and
    /// nothing once `source` has reported its end. Where the transfer is not
    /// asking for a byte, `source` is left alone. What is known of the bytes
    /// that `source` hands out is what its own specification says: for a
    /// source that keeps to the laws of iterators, they are the next bytes
    /// that it had left.
    pub fn pull_from<I: Iterator<Item = u8>>(&mut self, source: &mut I) -> (action: Action)
        ensures
            final(self)@.wf(),
            action@ == final(self)@.pending(),
            !(action@ is Pull),
            !(old(self)@.phase is AwaitByte) ==> final(self)@ == old(self)@ && *final(source)
                == *old(source),
            exists|bytes: Seq<u8>, end: bool|
                bytes.len() <= old(self)@.room() && final(self)@ == #[trigger] old(self)@.fed(
                    bytes,
                    end,
                ),
            old(self)@.phase is AwaitByte && <I as IteratorSpec>::obeys_prophetic_iter_laws(
                old(source),
            ) ==> {
                let rest = <I as IteratorSpec>::remaining(old(source));
                let room = old(self)@.room();
                let taken = if rest.len() < room {
                    rest.len()
                } else {
                    room
                };
                &&& <I as IteratorSpec>::remaining(final(source)) == rest.skip(taken as int)
                &&& final(self)@ == old(self)@.fed(rest.take(taken as int), rest.len() < room)
            },
    {
        let mut action: Action = self.pending();
        let ghost mut seen: Seq<u8> = Seq::empty();
        let ghost mut ended: bool = false;
        proof {
            let rest = <I as IteratorSpec>::remaining(old(source));
            assert(seen =~= rest.take(0));
            assert(rest.skip(0) =~= rest);
        }
        while action.is_pull()
            invariant
                self@.wf(),
                action@ == self@.pending(),
                !(old(self)@.phase is AwaitByte) ==> self@ == old(self)@ && *source == *old(
                    source,
                ),
                self@ == old(self)@.fed(seen, ended),
                seen.len() <= old(self)@.room(),
                self@.phase is AwaitByte ==> !ended && seen.len() < old(self)@.room()
                    && self@.room() == old(self)@.room() - seen.len(),
                old(self)@.phase is AwaitByte && <I as IteratorSpec>::obeys_prophetic_iter_laws(
                    old(source),
                ) ==> {
                    let rest = <I as IteratorSpec>::remaining(old(source));
                    &&& <I as IteratorSpec>::obeys_prophetic_iter_laws(source)
                    &&& seen.len() <= rest.len()
                    &&& seen == rest.take(seen.len() as int)
                    &&& <I as IteratorSpec>::remaining(source) == rest.skip(seen.len() as int)
                    &&& ended ==> seen.len() == rest.len() && rest.len() < old(self)@.room()
                    &&& !(self@.phase is AwaitByte) && !ended ==> seen.len() == old(self)@.room()
                },
            decreases (if self@.phase is AwaitByte { self@.room() } else { 0 }),
        {
            let ghost rest = <I as IteratorSpec>::remaining(old(source));
            match source.next() {
                Some(byte) => {
                    action = self.step(Event::Byte(byte));
                    proof {
                        let grown = seen.push(byte);
                        assert(grown.drop_last() =~= seen);
                        if <I as IteratorSpec>::obeys_prophetic_iter_laws(old(source)) {
                            assert(grown =~= rest.take(grown.len() as int));
                            assert(rest.skip(seen.len() as int).drop_first() =~= rest.skip(
                                grown.len() as int,
                            ));
                        }
                        seen = grown;
                    }
                },
                None => {
                    action = self.step(Event::End);
                    proof {
                        ended = true;
                    }
                },
            }
        }
        action
    }

    /// The standing request.
    pub fn pending(&self) -> (action: Action)
        ensures
            action@ == self@.pending(),
            self@.wf(),
    {
        proof {
            use_type_invariant(self);
        }
        match self.phase {
            Phase::AwaitWrite => Action::Write { address: self.address, frame: self.frame },
            Phase::AwaitByte => Action::Pull,
            Phase::Finished(result) => Action::Done(result),
        }
    }
}

} // verus!
