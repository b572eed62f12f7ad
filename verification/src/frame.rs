//! One bus transaction's worth of bytes, and how a payload is cut into them.

use vstd::prelude::*;
use vstd::slice::slice_subrange;

verus! {

/// Control byte that opens every command transaction.
pub const COMMAND_PREFIX: u8 = 0x00;

/// Most command bytes that one transaction carries.
pub const MAX_CMD_CHUNK: usize = 7;

/// Most data bytes that one transaction carries.
pub const MAX_DATA_CHUNK: usize = 16;

/// Bytes in the scratch buffer behind a frame: the control byte and a full chunk.
pub const FRAME_CAPACITY: usize = 17;

/// The bytes of one transaction: the control byte, then the chunk.
pub open spec fn frame_of(prefix: u8, chunk: Seq<u8>) -> Seq<u8> {
    seq![prefix] + chunk
}

/// How many chunks a payload of `n` bytes is cut into.
pub open spec fn chunk_count(n: nat) -> nat {
    ((n + MAX_DATA_CHUNK - 1) / (MAX_DATA_CHUNK as int)) as nat
}

/// The `k`-th chunk of `payload`: sixteen bytes, or what is left of it.
pub open spec fn chunk_at(payload: Seq<u8>, k: int) -> Seq<u8> {
    let start = k * MAX_DATA_CHUNK;
    let end = if start + MAX_DATA_CHUNK <= payload.len() {
        start + MAX_DATA_CHUNK
    } else {
        payload.len() as int
    };
    payload.subrange(start, end)
}

/// The frames that carry `payload` as data, in the order they are written.
pub open spec fn data_frames(prefix: u8, payload: Seq<u8>) -> Seq<Seq<u8>> {
    Seq::new(chunk_count(payload.len()), |k: int| frame_of(prefix, chunk_at(payload, k)))
}

/// The single frame that carries `commands`.
pub open spec fn command_frames(commands: Seq<u8>) -> Seq<Seq<u8>> {
    seq![frame_of(COMMAND_PREFIX, commands)]
}

/// What a run of frames carries: their bytes without the control bytes, end to end.
pub open spec fn payload_of(frames: Seq<Seq<u8>>) -> Seq<u8>
    decreases frames.len(),
{
    if frames.len() == 0 {
        Seq::empty()
    } else {
        payload_of(frames.drop_last()) + frames.last().skip(1)
    }
}

/// A control byte followed by at most sixteen payload bytes, held in a
/// buffer of fixed size.
#[derive(Clone, Copy, Debug)]
pub struct Frame {
    buf: [u8; FRAME_CAPACITY],
    len: usize,
}

impl View for Frame {
    type V = Seq<u8>;

    /// The bytes that go on the bus. What the buffer holds past them is no
    /// part of the frame.
    closed spec fn view(&self) -> Seq<u8> {
        self.buf@.subrange(0, self.len as int)
    }
}

impl Frame {
    #[verifier::type_invariant]
    spec fn well_formed(self) -> bool {
        1 <= self.len <= FRAME_CAPACITY
    }

    /// The frame that carries `chunk` behind the control byte `prefix`.
    pub fn new(prefix: u8, chunk: &[u8]) -> (frame: Frame)
        requires
            chunk@.len() <= MAX_DATA_CHUNK,
        ensures
            frame@ == frame_of(prefix, chunk@),
    {
        let mut buf: [u8; FRAME_CAPACITY] = [0u8; FRAME_CAPACITY];
        buf[0] = prefix;
        let n: usize = chunk.len();
        let mut i: usize = 0;
        while i < n
            invariant
                n == chunk@.len(),
                n <= MAX_DATA_CHUNK,
                i <= n,
                buf@[0] == prefix,
                forall|j: int| 0 <= j < i ==> buf@[j + 1] == chunk@[j],
            decreases n - i,
        {
            buf[i + 1] = chunk[i];
            i = i + 1;
        }
        let frame = Frame { buf, len: n + 1 };
        assert(frame@ =~= frame_of(prefix, chunk@));
        frame
    }

    /// A frame that holds the control byte and nothing behind it yet.
    pub(crate) fn empty(prefix: u8) -> (frame: Frame)
        ensures
            frame@ == frame_of(prefix, Seq::empty()),
    {
        let mut buf: [u8; FRAME_CAPACITY] = [0u8; FRAME_CAPACITY];
        buf[0] = prefix;
        let frame = Frame { buf, len: 1 };
        assert(frame@ =~= frame_of(prefix, Seq::empty()));
        frame
    }

    /// The frame's bytes, control byte first: what one bus write sends.
    pub fn as_slice(&self) -> (bytes: &[u8])
        ensures
            bytes@ == self@,
            1 <= bytes@.len() <= FRAME_CAPACITY,
    {
        proof {
            use_type_invariant(self);
        }
        slice_subrange(self.buf.as_slice(), 0, self.len)
    }

    /// Number of bytes in the frame, the control byte included.
    pub fn len(&self) -> (n: usize)
        ensures
            n == self@.len(),
            1 <= n <= FRAME_CAPACITY,
    {
        proof {
            use_type_invariant(self);
        }
        self.len
    }

    /// The control byte.
    pub fn prefix(&self) -> (prefix: u8)
        ensures
            prefix == self@[0],
    {
        proof {
            use_type_invariant(self);
        }
        self.buf[0]
    }

    /// The bytes behind the control byte.
    pub fn payload(&self) -> (bytes: &[u8])
        ensures
            bytes@ == self@.skip(1),
    {
        proof {
            use_type_invariant(self);
        }
        let bytes = slice_subrange(self.buf.as_slice(), 1, self.len);
        assert(bytes@ =~= self@.skip(1));
        bytes
    }

    /// Whether the frame holds a full chunk.
    pub(crate) fn is_full(&self) -> (full: bool)
        ensures
            full == (self@.len() == FRAME_CAPACITY),
            1 <= self@.len() <= FRAME_CAPACITY,
    {
        proof {
            use_type_invariant(self);
        }
        self.len == FRAME_CAPACITY
    }

    /// Appends one payload byte.
    pub(crate) fn push(&mut self, byte: u8)
        requires
            old(self)@.len() < FRAME_CAPACITY,
        ensures
            final(self)@ == old(self)@.push(byte),
    {
        proof {
            use_type_invariant(&*self);
        }
        self.buf[self.len] = byte;
        self.len = self.len + 1;
        assert(self@ =~= old(self)@.push(byte));
    }
}

} // verus!
