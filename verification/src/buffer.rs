//! The per-connection input buffer: a growable run of bytes with two
//! cursors, one behind the bytes that reads have stored and one behind the
//! bytes that the decoder has used up. It performs no I/O itself.
use vstd::prelude::*;
use vstd::slice::slice_subrange;

verus! {

/// The capacity that the first call of `grow` provides.
pub const INITIAL_CAPACITY: usize = 16;

/// What the contracts say of a [`FrameBuffer`].
pub struct BufferView {
    /// Every byte of the buffer, used or not.
    pub storage: Seq<u8>,
    /// The offset of the first byte that the decoder has not used up.
    pub consumed: nat,
    /// The offset one past the last byte that a read has stored.
    pub filled: nat,
}

impl BufferView {
    /// The cursors are in order and inside the storage.
    pub open spec fn wf(self) -> bool {
        self.consumed <= self.filled <= self.storage.len()
    }

    /// The number of bytes of storage.
    pub open spec fn capacity(self) -> nat {
        self.storage.len()
    }

    /// The input that has arrived and is not used up.
    pub open spec fn window(self) -> Seq<u8> {
        self.storage.subrange(self.consumed as int, self.filled as int)
    }

    /// The region that the next read may fill.
    pub open spec fn writable(self) -> Seq<u8> {
        self.storage.skip(self.filled as int)
    }

    /// The capacity after `grow`: a first allocation for an empty buffer,
    /// twice the capacity where more than half of it is filled, and the same
    /// capacity otherwise.
    pub open spec fn grown_capacity(self) -> nat {
        if self.capacity() == 0 {
            INITIAL_CAPACITY as nat
        } else if 2 * self.filled > self.capacity() {
            2 * self.capacity()
        } else {
            self.capacity()
        }
    }

    /// The buffer after `reclaim`: both cursors at zero where nothing is left
    /// to decode, and no change otherwise.
    pub open spec fn reclaim(self) -> BufferView {
        if self.consumed == self.filled {
            BufferView { consumed: 0, filled: 0, ..self }
        } else {
            self
        }
    }

    /// The buffer after the decoder has used up `n` more bytes.
    pub open spec fn advance(self, n: nat) -> BufferView {
        BufferView { consumed: self.consumed + n, ..self }
    }

    /// The buffer after a read has stored `n` bytes in the writable region.
    pub open spec fn commit(self, n: nat) -> BufferView {
        BufferView { filled: self.filled + n, ..self }
    }
}

/// The input buffer of one connection.
pub struct FrameBuffer {
    buffer: Vec<u8>,
    consumed: usize,
    filled: usize,
}

impl View for FrameBuffer {
    type V = BufferView;

    closed spec fn view(&self) -> BufferView {
        BufferView {
            storage: self.buffer@,
            consumed: self.consumed as nat,
            filled: self.filled as nat,
        }
    }
}

impl FrameBuffer {
    /// The invariant of the buffer, stated on its view.
    pub open spec fn wf(&self) -> bool {
        self@.wf()
    }

    /// A buffer without storage. `grow` allocates before the first read.
    pub fn new() -> (b: FrameBuffer)
        ensures
            b.wf(),
            b@ == (BufferView { storage: Seq::empty(), consumed: 0, filled: 0 }),
    {
        FrameBuffer { buffer: Vec::new(), consumed: 0, filled: 0 }
    }

    /// The number of bytes of storage.
    pub fn capacity(&self) -> (r: usize)
        ensures
            r == self@.capacity(),
    {
        self.buffer.len()
    }

    /// The offset of the first byte that is not used up.
    pub fn consumed(&self) -> (r: usize)
        ensures
            r == self@.consumed,
    {
        self.consumed
    }

    /// The offset one past the last byte stored.
    pub fn filled(&self) -> (r: usize)
        ensures
            r == self@.filled,
    {
        self.filled
    }

    /// Whether `grow` can provide the capacity that its policy calls for.
    pub fn can_grow(&self) -> (r: bool)
        requires
            self.wf(),
        ensures
            r == (self@.grown_capacity() <= usize::MAX),
    {
        let capacity: usize = self.buffer.len();
        capacity == 0 || self.filled <= capacity / 2 || capacity <= usize::MAX / 2
    }

    /// Makes room for at least one more byte behind the filled region. The
    /// bytes stored so far and both cursors stay as they are; new storage holds
    /// zeros.
    pub fn grow(&mut self)
        requires
            old(self).wf(),
            old(self)@.grown_capacity() <= usize::MAX,
        ensures
            final(self).wf(),
            final(self)@.capacity() == old(self)@.grown_capacity(),
            final(self)@.filled < final(self)@.capacity(),
            final(self)@.consumed == old(self)@.consumed,
            final(self)@.filled == old(self)@.filled,
            final(self)@.storage.take(old(self)@.capacity() as int) == old(self)@.storage,
            forall|i: int|
                old(self)@.capacity() <= i < final(self)@.capacity() ==> final(self)@.storage[i] == 0,
    {
        let capacity: usize = self.buffer.len();
        if capacity == 0 {
            self.buffer.resize(INITIAL_CAPACITY, 0u8);
        } else if self.filled > capacity / 2 {
            self.buffer.resize(capacity * 2, 0u8);
        }
        assert(final(self)@.storage.take(old(self)@.capacity() as int) =~= old(self)@.storage);
    }

    /// Rewinds both cursors to zero once every stored byte is used up.
    pub fn reclaim(&mut self)
        requires
            old(self).wf(),
        ensures
            final(self).wf(),
            final(self)@ == old(self)@.reclaim(),
            final(self)@.window() == old(self)@.window(),
    {
        if self.consumed == self.filled {
            self.consumed = 0;
            self.filled = 0;
        }
        assert(final(self)@.window() =~= old(self)@.window());
    }

    /// The region behind the filled bytes, for a read to store into. Whatever
    /// the caller writes there, the bytes in front of it and the cursors stay
    /// as they are.
    pub fn writable_slice(&mut self) -> (s: &mut [u8])
        requires
            old(self).wf(),
        ensures
            s@ == old(self)@.writable(),
            final(self)@.storage == old(self)@.storage.take(old(self)@.filled as int) + final(s)@,
            final(self)@.consumed == old(self)@.consumed,
            final(self)@.filled == old(self)@.filled,
    {
        let filled: usize = self.filled;
        let (_, tail) = self.buffer.as_mut_slice().split_at_mut(filled);
        tail
    }

    /// The input that has arrived and is not used up, for the decoder.
    pub fn readable_window(&self) -> (w: &[u8])
        requires
            self.wf(),
        ensures
            w@ == self@.window(),
    {
        slice_subrange(self.buffer.as_slice(), self.consumed, self.filled)
    }

    /// Marks `n` more bytes as used up.
    pub fn advance(&mut self, n: usize)
        requires
            old(self).wf(),
            old(self)@.consumed + n <= old(self)@.filled,
        ensures
            final(self).wf(),
            final(self)@ == old(self)@.advance(n as nat),
            final(self)@.window() == old(self)@.window().skip(n as int),
    {
        self.consumed = self.consumed + n;
        assert(final(self)@.window() =~= old(self)@.window().skip(n as int));
    }

    /// Marks the first `n` bytes of the writable region as stored.
    pub fn commit(&mut self, n: usize)
        requires
            old(self).wf(),
            old(self)@.filled + n <= old(self)@.capacity(),
        ensures
            final(self).wf(),
            final(self)@ == old(self)@.commit(n as nat),
            final(self)@.window() == old(self)@.window() + old(self)@.writable().take(n as int),
    {
        assert(self.buffer@.len() == self.buffer.len());
        self.filled = self.filled + n;
        assert(final(self)@.window() =~= old(self)@.window() + old(self)@.writable().take(n as int));
    }
}

} // verus!
