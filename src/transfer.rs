//! The transfer buffer: the serialized request that the guest is reading,
//! with a read position.
use vstd::prelude::*;

verus! {

/// Mathematical value of a transfer buffer.
pub struct BufferView {
    pub data: Seq<u8>,
    pub pos: nat,
}

/// Bytes of the pending request and how many of them the guest has read.
pub struct TransferBuffer {
    data: Vec<u8>,
    pos: usize,
}

/// The buffer with no pending request.
pub open spec fn empty_buffer() -> BufferView {
    BufferView { data: Seq::empty(), pos: 0 }
}

/// What one read of at most `len` bytes returns, and the buffer after it.
/// A read at the end returns nothing and clears the buffer, which marks it
/// ready for the next request.
pub open spec fn read_spec(b: BufferView, len: nat) -> (BufferView, Seq<u8>) {
    let rest = b.data.len() - b.pos;
    if rest <= 0 {
        (empty_buffer(), Seq::empty())
    } else {
        let n = if len < rest { len as int } else { rest };
        (BufferView { data: b.data, pos: (b.pos + n) as nat }, b.data.subrange(b.pos as int, b.pos + n))
    }
}

/// The chunks that successive reads of the given sizes return.
pub open spec fn read_chunks(b: BufferView, sizes: Seq<nat>) -> Seq<Seq<u8>>
    decreases sizes.len(),
{
    if sizes.len() == 0 {
        Seq::empty()
    } else {
        let (b1, c) = read_spec(b, sizes[0]);
        seq![c] + read_chunks(b1, sizes.drop_first())
    }
}

/// All the chunks put back together.
pub open spec fn concat_chunks(cs: Seq<Seq<u8>>) -> Seq<u8>
    decreases cs.len(),
{
    if cs.len() == 0 {
        Seq::empty()
    } else {
        cs[0] + concat_chunks(cs.drop_first())
    }
}

/// The number of reads before the first one that returns nothing.
pub open spec fn first_empty(cs: Seq<Seq<u8>>) -> int
    decreases cs.len(),
{
    if cs.len() == 0 {
        0
    } else if cs[0].len() == 0 {
        0
    } else {
        1 + first_empty(cs.drop_first())
    }
}

impl View for TransferBuffer {
    type V = BufferView;

    closed spec fn view(&self) -> BufferView {
        BufferView { data: self.data@, pos: self.pos as nat }
    }
}

impl TransferBuffer {
    /// The read position never passes the end.
    pub closed spec fn wf(&self) -> bool {
        self.pos <= self.data.len()
    }

    /// An empty buffer.
    pub fn new() -> (r: TransferBuffer)
        ensures
            r.wf(),
            r@ == empty_buffer(),
    {
        TransferBuffer { data: Vec::new(), pos: 0 }
    }

    /// Whether no request is pending.
    pub fn is_empty(&self) -> (r: bool)
        ensures
            r == (self@.data.len() == 0),
    {
        self.data.len() == 0
    }

    /// Replaces the content with a new request, to be read from its start.
    pub fn load(&mut self, bytes: Vec<u8>)
        ensures
            final(self).wf(),
            final(self)@ == (BufferView { data: bytes@, pos: 0 }),
    {
        self.data = bytes;
        self.pos = 0;
    }

    /// Reads at most `len` bytes from the read position. At the end it
    /// returns nothing and clears the buffer.
    pub fn read(&mut self, len: usize) -> (r: Vec<u8>)
        requires
            old(self).wf(),
        ensures
            final(self).wf(),
            (final(self)@, r@) == read_spec(old(self)@, len as nat),
    {
        let rest = self.data.len() - self.pos;
        if rest == 0 {
            self.data = Vec::new();
            self.pos = 0;
            return Vec::new();
        }
        let n: usize = if len < rest { len } else { rest };
        let mut out: Vec<u8> = Vec::with_capacity(n);
        let mut i: usize = 0;
        while i < n
            invariant
                self.wf(),
                n <= self.data.len() - self.pos,
                i <= n,
                out@ == self.data@.subrange(self.pos as int, self.pos + i),
            decreases n - i,
        {
            out.push(self.data[self.pos + i]);
            i = i + 1;
            assert(out@ =~= self.data@.subrange(self.pos as int, self.pos + i));
        }
        self.pos = self.pos + n;
        out
    }
}

/// Reading a freshly loaded request in chunks of any positive sizes gives
/// back exactly its bytes, and the read that ends the round returns nothing,
/// once there are more reads than bytes.
pub proof fn lemma_chunks_reassemble(data: Seq<u8>, sizes: Seq<nat>)
    requires
        sizes.len() > data.len(),
        forall|i: int| 0 <= i < sizes.len() ==> sizes[i] > 0,
    ensures
        ({
            let cs = read_chunks(BufferView { data, pos: 0 }, sizes);
            let k = first_empty(cs);
            &&& 0 <= k < cs.len()
            &&& cs[k].len() == 0
            &&& concat_chunks(cs.subrange(0, k)) == data
        }),
{
    lemma_chunks_from(BufferView { data, pos: 0 }, sizes);
    assert(data.subrange(0, data.len() as int) =~= data);
}

proof fn lemma_chunks_from(b: BufferView, sizes: Seq<nat>)
    requires
        b.pos <= b.data.len(),
        sizes.len() > b.data.len() - b.pos,
        forall|i: int| 0 <= i < sizes.len() ==> sizes[i] > 0,
    ensures
        ({
            let cs = read_chunks(b, sizes);
            let k = first_empty(cs);
            &&& 0 <= k < cs.len()
            &&& cs[k].len() == 0
            &&& concat_chunks(cs.subrange(0, k)) == b.data.subrange(b.pos as int, b.data.len() as int)
        }),
    decreases sizes.len(),
{
    let cs = read_chunks(b, sizes);
    let (b1, c) = read_spec(b, sizes[0]);
    assert(cs[0] == c);
    assert(cs.drop_first() =~= read_chunks(b1, sizes.drop_first()));
    if b.data.len() - b.pos == 0 {
        assert(first_empty(cs) == 0);
        assert(cs.subrange(0, 0) =~= Seq::<Seq<u8>>::empty());
        assert(b.data.subrange(b.pos as int, b.data.len() as int) =~= Seq::<u8>::empty());
    } else {
        let rest = sizes.drop_first();
        assert forall|i: int| 0 <= i < rest.len() implies rest[i] > 0 by {
            assert(rest[i] == sizes[i + 1]);
        }
        lemma_chunks_from(b1, rest);
        let cs1 = read_chunks(b1, rest);
        let k1 = first_empty(cs1);
        assert(c.len() > 0);
        assert(first_empty(cs) == 1 + k1);
        let k = 1 + k1;
        assert(cs.subrange(0, k).drop_first() =~= cs1.subrange(0, k1));
        assert(cs.subrange(0, k)[0] == c);
        assert(concat_chunks(cs.subrange(0, k)) == c + concat_chunks(cs1.subrange(0, k1)));
        assert(c + b1.data.subrange(b1.pos as int, b1.data.len() as int)
            =~= b.data.subrange(b.pos as int, b.data.len() as int));
    }
}

} // verus!
