use vstd::prelude::*;

verus! {

/// Most buffers the pool will retain.
pub const MAX_POOLED_BUFFERS: usize = 3;

/// A released buffer is retained only if its capacity is at least this many
/// bytes; smaller buffers are not worth keeping and are discarded.
pub const MIN_BUFFER_SIZE: usize = 1048576;

/// Relies on Vec::capacity: the number of elements the vector can hold
/// without reallocating, which is always at least its length.
#[verifier::external_body]
fn vec_capacity(v: &Vec<u8>) -> (r: usize)
    ensures
        r >= v@.len(),
{
    v.capacity()
}

/// A bounded cache of reusable byte buffers. Reuse is LIFO: `acquire` hands
/// back the most recently released buffer. The pool never holds more than
/// `MAX_POOLED_BUFFERS` entries.
pub struct BufferPool {
    bufs: Vec<Vec<u8>>,
}

impl View for BufferPool {
    type V = Seq<Seq<u8>>;

    closed spec fn view(&self) -> Seq<Seq<u8>> {
        self.bufs@.map_values(|b: Vec<u8>| b@)
    }
}

impl BufferPool {
    /// The pool never exceeds its capacity bound.
    pub open spec fn wf(&self) -> bool {
        self@.len() <= MAX_POOLED_BUFFERS
    }

    /// A new, empty pool.
    pub fn new() -> (p: BufferPool)
        ensures
            p.wf(),
            p@ == Seq::<Seq<u8>>::empty(),
    {
        let p = BufferPool { bufs: Vec::new() };
        proof {
            assert(p@ =~= Seq::<Seq<u8>>::empty());
        }
        p
    }

    /// How many buffers the pool currently holds.
    pub fn len(&self) -> (n: usize)
        ensures
            n == self@.len(),
    {
        self.bufs.len()
    }

    /// Pop the most recently released buffer; if the pool is empty, allocate
    /// a fresh zero-filled buffer of `size` bytes. Always succeeds.
    pub fn acquire(&mut self, size: usize) -> (buf: Vec<u8>)
        requires
            old(self).wf(),
        ensures
            final(self).wf(),
            old(self)@.len() > 0 ==> final(self)@ == old(self)@.drop_last() && buf@ == old(self)@.last(),
            old(self)@.len() == 0 ==> final(self)@ == old(self)@ && buf@ == Seq::new(size as nat, |i: int| 0u8),
    {
        match self.bufs.pop() {
            Some(b) => {
                proof {
                    assert(self@ =~= old(self)@.drop_last());
                }
                b
            },
            None => {
                let buf = alloc_zeroed(size);
                proof {
                    assert(self@ =~= old(self)@);
                }
                buf
            },
        }
    }

    /// Give a buffer back. If its capacity clears the minimum-size gate it is
    /// logically cleared (length reset, capacity kept) and, when there is
    /// room, pushed back; otherwise it is discarded.
    pub fn release(&mut self, buffer: Vec<u8>)
        requires
            old(self).wf(),
        ensures
            final(self).wf(),
            final(self)@ == old(self)@ || (old(self)@.len() < MAX_POOLED_BUFFERS && final(self)@ == old(self)@.push(Seq::<u8>::empty())),
            old(self)@.len() >= MAX_POOLED_BUFFERS ==> final(self)@ == old(self)@,
            buffer@.len() >= MIN_BUFFER_SIZE && old(self)@.len() < MAX_POOLED_BUFFERS ==> final(self)@ == old(self)@.push(Seq::<u8>::empty()),
    {
        let mut buffer = buffer;
        let cap = vec_capacity(&buffer);
        if cap >= MIN_BUFFER_SIZE {
            buffer.clear();
            if self.bufs.len() < MAX_POOLED_BUFFERS {
                self.bufs.push(buffer);
                proof {
                    assert(self@ =~= old(self)@.push(Seq::<u8>::empty()));
                }
            }
        }
    }

    /// Fill the pool up to capacity with zero-filled buffers of `size` bytes,
    /// keeping whatever it already holds.
    pub fn prewarm(&mut self, size: usize)
        requires
            old(self).wf(),
        ensures
            final(self).wf(),
            final(self)@.len() == MAX_POOLED_BUFFERS,
            forall|i: int| 0 <= i < old(self)@.len() ==> final(self)@[i] == old(self)@[i],
            forall|i: int|
                old(self)@.len() <= i < MAX_POOLED_BUFFERS ==> final(self)@[i] == Seq::new(
                    size as nat,
                    |j: int| 0u8,
                ),
    {
        while self.bufs.len() < MAX_POOLED_BUFFERS
            invariant
                self@.len() <= MAX_POOLED_BUFFERS,
                forall|i: int| 0 <= i < old(self)@.len() ==> self@[i] == old(self)@[i],
                old(self)@.len() <= self@.len(),
                forall|i: int|
                    old(self)@.len() <= i < self@.len() ==> self@[i] == Seq::new(
                        size as nat,
                        |j: int| 0u8,
                    ),
            decreases MAX_POOLED_BUFFERS - self@.len(),
        {
            let ghost prev_view = self@;
            let b = alloc_zeroed(size);
            self.bufs.push(b);
            proof {
                assert(self@ =~= prev_view.push(Seq::new(size as nat, |j: int| 0u8)));
            }
        }
    }

    /// Empty the pool.
    pub fn clear(&mut self)
        ensures
            final(self).wf(),
            final(self)@ == Seq::<Seq<u8>>::empty(),
    {
        self.bufs.clear();
        proof {
            assert(self@ =~= Seq::<Seq<u8>>::empty());
        }
    }
}

/// A fresh zero-filled buffer of `size` bytes.
fn alloc_zeroed(size: usize) -> (buf: Vec<u8>)
    ensures
        buf@ == Seq::new(size as nat, |i: int| 0u8),
{
    let buf = vec![0u8; size];
    proof {
        assert(buf@ =~= Seq::new(size as nat, |i: int| 0u8));
    }
    buf
}

} // verus!
