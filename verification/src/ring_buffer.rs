//! A first-in first-out buffer of fixed capacity over a ring of cells.

use vstd::prelude::*;

verus! {

/// A ring buffer of fixed capacity. Items leave in the order in which they
/// came; a full buffer refuses a new item and gives it back.
pub struct RingBuffer<T> {
    buffer: Vec<Option<T>>,
    size: usize,
    write_index: usize,
    read_index: usize,
}

/// The cell of a ring of `n` cells on which position `j` falls.
pub open spec fn cell_of(j: int, n: int) -> int {
    j % n
}

/// Two positions less than a ring's length apart fall on different cells.
proof fn lemma_distinct_cells(a: int, b: int, n: int)
    requires
        0 <= a < b < a + n,
    ensures
        cell_of(a, n) != cell_of(b, n),
{
    vstd::arithmetic::div_mod::lemma_fundamental_div_mod(a, n);
    vstd::arithmetic::div_mod::lemma_fundamental_div_mod(b, n);
    if a % n == b % n {
        let d = b / n - a / n;
        assert(b - a == n * d) by (nonlinear_arith)
            requires
                a == n * (a / n) + a % n,
                b == n * (b / n) + b % n,
                a % n == b % n,
                d == b / n - a / n,
        ;
        assert(false) by (nonlinear_arith)
            requires
                b - a == n * d,
                0 < b - a < n,
        ;
    }
}

impl<T> RingBuffer<T> {
    /// Number of items that the buffer can hold.
    pub closed spec fn capacity(&self) -> nat {
        self.size as nat
    }

    /// Number of items accepted since the buffer was made or last cleared.
    pub closed spec fn accepted(&self) -> nat {
        self.write_index as nat
    }

    /// A waiting item lies in cell `c`.
    spec fn occupied(&self, c: int) -> bool {
        exists|j: int|
            self.read_index <= j < self.write_index && #[trigger] cell_of(j, self.size as int)
                == c
    }

    /// The cells agree with the two positions: the cells of the waiting items
    /// are filled, and every other cell is empty.
    pub closed spec fn wf(&self) -> bool {
        &&& self.buffer@.len() == self.size
        &&& self.read_index <= self.write_index
        &&& self.write_index - self.read_index <= self.size
        &&& forall|j: int|
            self.read_index <= j < self.write_index ==> self.buffer@[#[trigger] cell_of(
                j,
                self.size as int,
            )] is Some
        &&& forall|c: int|
            0 <= c < self.size && !self.occupied(c) ==> (#[trigger] self.buffer@[c]) is None
    }

    /// The items that wait, oldest first.
    pub closed spec fn view(&self) -> Seq<T> {
        Seq::new(
            (self.write_index - self.read_index) as nat,
            |k: int| self.buffer@[cell_of(self.read_index + k, self.size as int)].unwrap(),
        )
    }

    /// An empty buffer for `size` items.
    pub fn new(size: usize) -> (ring: RingBuffer<T>)
        ensures
            ring.wf(),
            ring.capacity() == size,
            ring.accepted() == 0,
            ring@ == Seq::<T>::empty(),
    {
        let mut buffer: Vec<Option<T>> = Vec::with_capacity(size);
        let mut i: usize = 0;
        while i < size
            invariant
                i <= size,
                buffer@.len() == i,
                forall|c: int| 0 <= c < i ==> (#[trigger] buffer@[c]) is None,
            decreases size - i,
        {
            buffer.push(None);
            i += 1;
        }
        let ring = RingBuffer { buffer, size, write_index: 0, read_index: 0 };
        assert(ring@ =~= Seq::<T>::empty());
        ring
    }

    /// Number of items that wait.
    pub fn len(&self) -> (len: usize)
        requires
            self.wf(),
        ensures
            len == self@.len(),
    {
        self.write_index - self.read_index
    }

    /// Number of items accepted since the buffer was made or last cleared.
    pub fn total_accepted(&self) -> (count: usize)
        ensures
            count == self.accepted(),
    {
        self.write_index
    }

    /// Appends `value`, or gives it back when the buffer is full. The count
    /// of accepted items must still fit its integer.
    pub fn push(&mut self, value: T) -> (result: Result<(), T>)
        requires
            old(self).wf(),
            old(self).accepted() < usize::MAX,
        ensures
            final(self).wf(),
            final(self).capacity() == old(self).capacity(),
            old(self)@.len() >= old(self).capacity() ==> result == Err::<(), T>(value) && final(self)@ == old(self)@ && final(self).accepted() == old(self).accepted(),
            old(self)@.len() < old(self).capacity() ==> result == Ok::<(), T>(()) && final(self)@
                == old(self)@.push(value) && final(self).accepted() == old(self).accepted() + 1,
    {
        let write: usize = self.write_index;
        let read: usize = self.read_index;
        if write - read >= self.size {
            return Err(value);
        }
        let cell: usize = write % self.size;
        self.buffer[cell] = Some(value);
        self.write_index = write + 1;
        proof {
            let n = self.size as int;
            assert forall|j: int| read <= j < write implies #[trigger] cell_of(j, n) != cell_of(
                write as int,
                n,
            ) by {
                lemma_distinct_cells(j, write as int, n);
            }
            assert forall|j: int| read <= j < write + 1 implies self.buffer@[#[trigger] cell_of(
                j,
                n,
            )] is Some by {
                if j < write {
                    assert(old(self).buffer@[cell_of(j, n)] is Some);
                }
            }
            assert forall|c: int| 0 <= c < self.size && !self.occupied(c) implies (
            #[trigger] self.buffer@[c]) is None by {
                assert(cell_of(write as int, n) != c);
                if old(self).occupied(c) {
                    let j = choose|j: int| read <= j < write && #[trigger] cell_of(j, n) == c;
                    assert(read <= j < write + 1 && cell_of(j, n) == c);
                }
            }
            assert(self@ =~= old(self)@.push(value)) by {
                assert forall|k: int| 0 <= k < write - read implies self@[k] == old(self)@[k] by {
                    assert(cell_of(read + k, n) != cell_of(write as int, n));
                }
            }
        }
        Ok(())
    }

    /// Takes the oldest item out, if there is one.
    pub fn pop(&mut self) -> (result: Option<T>)
        requires
            old(self).wf(),
        ensures
            final(self).wf(),
            final(self).capacity() == old(self).capacity(),
            final(self).accepted() == old(self).accepted(),
            old(self)@.len() == 0 ==> result is None && final(self)@ == old(self)@,
            old(self)@.len() > 0 ==> result == Some(old(self)@[0]) && final(self)@ == old(self)@.skip(1),
    {
        let read: usize = self.read_index;
        let write: usize = self.write_index;
        if read == write {
            return None;
        }
        let cell: usize = read % self.size;
        assert(self.buffer@[cell_of(read as int, self.size as int)] is Some);
        assert(old(self)@[0] == self.buffer@[cell_of(read + 0, self.size as int)].unwrap());
        let value = self.buffer[cell].take();
        self.read_index = read + 1;
        proof {
            let n = self.size as int;
            assert forall|j: int| read < j < write implies #[trigger] cell_of(j, n) != cell_of(
                read as int,
                n,
            ) by {
                lemma_distinct_cells(read as int, j, n);
            }
            assert forall|j: int| read + 1 <= j < write implies self.buffer@[#[trigger] cell_of(
                j,
                n,
            )] is Some by {
                assert(old(self).buffer@[cell_of(j, n)] is Some);
            }
            assert forall|c: int| 0 <= c < self.size && !self.occupied(c) implies (
            #[trigger] self.buffer@[c]) is None by {
                if c != cell_of(read as int, n) && old(self).occupied(c) {
                    let j = choose|j: int| read <= j < write && #[trigger] cell_of(j, n) == c;
                    assert(read + 1 <= j < write && cell_of(j, n) == c);
                }
            }
            assert(self@ =~= old(self)@.skip(1)) by {
                assert forall|k: int| 0 <= k < write - read - 1 implies self@[k] == old(self)@[k
                    + 1] by {
                    assert(cell_of(read + 1 + k, n) != cell_of(read as int, n));
                    assert(read + 1 + k == read + (k + 1));
                }
            }
        }
        value
    }

    /// Empties the buffer: both positions go back to the start and every cell
    /// is emptied.
    pub fn clear(&mut self)
        requires
            old(self).wf(),
        ensures
            final(self).wf(),
            final(self).capacity() == old(self).capacity(),
            final(self).accepted() == 0,
            final(self)@ == Seq::<T>::empty(),
    {
        self.write_index = 0;
        self.read_index = 0;
        let mut i: usize = 0;
        while i < self.size
            invariant
                i <= self.size,
                self.size == old(self).size,
                self.buffer@.len() == self.size,
                self.write_index == 0,
                self.read_index == 0,
                forall|c: int| 0 <= c < i ==> (#[trigger] self.buffer@[c]) is None,
            decreases self.size - i,
        {
            self.buffer[i] = None;
            i += 1;
        }
        assert(self@ =~= Seq::<T>::empty());
    }
}

} // verus!
