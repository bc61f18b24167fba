//! Growable array (`Vector`) and fixed-size 2-D grid (`Matrix`) used by the
//! optimizer. `Vector` keeps the capacity-doubling policy of a hand-rolled
//! resizable array as explicit bookkeeping on top of the standard buffer.

use vstd::prelude::*;

verus! {

/// A runtime-resizable piece of memory: the storage buffer together with the
/// capacity the growth policy has granted so far.
pub struct ResizableMemory<T> {
    pub buf: Vec<T>,
    pub cap: usize,
}

/// A growable array-type list with an explicit capacity-doubling policy.
pub struct Vector<T> {
    mem: ResizableMemory<T>,
}

/// A two-dimensional fixed-size grid; unset cells read as `None`.
pub struct Matrix<T> {
    pub mem: Vector<Option<T>>,
    pub w: usize,
    pub h: usize,
}

/// The capacity the growth policy grants when the current capacity `cap` is
/// exhausted: 8 for an empty allocation, double otherwise.
pub open spec fn grown_cap(cap: int) -> int {
    if cap == 0 {
        8
    } else {
        2 * cap
    }
}

impl<T> ResizableMemory<T> {
    /// Creates a new resizable memory with zero capacity.
    fn new() -> (r: Self)
        ensures
            r.buf@ =~= Seq::<T>::empty(),
            r.cap == 0,
    {
        ResizableMemory { buf: Vec::new(), cap: 0 }
    }

    /// Creates a new resizable memory with the specified capacity.
    fn new_with_size(cap: usize) -> (r: Self)
        ensures
            r.buf@ =~= Seq::<T>::empty(),
            r.cap == cap,
    {
        ResizableMemory { buf: Vec::with_capacity(cap), cap }
    }

    /// Grows the capacity to double the size, or to 8 if it was 0.
    fn grow(&mut self)
        requires
            old(self).cap < 0x4000_0000,
        ensures
            final(self).buf@ == old(self).buf@,
            final(self).cap == grown_cap(old(self).cap as int),
    {
        let new_cap: usize = if self.cap == 0 {
            8
        } else {
            self.cap * 2
        };
        self.cap = new_cap;
    }
}

impl<T> Vector<T> {
    /// Creates a new vector with zero capacity.
    pub fn new() -> (r: Self)
        ensures
            r@ =~= Seq::<T>::empty(),
            r.spec_cap() == 0,
    {
        Vector { mem: ResizableMemory::new() }
    }

    /// Creates a new vector with the specified capacity.
    pub fn new_with_size(cap: usize) -> (r: Self)
        ensures
            r@ =~= Seq::<T>::empty(),
            r.spec_cap() == cap,
    {
        Vector { mem: ResizableMemory::new_with_size(cap) }
    }

    /// The capacity the growth policy has granted so far.
    pub closed spec fn spec_cap(&self) -> int {
        self.mem.cap as int
    }

    /// Pushes an item to the end of the vector, growing the capacity first
    /// when it is exhausted.
    pub fn push(&mut self, item: T)
        requires
            old(self)@.len() < 0x4000_0000,
        ensures
            final(self)@ == old(self)@.push(item),
            final(self).spec_cap() == if old(self)@.len() == old(self).spec_cap() {
                grown_cap(old(self).spec_cap())
            } else {
                old(self).spec_cap()
            },
    {
        if self.mem.buf.len() == self.mem.cap {
            self.mem.grow();
        }
        self.mem.buf.push(item);
    }

    /// Removes the item at the end of the vector and returns it, or `None`
    /// if the vector is empty.
    pub fn pop(&mut self) -> (r: Option<T>)
        ensures
            final(self).spec_cap() == old(self).spec_cap(),
            old(self)@.len() == 0 ==> r is None && final(self)@ == old(self)@,
            old(self)@.len() > 0 ==> r == Some(old(self)@.last()) && final(self)@ == old(
                self,
            )@.drop_last(),
    {
        if self.mem.buf.len() == 0 {
            None
        } else {
            self.mem.buf.pop()
        }
    }

    /// Inserts an item at the given index, shifting later items up.
    pub fn insert(&mut self, index: usize, item: T)
        requires
            index <= old(self)@.len(),
            old(self)@.len() < 0x4000_0000,
        ensures
            final(self)@ == old(self)@.insert(index as int, item),
    {
        if self.mem.buf.len() == self.mem.cap {
            self.mem.grow();
        }
        self.mem.buf.insert(index, item);
    }

    /// Removes and returns the item at the given index, shifting later items
    /// down.
    pub fn remove(&mut self, index: usize) -> (r: T)
        requires
            index < old(self)@.len(),
        ensures
            r == old(self)@[index as int],
            final(self)@ == old(self)@.remove(index as int),
            final(self).spec_cap() == old(self).spec_cap(),
    {
        self.mem.buf.remove(index)
    }

    /// The number of items in the vector.
    pub fn len(&self) -> (r: usize)
        ensures
            r == self@.len(),
    {
        self.mem.buf.len()
    }

    /// The capacity the growth policy has granted so far.
    pub fn get_cap(&self) -> (r: usize)
        ensures
            r == self.spec_cap(),
    {
        self.mem.cap
    }

    /// A reference to the item at the given index.
    pub fn get(&self, index: usize) -> (r: &T)
        requires
            index < self@.len(),
        ensures
            *r == self@[index as int],
    {
        &self.mem.buf[index]
    }

    /// Replaces the item at the given index.
    pub fn set(&mut self, index: usize, item: T)
        requires
            index < old(self)@.len(),
        ensures
            final(self)@ == old(self)@.update(index as int, item),
            final(self).spec_cap() == old(self).spec_cap(),
    {
        self.mem.buf.set(index, item);
    }
}

impl<T> View for Vector<T> {
    type V = Seq<T>;

    closed spec fn view(&self) -> Seq<T> {
        self.mem.buf@
    }
}

/// The grid cells of a well-formed matrix cover exactly `w * h` slots.
pub open spec fn wf_matrix<T>(m: &Matrix<T>) -> bool {
    &&& m.view().len() == m.w * m.h
    &&& m.w * m.h <= 0x4000_0000
}

impl<T> Matrix<T> {
    /// The grid contents in row-major order: the cell at `(x, y)` is at
    /// position `y * w + x`.
    pub closed spec fn view(&self) -> Seq<Option<T>> {
        self.mem@
    }

    /// Creates a new matrix with the given dimensions, filled with `None`.
    pub fn new(width: usize, height: usize) -> (r: Self)
        requires
            width * height <= 0x4000_0000,
        ensures
            wf_matrix(&r),
            r.w == width,
            r.h == height,
            r.view() =~= Seq::new((width * height) as nat, |i: int| None::<T>),
    {
        proof {
            assert(width * height >= 0) by (nonlinear_arith);
        }
        let size: usize = width * height;
        let mut mem: Vector<Option<T>> = Vector::new_with_size(size);
        let mut filled: usize = 0;
        while filled < size
            invariant
                filled <= size,
                size <= 0x4000_0000,
                mem@ =~= Seq::new(filled as nat, |i: int| None::<T>),
            decreases size - filled,
        {
            mem.push(None);
            filled = filled + 1;
        }
        Matrix { mem, w: width, h: height }
    }

    /// A reference to the cell at `(x, y)`.
    pub fn get(&self, x: usize, y: usize) -> (r: &Option<T>)
        requires
            wf_matrix(self),
            x < self.w,
            y < self.h,
        ensures
            *r == self.view()[y * self.w + x],
    {
        proof {
            lemma_row_major_index(self.w as int, self.h as int, x as int, y as int);
        }
        self.mem.get(y * self.w + x)
    }

    /// Sets the cell at `(x, y)` to the given item.
    pub fn set(&mut self, x: usize, y: usize, item: T)
        requires
            wf_matrix(old(self)),
            x < old(self).w,
            y < old(self).h,
        ensures
            wf_matrix(final(self)),
            final(self).w == old(self).w,
            final(self).h == old(self).h,
            final(self).view() == old(self).view().update((y * old(self).w + x) as int, Some(item)),
    {
        proof {
            lemma_row_major_index(self.w as int, self.h as int, x as int, y as int);
        }
        self.mem.set(y * self.w + x, Some(item));
    }
}

/// In a `w`-column row-major grid of `h` rows, the slot of cell `(x, y)` lies
/// inside the grid's backing storage.
pub proof fn lemma_row_major_index(w: int, h: int, x: int, y: int)
    requires
        0 <= x < w,
        0 <= y < h,
    ensures
        0 <= y * w + x < w * h,
        y * w + x <= w * h,
{
    assert((0 <= x < w && 0 <= y < h) ==> (0 <= y * w + x < w * h && y * w + x <= w * h))
        by (nonlinear_arith);
}

} // verus!
