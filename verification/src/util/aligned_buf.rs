//! Page-sized I/O buffers.
//!
//! A buffer is always a whole number of pages long (rounded up from the size
//! asked for), which zero-copy APIs expect. Its storage is an ordinary
//! zero-initialized vector.

use vstd::prelude::*;

verus! {

/// Calls `rustix::param::page_size()`, the process's page size. Nothing is
/// claimed of the value, which comes from the machine.
#[verifier::external_body]
fn system_page_size() -> (ps: usize) {
    rustix::param::page_size()
}

/// `size` rounded up to a multiple of `page`.
pub open spec fn rounded_up(size: int, page: int) -> int {
    if size % page == 0 {
        size
    } else {
        size + (page - size % page)
    }
}

/// A page-sized buffer.
pub struct AlignedBuf {
    buf: Vec<u8>,
    page: usize,
}

impl View for AlignedBuf {
    type V = Seq<u8>;

    closed spec fn view(&self) -> Seq<u8> {
        self.buf@
    }
}

impl AlignedBuf {
    /// The page size the buffer was rounded to.
    pub closed spec fn page(&self) -> nat {
        self.page as nat
    }

    /// A zeroed buffer of `size` bytes rounded up to a multiple of `page`.
    pub fn with_page(size: usize, page: usize) -> (b: Self)
        requires
            size > 0,
            page > 0,
            rounded_up(size as int, page as int) <= usize::MAX,
        ensures
            b@.len() == rounded_up(size as int, page as int),
            b.page() == page,
            forall|i: int| 0 <= i < b@.len() ==> b@[i] == 0,
    {
        let rem = size % page;
        let n = if rem == 0 {
            size
        } else {
            size + (page - rem)
        };
        let buf = vec![0u8; n];
        AlignedBuf { buf, page }
    }

    /// Allocates a zeroed buffer of at least `size` bytes, a whole number of
    /// system pages long. A page size of zero (which no system reports) is
    /// taken as one byte, and a size that cannot be rounded up without
    /// overflowing is kept as it is.
    pub fn new(size: usize) -> (b: Self)
        requires
            size > 0,
        ensures
            b@.len() >= size,
            b.page() >= 1,
            rounded_up(size as int, b.page() as int) <= usize::MAX ==> b@.len() == rounded_up(
                size as int,
                b.page() as int,
            ),
            rounded_up(size as int, b.page() as int) > usize::MAX ==> b@.len() == size,
            forall|i: int| 0 <= i < b@.len() ==> b@[i] == 0,
    {
        let ps = system_page_size();
        let page: usize = if ps == 0 {
            1
        } else {
            ps
        };
        let rem = size % page;
        if rem == 0 {
            return AlignedBuf::with_page(size, page);
        }
        let pad = page - rem;
        if size > usize::MAX - pad {
            return AlignedBuf { buf: vec![0u8; size], page };
        }
        AlignedBuf::with_page(size, page)
    }

    /// The page size the buffer was rounded to, in bytes.
    pub fn page_bytes(&self) -> (n: usize)
        ensures
            n == self.page(),
    {
        self.page
    }

    /// Returns the capacity of the buffer in bytes.
    pub fn len(&self) -> (n: usize)
        ensures
            n == self@.len(),
    {
        self.buf.len()
    }

    /// Returns whether the buffer is empty (never, for an allocated buffer).
    pub fn is_empty(&self) -> (r: bool)
        ensures
            r == (self@.len() == 0),
    {
        self.buf.len() == 0
    }

    /// The whole buffer.
    pub fn as_slice(&self) -> (s: &[u8])
        ensures
            s@ == self@,
    {
        self.buf.as_slice()
    }

    /// The byte at `i`.
    pub fn get(&self, i: usize) -> (v: u8)
        requires
            i < self@.len(),
        ensures
            v == self@[i as int],
    {
        self.buf[i]
    }

    /// Writes `v` at `i`.
    pub fn set(&mut self, i: usize, v: u8)
        requires
            i < old(self)@.len(),
        ensures
            final(self)@ == old(self)@.update(i as int, v),
            final(self).page() == old(self).page(),
    {
        self.buf.set(i, v);
    }
}

} // verus!
