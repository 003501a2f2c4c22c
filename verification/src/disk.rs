//! The backing file as the engine sees it: a growable image of its bytes.
//!
//! The program that embeds the library loads the file into a [`Disk`] on
//! start and writes the image back after each statement; the engine reads and
//! writes the image at byte offsets, as it would seek, read and write a file.
use vstd::prelude::*;

verus! {

/// `n` zero bytes.
pub open spec fn zeros(n: nat) -> Seq<u8> {
    Seq::new(n, |i: int| 0u8)
}

/// The byte at offset `i` as a reader with a zeroed buffer sees it: the
/// stored byte, or zero past the end.
pub open spec fn byte_at(image: Seq<u8>, i: int) -> u8 {
    if 0 <= i < image.len() {
        image[i]
    } else {
        0u8
    }
}

/// `base` with `bytes` laid over it from offset `at` on; `base` keeps its
/// length, and bytes that would fall outside it are dropped.
pub open spec fn overlay(base: Seq<u8>, at: int, bytes: Seq<u8>) -> Seq<u8> {
    Seq::new(
        base.len(),
        |i: int|
            if at <= i < at + bytes.len() {
                bytes[i - at]
            } else {
                base[i]
            },
    )
}

/// What a read of up to `len` bytes at `offset` returns: the bytes stored
/// there, fewer than `len` where the image ends first.
pub open spec fn read_range(image: Seq<u8>, offset: int, len: int) -> Seq<u8> {
    if offset < 0 || len <= 0 || offset >= image.len() {
        Seq::<u8>::empty()
    } else if offset + len <= image.len() {
        image.subrange(offset, offset + len)
    } else {
        image.subrange(offset, image.len() as int)
    }
}

/// The image after `bytes` are written at `offset`. A write past the end
/// first fills the gap with zeros; an empty write changes nothing.
pub open spec fn write_range(image: Seq<u8>, offset: int, bytes: Seq<u8>) -> Seq<u8> {
    if bytes.len() == 0 || offset < 0 {
        image
    } else {
        Seq::new(
            if image.len() >= offset + bytes.len() {
                image.len()
            } else {
                (offset + bytes.len()) as nat
            },
            |i: int|
                if offset <= i < offset + bytes.len() {
                    bytes[i - offset]
                } else {
                    byte_at(image, i)
                },
        )
    }
}

/// An in-memory image of the backing file.
#[derive(Debug)]
pub struct Disk {
    data: Vec<u8>,
}

impl View for Disk {
    type V = Seq<u8>;

    closed spec fn view(&self) -> Seq<u8> {
        self.data@
    }
}

impl Disk {
    /// An image holding `bytes`.
    pub fn new(bytes: Vec<u8>) -> (disk: Self)
        ensures
            disk@ == bytes@,
    {
        Disk { data: bytes }
    }

    /// The number of bytes in the image.
    pub fn len(&self) -> (n: usize)
        ensures
            n == self@.len(),
    {
        self.data.len()
    }

    /// The bytes of the image.
    pub fn bytes(&self) -> (bytes: &Vec<u8>)
        ensures
            bytes@ == self@,
    {
        &self.data
    }

    /// Reads up to `len` bytes at `offset`.
    pub fn read_at(&self, offset: usize, len: usize) -> (bytes: Vec<u8>)
        ensures
            bytes@ == read_range(self@, offset as int, len as int),
    {
        let mut out: Vec<u8> = Vec::new();
        if offset >= self.data.len() {
            return out;
        }
        let available: usize = self.data.len() - offset;
        let count: usize = if len <= available {
            len
        } else {
            available
        };
        let mut i: usize = 0;
        while i < count
            invariant
                i <= count,
                offset + count <= self.data.len(),
                out@ == self.data@.subrange(offset as int, offset + i),
            decreases count - i,
        {
            out.push(self.data[offset + i]);
            i = i + 1;
            assert(self.data@.subrange(offset as int, offset + i) == self.data@.subrange(
                offset as int,
                offset + i - 1,
            ).push(self.data@[offset + i - 1]));
        }
        out
    }

    /// Writes `bytes` at `offset`, growing the image where needed.
    pub fn write_at(&mut self, offset: usize, bytes: &[u8])
        requires
            offset + bytes@.len() <= usize::MAX,
        ensures
            final(self)@ == write_range(old(self)@, offset as int, bytes@),
    {
        if bytes.len() == 0 {
            return ;
        }
        let end: usize = offset + bytes.len();
        while self.data.len() < end
            invariant
                end == offset + bytes@.len(),
                old(self).data@.len() <= self.data@.len(),
                self.data@.len() <= end || self.data@.len() == old(self).data@.len(),
                forall|i: int| 0 <= i < self.data@.len() ==> self.data@[i] == byte_at(old(self).data@, i),
            decreases end - self.data.len(),
        {
            self.data.push(0u8);
        }
        let mut i: usize = 0;
        while i < bytes.len()
            invariant
                i <= bytes@.len(),
                end == offset + bytes@.len(),
                self.data@.len() == write_range(old(self)@, offset as int, bytes@).len(),
                self.data@.len() >= end,
                forall|k: int|
                    0 <= k < self.data@.len() ==> self.data@[k] == if offset <= k < offset + i {
                        bytes@[k - offset]
                    } else {
                        byte_at(old(self).data@, k)
                    },
            decreases bytes@.len() - i,
        {
            self.data.set(offset + i, bytes[i]);
            i = i + 1;
        }
        assert(self.data@ =~= write_range(old(self)@, offset as int, bytes@));
    }
}

/// The offset of the first byte in which `image` differs from `saved`, or
/// the length of the shorter one where there is none. A file that holds
/// `saved` holds `image` once the bytes of `image` from that offset on are
/// written there, if `image` is no shorter.
pub fn first_difference(saved: &[u8], image: &[u8]) -> (n: usize)
    ensures
        n <= saved@.len(),
        n <= image@.len(),
        saved@.take(n as int) == image@.take(n as int),
        n == saved@.len() || n == image@.len() || saved@[n as int] != image@[n as int],
        saved@.len() <= image@.len() ==> write_range(saved@, n as int, image@.skip(n as int))
            == image@,
{
    let mut n: usize = 0;
    while n < saved.len() && n < image.len() && saved[n] == image[n]
        invariant
            n <= saved@.len(),
            n <= image@.len(),
            forall|i: int| 0 <= i < n ==> saved@[i] == image@[i],
        decreases saved@.len() - n,
    {
        n = n + 1;
    }
    assert(saved@.take(n as int) =~= image@.take(n as int));
    assert(saved@.len() <= image@.len() ==> write_range(saved@, n as int, image@.skip(n as int))
        =~= image@);
    n
}

} // verus!
