//! A text writer into a fixed buffer that always leaves room for the
//! terminating NUL of a C string.

use vstd::prelude::*;
use vstd::slice::{slice_subrange, SliceAdditionalExecFns};
use vstd::string::StringSliceAdditionalSpecFns;

verus! {

/// A writer over a caller's fixed buffer, so that no allocation is needed,
/// and how much of it is written. Written text never holds a NUL, and one
/// byte always stays free for the terminator. The C string it ends with
/// borrows the buffer, and lives no longer than it.
pub struct CStrBuf<'a> {
    buf: &'a mut [u8],
    len: usize,
}

/// Why text was refused: no room for it and the terminator, or a NUL in it.
#[derive(Debug, Clone, Copy, PartialEq, Eq)]
pub struct CStrBufError;

impl<'a> CStrBuf<'a> {
    /// The whole buffer as it now stands.
    pub closed spec fn contents(&self) -> Seq<u8> {
        self.buf@
    }

    /// The caller's buffer that the writer holds.
    pub closed spec fn buffer(&self) -> &'a mut [u8] {
        self.buf
    }

    /// How many bytes are written.
    pub closed spec fn written_len(&self) -> nat {
        self.len as nat
    }

    /// The bytes written so far.
    pub open spec fn written(&self) -> Seq<u8> {
        self.contents().take(self.written_len() as int)
    }

    /// The written length lies within the buffer.
    pub closed spec fn wf(&self) -> bool {
        self.len <= self.buf@.len()
    }

    /// A writer over `buf`, with nothing written; what it writes ends up in
    /// `buf`.
    pub fn new(buf: &'a mut [u8]) -> (r: Self)
        ensures
            r.wf(),
            r.contents() == old(buf)@,
            r.written_len() == 0,
            final(r.buffer())@ == final(buf)@,
    {
        CStrBuf { buf, len: 0 }
    }

    /// Writes the UTF-8 bytes of `s` after those already written, where they
    /// fit with one byte to spare and hold no NUL; the rest of the buffer is
    /// left as it was. Otherwise refuses them and changes nothing.
    pub fn write_str(&mut self, s: &str) -> (r: Result<(), CStrBufError>)
        requires
            old(self).wf(),
        ensures
            final(self).wf(),
            final(final(self).buffer())@ == final(old(self).buffer())@,
            r is Ok <==> (old(self).written_len() + s.spec_bytes().len() + 1 <= old(self).contents().len()
                && !s.spec_bytes().contains(0u8)),
            r is Ok ==> {
                &&& final(self).written_len() == old(self).written_len() + s.spec_bytes().len()
                &&& final(self).contents() == old(self).contents().take(old(self).written_len() as int)
                    + s.spec_bytes() + old(self).contents().skip(
                    (old(self).written_len() + s.spec_bytes().len()) as int,
                )
            },
            r is Err ==> final(self).contents() == old(self).contents() && final(self).written_len()
                == old(self).written_len(),
    {
        let bytes = s.as_bytes();
        let n = bytes.len();
        if n >= self.buf.len() - self.len {
            return Err(CStrBufError);
        }
        let mut k: usize = 0;
        while k < n
            invariant
                k <= n == bytes@.len(),
                bytes@ == s.spec_bytes(),
                *self == *old(self),
                self.wf(),
                n < self.buf@.len() - self.len,
                forall|i: int| 0 <= i < k ==> bytes@[i] != 0,
            decreases n - k,
        {
            if bytes[k] == 0 {
                assert(bytes@[k as int] == 0u8);
                assert(s.spec_bytes().contains(0u8));
                return Err(CStrBufError);
            }
            k = k + 1;
        }
        let ghost before = self.buf@;
        let start = self.len;
        let cap = self.buf.len();
        let mut j: usize = 0;
        while j < n
            invariant
                j <= n == bytes@.len(),
                bytes@ == s.spec_bytes(),
                start == self.len,
                start + n < before.len() == cap,
                self.buf@.len() == before.len(),
                forall|i: int| 0 <= i < start ==> self.buf@[i] == before[i],
                forall|i: int| start + n <= i < before.len() ==> self.buf@[i] == before[i],
                forall|i: int| 0 <= i < j ==> self.buf@[start + i] == bytes@[i],
                final(self.buffer())@ == final(old(self).buffer())@,
            decreases n - j,
        {
            self.buf.set(start + j, bytes[j]);
            j = j + 1;
        }
        self.len = start + n;
        assert(self.buf@ =~= before.take(start as int) + bytes@ + before.skip(start + n));
        Ok(())
    }

    /// Writes the terminating NUL after the written bytes, where the buffer
    /// has room for it, and gives the C string (the written bytes and the
    /// NUL) as a view of the buffer.
    pub fn add_null_terminator(self) -> (r: Result<&'a [u8], CStrBufError>)
        requires
            self.wf(),
        ensures
            r is Ok <==> self.written_len() + 1 <= self.contents().len(),
            r matches Ok(c) ==> {
                &&& c@ == self.written().push(0)
                &&& final(self.buffer())@ == self.contents().update(self.written_len() as int, 0)
            },
            r is Err ==> final(self.buffer())@ == self.contents(),
    {
        let CStrBuf { buf, len } = self;
        if len >= buf.len() {
            return Err(CStrBufError);
        }
        buf.set(len, 0);
        let shared: &'a [u8] = buf;
        let c = slice_subrange(shared, 0, len + 1);
        Ok(c)
    }
}

} // verus!
