//! A file held in memory: the plainest backend of the capability traits.

use crate::fs::{exact_transfer, overwritten, Readable, Writable, SHORT_TRANSFER};
use vstd::prelude::*;
use vstd::slice::slice_to_vec;

verus! {

/// The error of a transfer that starts behind the end of the file.
pub const OFFSET_OUT_OF_RANGE: &'static str = "offset out of range";

/// The error of a write that would make the file longer than memory can
/// address.
pub const FILE_TOO_LARGE: &'static str = "file too large";

/// The smaller of two numbers.
pub open spec fn spec_min(a: int, b: int) -> int {
    if a <= b {
        a
    } else {
        b
    }
}

/// Decodes bytes with `String::from_utf8_lossy`.
///
/// Believed of the std call: of well-formed UTF-8 it hands back the text
/// that the bytes encode.
#[verifier::external_body]
fn decoded(bytes: &[u8]) -> (text: String)
    requires
        vstd::utf8::valid_utf8(bytes@),
    ensures
        text@ == vstd::utf8::decode_utf8(bytes@),
{
    String::from_utf8_lossy(bytes).into_owned()
}

/// A file whose bytes live in memory, behind a device that moves at most
/// `burst` bytes in one plain transfer.
pub struct MemoryFile {
    data: Vec<u8>,
    burst: usize,
}

impl MemoryFile {
    /// The bytes that the file holds.
    pub closed spec fn bytes(&self) -> Seq<u8> {
        self.data@
    }

    /// The most bytes that one plain transfer moves.
    pub closed spec fn burst(&self) -> usize {
        self.burst
    }

    /// A file that holds `data` and moves at most `burst` bytes at a time.
    pub fn new(data: Vec<u8>, burst: usize) -> (file: Self)
        ensures
            file.bytes() == data@,
            file.burst() == burst,
    {
        MemoryFile { data, burst }
    }

    /// The bytes that the file holds.
    pub fn as_bytes(&self) -> (bytes: &[u8])
        ensures
            bytes@ == self.bytes(),
    {
        self.data.as_slice()
    }
}

impl Readable for MemoryFile {
    open spec fn contents(&self) -> Seq<u8> {
        self.bytes()
    }

    fn read_all(&self) -> (text: String) {
        decoded(self.data.as_slice())
    }

    /// Succeeds wherever the offset lies in the file or at its end, and then
    /// reads as much as the buffer, the rest of the file and the burst allow.
    /// What of the buffer lies behind the bytes read stays as it was.
    fn read_at(&self, buf: &mut [u8], offset: u64) -> (read: Result<usize, &'static str>)
        ensures
            read is Ok <==> offset <= self.bytes().len(),
            read is Ok ==> read->Ok_0 == spec_min(
                spec_min(old(buf)@.len() as int, self.bytes().len() - offset),
                self.burst() as int,
            ),
            read is Ok ==> final(buf)@.skip(read->Ok_0 as int) == old(buf)@.skip(
                read->Ok_0 as int,
            ),
            read is Err ==> read->Err_0 == OFFSET_OUT_OF_RANGE && final(buf)@ == old(buf)@,
    {
        let len = self.data.len();
        if offset > len as u64 {
            return Err(OFFSET_OUT_OF_RANGE);
        }
        let start = offset as usize;
        let mut n = buf.len();
        if n > len - start {
            n = len - start;
        }
        if n > self.burst {
            n = self.burst;
        }
        let mut i: usize = 0;
        while i < n
            invariant
                i <= n,
                n <= buf@.len(),
                start + n <= len,
                len == self.data@.len(),
                buf@.len() == old(buf)@.len(),
                forall|k: int| 0 <= k < i ==> buf@[k] == self.data@[start + k],
                forall|k: int| i <= k < buf@.len() ==> buf@[k] == old(buf)@[k],
            decreases n - i,
        {
            buf[i] = self.data[start + i];
            i += 1;
        }
        proof {
            assert(buf@.subrange(0, n as int) =~= self.data@.subrange(
                offset as int,
                offset + n,
            ));
            assert(buf@.skip(n as int) =~= old(buf)@.skip(n as int));
        }
        Ok(n)
    }

    /// Succeeds wherever the buffer lies within the file and within one
    /// burst.
    fn read_exact_at(&self, buf: &mut [u8], offset: u64) -> (read: Result<(), &'static str>)
        ensures
            read is Ok <==> offset + old(buf)@.len() <= self.bytes().len() && old(buf)@.len()
                <= self.burst(),
            read is Err ==> read->Err_0 == if offset > self.bytes().len() {
                OFFSET_OUT_OF_RANGE
            } else {
                SHORT_TRANSFER
            },
    {
        let requested = buf.len();
        let outcome = self.read_at(buf, offset);
        proof {
            if outcome == Ok::<usize, &'static str>(requested) {
                assert(final(buf)@ =~= final(buf)@.subrange(0, requested as int));
            }
        }
        exact_transfer(requested, outcome)
    }
}

impl Writable for MemoryFile {
    open spec fn contents(&self) -> Seq<u8> {
        self.bytes()
    }

    fn rewrite(&mut self, buf: &[u8])
        ensures
            final(self).bytes() == buf@,
            final(self).burst() == old(self).burst(),
    {
        self.data = slice_to_vec(buf);
    }

    /// Succeeds wherever the offset lies in the file or at its end and the
    /// file stays addressable, and then writes as much of the buffer as the
    /// burst allows.
    fn write_at(&mut self, buf: &[u8], offset: u64) -> (written: Result<usize, &'static str>)
        ensures
            final(self).burst() == old(self).burst(),
            written is Ok <==> offset <= old(self).bytes().len() && offset + spec_min(
                buf@.len() as int,
                old(self).burst() as int,
            ) <= usize::MAX,
            written is Ok ==> written->Ok_0 == spec_min(
                buf@.len() as int,
                old(self).burst() as int,
            ),
            written is Err ==> final(self).bytes() == old(self).bytes(),
            written is Err ==> written->Err_0 == if offset > old(self).bytes().len() {
                OFFSET_OUT_OF_RANGE
            } else {
                FILE_TOO_LARGE
            },
    {
        let len = self.data.len();
        if offset > len as u64 {
            return Err(OFFSET_OUT_OF_RANGE);
        }
        let start = offset as usize;
        let mut n = buf.len();
        if n > self.burst {
            n = self.burst;
        }
        if n > usize::MAX - start {
            return Err(FILE_TOO_LARGE);
        }
        let ghost before = self.data@;
        let mut i: usize = 0;
        while i < n
            invariant
                i <= n,
                n <= buf@.len(),
                start <= before.len(),
                start + n <= usize::MAX,
                self.burst == old(self).burst,
                self.data@.len() == if before.len() < start + i {
                    start + i
                } else {
                    before.len() as int
                },
                forall|k: int| 0 <= k < start ==> self.data@[k] == before[k],
                forall|k: int| start <= k < start + i ==> self.data@[k] == buf@[k - start],
                forall|k: int| start + i <= k < before.len() ==> self.data@[k] == before[k],
            decreases n - i,
        {
            if start + i < self.data.len() {
                self.data.set(start + i, buf[i]);
            } else {
                self.data.push(buf[i]);
            }
            i += 1;
        }
        proof {
            assert(self.data@ =~= overwritten(before, offset as int, buf@.subrange(0, n as int)));
        }
        Ok(n)
    }

    /// Succeeds wherever the offset lies in the file or at its end, the file
    /// stays addressable and the buffer fits in one burst.
    fn write_all_at(&mut self, buf: &[u8], offset: u64) -> (written: Result<(), &'static str>)
        ensures
            final(self).burst() == old(self).burst(),
            written is Ok <==> offset <= old(self).bytes().len() && offset + buf@.len()
                <= usize::MAX && buf@.len() <= old(self).burst(),
            written is Err ==> written->Err_0 == if offset > old(self).bytes().len() {
                OFFSET_OUT_OF_RANGE
            } else if offset + spec_min(buf@.len() as int, old(self).burst() as int)
                > usize::MAX {
                FILE_TOO_LARGE
            } else {
                SHORT_TRANSFER
            },
    {
        let outcome = self.write_at(buf, offset);
        proof {
            assert(buf@ =~= buf@.subrange(0, buf@.len() as int));
        }
        exact_transfer(buf.len(), outcome)
    }
}

} // verus!
