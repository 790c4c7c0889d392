//! Accumulation buffer for bytes read from the transport.
//!
//! The storage is a `bytes::BytesMut`, reached only through a handful of
//! trusted wrappers whose contracts speak of the abstract byte sequence
//! `bm_bytes`. On top of it `StreamBuffer` keeps a read cursor `consumed`:
//! bytes before it are logically discarded, bytes after it are unparsed
//! input. Growth is bounded by a configured ceiling; `compact` physically
//! shifts the unconsumed suffix to the front so memory stays proportional
//! to the ceiling rather than to the connection's lifetime.

use vstd::prelude::*;

verus! {

#[verifier::external_type_specification]
#[verifier::external_body]
pub struct ExBytesMut(bytes::BytesMut);

/// The bytes a `BytesMut` holds, in order.
pub uninterp spec fn bm_bytes(b: bytes::BytesMut) -> Seq<u8>;

/// Relies on bytes::BytesMut::new: an empty buffer of length 0.
#[verifier::external_body]
fn bm_new() -> (r: bytes::BytesMut)
    ensures
        bm_bytes(r) == Seq::<u8>::empty(),
{
    bytes::BytesMut::new()
}

/// Relies on bytes::BytesMut::len: the number of bytes in the buffer.
#[verifier::external_body]
fn bm_len(b: &bytes::BytesMut) -> (r: usize)
    ensures
        r == bm_bytes(*b).len(),
{
    b.len()
}

/// Relies on bytes::BytesMut::extend_from_slice: appends the slice's bytes,
/// growing capacity as needed.
#[verifier::external_body]
fn bm_extend(b: &mut bytes::BytesMut, s: &[u8])
    requires
        bm_bytes(*old(b)).len() + s@.len() < usize::MAX,
    ensures
        bm_bytes(*final(b)) == bm_bytes(*old(b)) + s@,
{
    b.extend_from_slice(s)
}

/// Relies on bytes::BytesMut::truncate: keeps the first `n` bytes.
#[verifier::external_body]
fn bm_truncate(b: &mut bytes::BytesMut, n: usize)
    requires
        n <= bm_bytes(*old(b)).len(),
    ensures
        bm_bytes(*final(b)) == bm_bytes(*old(b)).take(n as int),
{
    b.truncate(n)
}

/// Relies on BytesMut's Deref to `[u8]`: reads byte `i` of the buffer.
#[verifier::external_body]
fn bm_get(b: &bytes::BytesMut, i: usize) -> (r: u8)
    requires
        i < bm_bytes(*b).len(),
    ensures
        r == bm_bytes(*b)[i as int],
{
    b[i]
}

/// Relies on BytesMut's DerefMut to `[u8]`: writes byte `i` of the buffer.
#[verifier::external_body]
fn bm_set(b: &mut bytes::BytesMut, i: usize, v: u8)
    requires
        i < bm_bytes(*old(b)).len(),
    ensures
        bm_bytes(*final(b)) == bm_bytes(*old(b)).update(i as int, v),
{
    b[i] = v;
}

/// Returned by `append` when taking the new bytes would leave more
/// unconsumed data than the configured ceiling allows.
#[derive(Debug, Clone, Copy, PartialEq, Eq)]
pub struct Overflow;

/// Rolling input buffer with a read cursor and a growth ceiling.
pub struct StreamBuffer {
    data: bytes::BytesMut,
    consumed: usize,
    ceiling: usize,
}

impl StreamBuffer {
    /// The unconsumed bytes: everything at or after the read cursor.
    pub closed spec fn contents(self) -> Seq<u8> {
        bm_bytes(self.data).skip(self.consumed as int)
    }

    /// The configured ceiling on unconsumed bytes.
    pub closed spec fn limit(self) -> int {
        self.ceiling as int
    }

    /// How many bytes the storage holds, consumed prefix included.
    pub closed spec fn storage_len(self) -> int {
        bm_bytes(self.data).len() as int
    }

    pub closed spec fn wf(self) -> bool {
        &&& self.consumed <= bm_bytes(self.data).len()
        &&& bm_bytes(self.data).len() - self.consumed <= self.ceiling
        &&& bm_bytes(self.data).len() <= 2 * (self.ceiling as int)
        &&& self.ceiling <= usize::MAX / 4
    }

    pub fn new(ceiling: usize) -> (r: StreamBuffer)
        requires
            ceiling <= usize::MAX / 4,
        ensures
            r.wf(),
            r.contents() == Seq::<u8>::empty(),
            r.limit() == ceiling,
    {
        let r = StreamBuffer { data: bm_new(), consumed: 0, ceiling };
        proof {
            assert(r.contents() =~= Seq::<u8>::empty());
        }
        r
    }

    /// How many unconsumed bytes are available.
    pub fn unconsumed_len(&self) -> (r: usize)
        requires
            self.wf(),
        ensures
            r == self.contents().len(),
    {
        bm_len(&self.data) - self.consumed
    }

    /// The `i`-th unconsumed byte.
    pub fn get(&self, i: usize) -> (r: u8)
        requires
            self.wf(),
            i < self.contents().len(),
        ensures
            r == self.contents()[i as int],
    {
        bm_get(&self.data, self.consumed + i)
    }

    /// Copies the unconsumed bytes in `[start, start + n)` out of the buffer.
    pub fn copy_range(&self, start: usize, n: usize) -> (r: Vec<u8>)
        requires
            self.wf(),
            start + n <= self.contents().len(),
        ensures
            r@ == self.contents().subrange(start as int, start as int + n as int),
    {
        let mut out: Vec<u8> = Vec::new();
        let mut i: usize = 0;
        while i < n
            invariant
                self.wf(),
                start + n <= self.contents().len(),
                i <= n,
                out@.len() == i,
                forall|j: int| 0 <= j < i ==> out@[j] == self.contents()[start + j],
            decreases n - i,
        {
            out.push(self.get(start + i));
            i += 1;
        }
        proof {
            assert(out@ =~= self.contents().subrange(start as int, start as int + n as int));
        }
        out
    }

    /// Shifts the unconsumed suffix to the start of the storage and resets
    /// the read cursor, reclaiming the space of consumed bytes.
    pub fn compact(&mut self)
        requires
            old(self).wf(),
        ensures
            final(self).wf(),
            final(self).contents() == old(self).contents(),
            final(self).limit() == old(self).limit(),
            final(self).storage_len() == final(self).contents().len(),
    {
        let c = self.consumed;
        let m = bm_len(&self.data) - c;
        let ghost orig = bm_bytes(self.data);
        let mut i: usize = 0;
        while i < m
            invariant
                c == old(self).consumed,
                self.consumed == c,
                self.ceiling == old(self).ceiling,
                self.ceiling <= usize::MAX / 4,
                c + m == bm_bytes(self.data).len(),
                bm_bytes(self.data).len() == orig.len(),
                orig.len() <= 2 * (self.ceiling as int),
                m <= self.ceiling,
                i <= m,
                forall|j: int| 0 <= j < i ==> bm_bytes(self.data)[j] == orig[c + j],
                forall|j: int| i <= j < orig.len() ==> bm_bytes(self.data)[j] == orig[j],
            decreases m - i,
        {
            let v = bm_get(&self.data, c + i);
            bm_set(&mut self.data, i, v);
            i += 1;
        }
        bm_truncate(&mut self.data, m);
        self.consumed = 0;
        proof {
            assert(self.contents() =~= orig.skip(c as int));
        }
    }

    /// Appends newly read bytes after the unconsumed data. Fails with
    /// `Overflow`, changing nothing, when the unconsumed data plus the new
    /// bytes would exceed the ceiling; compacts opportunistically when the
    /// consumed prefix has grown to at least half of the storage.
    pub fn append(&mut self, s: &[u8]) -> (r: Result<(), Overflow>)
        requires
            old(self).wf(),
        ensures
            final(self).wf(),
            final(self).limit() == old(self).limit(),
            match r {
                Ok(()) => {
                    &&& old(self).contents().len() + s@.len() <= old(self).limit()
                    &&& final(self).contents() == old(self).contents() + s@
                },
                Err(_) => {
                    &&& old(self).contents().len() + s@.len() > old(self).limit()
                    &&& final(self).contents() == old(self).contents()
                },
            },
    {
        let have = self.unconsumed_len();
        if s.len() > self.ceiling - have {
            proof {
                assert(self.contents() =~= old(self).contents());
            }
            return Err(Overflow);
        }
        if self.consumed >= bm_len(&self.data) - self.consumed {
            self.compact();
        }
        let ghost before = self.contents();
        bm_extend(&mut self.data, s);
        proof {
            assert(self.contents() =~= before + s@);
        }
        Ok(())
    }

    /// Marks the first `n` unconsumed bytes as consumed; invoked once per
    /// fully parsed frame with its exact byte count.
    pub fn advance_consumed(&mut self, n: usize)
        requires
            old(self).wf(),
            n <= old(self).contents().len(),
        ensures
            final(self).wf(),
            final(self).contents() == old(self).contents().skip(n as int),
            final(self).limit() == old(self).limit(),
    {
        self.consumed = self.consumed + n;
        proof {
            assert(self.contents() =~= old(self).contents().skip(n as int));
        }
    }
}

} // verus!
