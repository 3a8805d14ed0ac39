//! Random-access view over file contents. The host hands the library a value
//! implementing `FileContents`; the wrapper adds convenience, sub-range
//! views, and optional read statistics. Returned slices stay valid for the
//! lifetime of the contents object (zero-copy contract).

use vstd::prelude::*;
use vstd::slice::{slice_subrange, slice_to_vec};

verus! {

/// How a read can fail: a range outside the file, or a missing delimiter.
#[derive(Clone, Copy, PartialEq, Eq, Structural, Debug)]
pub enum FileReadError {
    /// The requested range lies (partly) outside the file.
    InvalidInput,
    /// The delimiter does not occur in the requested range.
    NotFound,
}

/// Synchronous access to the raw bytes of a file.
pub trait FileContents {
    /// The bytes of the file.
    spec fn data(&self) -> Seq<u8>;

    /// The length of the file in bytes.
    fn len(&self) -> (r: u64)
        ensures
            r == self.data().len(),
    ;

    /// Whether the file is empty.
    fn is_empty(&self) -> (r: bool)
        ensures
            r == (self.data().len() == 0),
    {
        self.len() == 0
    }

    /// A slice of the contents; fails outside the file.
    fn read_bytes_at(&self, offset: u64, size: u64) -> (r: Result<&[u8], FileReadError>)
        ensures
            match r {
                Ok(s) => offset + size <= self.data().len() && s@ == self.data().subrange(
                    offset as int,
                    offset as int + size as int,
                ),
                Err(e) => offset + size > self.data().len() && e == FileReadError::InvalidInput,
            },
    ;

    /// The bytes from `start` up to (not including) the first `delimiter`
    /// inside `[start, end)`; a range outside the file is `InvalidInput`, a
    /// range without the delimiter is `NotFound`.
    fn read_bytes_at_until(&self, start: u64, end: u64, delimiter: u8) -> (r: Result<
        &[u8],
        FileReadError,
    >)
        ensures
            match r {
                Ok(s) => {
                    &&& start <= end <= self.data().len()
                    &&& exists|p: int|
                        start <= p < end && self.data()[p] == delimiter && s@ == self.data()
                            .subrange(start as int, p) && forall|k: int|
                            start <= k < p ==> self.data()[k] != delimiter
                },
                Err(e) => if start > end || end > self.data().len() {
                    e == FileReadError::InvalidInput
                } else {
                    e == FileReadError::NotFound && forall|k: int|
                        start <= k < end ==> self.data()[k] != delimiter
                },
            },
    ;

    /// Appends `size` bytes starting at `offset` to `buffer`.
    fn read_bytes_into(&self, buffer: &mut Vec<u8>, offset: u64, size: usize) -> (r: Result<
        (),
        FileReadError,
    >)
        ensures
            match r {
                Ok(()) => offset + size <= self.data().len() && final(buffer)@ == old(buffer)@
                    + self.data().subrange(offset as int, offset as int + size as int),
                Err(e) => offset + size > self.data().len() && e == FileReadError::InvalidInput
                    && final(buffer)@ == old(buffer)@,
            },
    ;
}

/// Relies on `memchr::memchr`: the index of the first occurrence of
/// `needle` in `haystack`, or nothing when it does not occur.
#[verifier::external_body]
fn find_byte(haystack: &[u8], needle: u8) -> (r: Option<usize>)
    ensures
        match r {
            Some(i) => i < haystack@.len() && haystack@[i as int] == needle && forall|k: int|
                0 <= k < i ==> haystack@[k] != needle,
            None => forall|k: int| 0 <= k < haystack@.len() ==> haystack@[k] != needle,
        },
{
    memchr::memchr(needle, haystack)
}

impl FileContents for Vec<u8> {
    open spec fn data(&self) -> Seq<u8> {
        self@
    }

    fn len(&self) -> (r: u64) {
        self.as_slice().len() as u64
    }

    fn read_bytes_at(&self, offset: u64, size: u64) -> (r: Result<&[u8], FileReadError>) {
        let n = self.as_slice().len() as u64;
        if offset > n || size > n - offset {
            return Err(FileReadError::InvalidInput);
        }
        Ok(slice_subrange(self.as_slice(), offset as usize, (offset + size) as usize))
    }

    fn read_bytes_at_until(&self, start: u64, end: u64, delimiter: u8) -> (r: Result<
        &[u8],
        FileReadError,
    >) {
        let n = self.as_slice().len() as u64;
        if start > end || end > n {
            return Err(FileReadError::InvalidInput);
        }
        let window = slice_subrange(self.as_slice(), start as usize, end as usize);
        match find_byte(window, delimiter) {
            Some(p) => {
                let r = slice_subrange(window, 0, p);
                proof {
                    let q = start as int + p as int;
                    assert(r@ =~= self@.subrange(start as int, q));
                    assert forall|k: int| start <= k < q implies self@[k] != delimiter by {
                        assert(window@[k - start] == self@[k]);
                    }
                    assert(self@[q] == delimiter);
                    assert(FileContents::data(self) == self@);
                    assert(FileContents::data(self)[q] == delimiter);
                    assert(r@ == FileContents::data(self).subrange(start as int, q));
                    assert(forall|k: int|
                        start <= k < q ==> FileContents::data(self)[k] != delimiter);
                }
                Ok(r)
            },
            None => {
                proof {
                    assert forall|k: int| start <= k < end implies FileContents::data(self)[k]
                        != delimiter by {
                        assert(window@[k - start] == self@[k]);
                    }
                }
                Err(FileReadError::NotFound)
            },
        }
    }

    fn read_bytes_into(&self, buffer: &mut Vec<u8>, offset: u64, size: usize) -> (r: Result<
        (),
        FileReadError,
    >) {
        let n = self.as_slice().len() as u64;
        if offset > n || size as u64 > n - offset {
            return Err(FileReadError::InvalidInput);
        }
        let part = slice_subrange(self.as_slice(), offset as usize, offset as usize + size);
        let mut v = slice_to_vec(part);
        buffer.append(&mut v);
        Ok(())
    }
}

/// Size of one accounting chunk of the read statistics.
pub const CHUNK_SIZE: u64 = 32768;

/// Per-chunk read statistics: which 32 KiB chunks of a file were touched,
/// how many bytes were read in total, and in how many calls.
pub struct FileReadStats {
    bytes_read: u64,
    unique_chunks_read: Vec<bool>,
    read_call_count: u64,
}

impl FileReadStats {
    /// The chunk-touched bits.
    pub closed spec fn chunks(&self) -> Seq<bool> {
        self.unique_chunks_read@
    }

    /// Total bytes counted so far.
    pub closed spec fn bytes(&self) -> u64 {
        self.bytes_read
    }

    /// Fresh statistics for a file of `size_in_bytes` bytes: one clear bit
    /// per started chunk.
    pub fn new(size_in_bytes: u64) -> (r: FileReadStats)
        requires
            size_in_bytes > 0,
            size_in_bytes <= 0xffff_ffff_ffff,
        ensures
            r.chunks().len() == ((size_in_bytes - 1) as int) / (CHUNK_SIZE as int) + 1,
            forall|i: int| 0 <= i < r.chunks().len() ==> !r.chunks()[i],
            r.bytes() == 0,
    {
        let chunk_count = (size_in_bytes - 1) / CHUNK_SIZE + 1;
        let mut bits: Vec<bool> = Vec::new();
        let mut i: u64 = 0;
        while i < chunk_count
            invariant
                i <= chunk_count,
                bits@.len() == i,
                forall|k: int| 0 <= k < i ==> !bits@[k],
            decreases chunk_count - i,
        {
            bits.push(false);
            i += 1;
        }
        FileReadStats { bytes_read: 0, unique_chunks_read: bits, read_call_count: 0 }
    }

    /// Records one read: marks every chunk the range touches. The byte and
    /// call counters only grow.
    pub fn record_read(&mut self, offset: u64, size: u64)
        requires
            offset + size <= old(self).chunks().len() * CHUNK_SIZE,
            offset + size <= u64::MAX,
        ensures
            final(self).chunks().len() == old(self).chunks().len(),
            forall|k: int|
                0 <= k < final(self).chunks().len() ==> final(self).chunks()[k] == (old(
                    self,
                ).chunks()[k] || (size > 0 && (offset as int) / (CHUNK_SIZE as int) <= k < (((
                offset + size - 1) as int) / (CHUNK_SIZE as int) + 1))),
            final(self).bytes() >= old(self).bytes(),
    {
        if size == 0 {
            return ;
        }
        let chunk_index_start = offset / CHUNK_SIZE;
        let chunk_index_end = (offset + size - 1) / CHUNK_SIZE + 1;
        proof {
            assert(chunk_index_start < chunk_index_end) by (nonlinear_arith)
                requires
                    chunk_index_start as int == (offset as int) / (CHUNK_SIZE as int),
                    chunk_index_end as int == ((offset + size - 1) as int) / (CHUNK_SIZE as int)
                        + 1,
                    CHUNK_SIZE == 32768,
                    size >= 1,
            ;
            assert(chunk_index_end <= self.chunks().len()) by (nonlinear_arith)
                requires
                    offset + size <= self.chunks().len() * CHUNK_SIZE,
                    chunk_index_end as int == ((offset + size - 1) as int) / (CHUNK_SIZE as int)
                        + 1,
                    CHUNK_SIZE == 32768,
                    size >= 1,
            ;
        }
        let mut k = chunk_index_start;
        let mut all_were_set = true;
        while k < chunk_index_end
            invariant
                chunk_index_start <= k <= chunk_index_end <= self.chunks().len(),
                self.chunks().len() == old(self).chunks().len(),
                self.bytes() == old(self).bytes(),
                forall|q: int|
                    0 <= q < self.chunks().len() ==> self.chunks()[q] == (old(self).chunks()[q]
                        || chunk_index_start <= q < k),
            decreases chunk_index_end - k,
        {
            let nlen = self.unique_chunks_read.len();
            proof {
                assert(k < nlen as u64);
            }
            let idx = k as usize;
            if !self.unique_chunks_read[idx] {
                all_were_set = false;
            }
            self.unique_chunks_read.set(idx, true);
            k += 1;
        }
        if !all_were_set {
            let span = chunk_index_end - chunk_index_start;
            if span <= u64::MAX / CHUNK_SIZE {
                proof {
                    assert(span * CHUNK_SIZE <= u64::MAX) by (nonlinear_arith)
                        requires
                            span as int <= (u64::MAX as int) / (CHUNK_SIZE as int),
                            CHUNK_SIZE == 32768,
                    ;
                }
                let counted = span * CHUNK_SIZE;
                if counted <= u64::MAX - self.bytes_read {
                    self.bytes_read = self.bytes_read + counted;
                }
            }
            if self.read_call_count < u64::MAX {
                self.read_call_count = self.read_call_count + 1;
            }
        }
    }

    /// Bytes covered by the chunks that were touched at least once.
    pub fn unique_bytes_read(&self) -> (r: u64)
        requires
            self.chunks().len() * CHUNK_SIZE <= u64::MAX,
        ensures
            r == count_true(self.chunks()) * CHUNK_SIZE,
    {
        let n = self.unique_chunks_read.len();
        let mut ones: u64 = 0;
        let mut i: usize = 0;
        while i < n
            invariant
                i <= n == self.chunks().len(),
                ones == count_true(self.chunks().subrange(0, i as int)),
                ones <= i,
                self.chunks().len() * CHUNK_SIZE <= u64::MAX,
            decreases n - i,
        {
            proof {
                assert(self.chunks().subrange(0, i as int + 1).drop_last() =~= self.chunks()
                    .subrange(0, i as int));
                lemma_count_true_bound(self.chunks().subrange(0, i as int));
            }
            if self.unique_chunks_read[i] {
                ones += 1;
            }
            i += 1;
        }
        proof {
            assert(self.chunks().subrange(0, n as int) =~= self.chunks());
            lemma_count_true_bound(self.chunks());
            assert(ones * CHUNK_SIZE <= self.chunks().len() * CHUNK_SIZE) by (nonlinear_arith)
                requires
                    ones <= self.chunks().len(),
                    CHUNK_SIZE == 32768,
            ;
        }
        ones * CHUNK_SIZE
    }
}

/// Number of set bits.
pub open spec fn count_true(s: Seq<bool>) -> int
    decreases s.len(),
{
    if s.len() == 0 {
        0
    } else {
        count_true(s.drop_last()) + if s.last() {
            1int
        } else {
            0int
        }
    }
}

proof fn lemma_count_true_bound(s: Seq<bool>)
    ensures
        0 <= count_true(s) <= s.len(),
    decreases s.len(),
{
    if s.len() > 0 {
        lemma_count_true_bound(s.drop_last());
    }
}

/// Wrapper around a `FileContents` object, caching the length and offering
/// full- and sub-range views.
pub struct FileContentsWrapper<T: FileContents> {
    file_contents: T,
    len: u64,
}

impl<T: FileContents> FileContentsWrapper<T> {
    /// The bytes behind the wrapper.
    pub closed spec fn data(&self) -> Seq<u8> {
        self.file_contents.data()
    }

    /// The cached length matches the contents.
    pub closed spec fn wf(&self) -> bool {
        self.len == self.data().len()
    }

    /// Wraps the contents, caching their length.
    pub fn new(file_contents: T) -> (r: FileContentsWrapper<T>)
        ensures
            r.wf(),
            r.data() == file_contents.data(),
    {
        let len = file_contents.len();
        FileContentsWrapper { file_contents, len }
    }

    /// The file length in bytes.
    pub fn len(&self) -> (r: u64)
        requires
            self.wf(),
        ensures
            r == self.data().len(),
    {
        self.len
    }

    /// Whether the file is empty.
    pub fn is_empty(&self) -> (r: bool)
        requires
            self.wf(),
        ensures
            r == (self.data().len() == 0),
    {
        self.len == 0
    }

    /// A slice of the contents; fails outside the file.
    pub fn read_bytes_at(&self, offset: u64, size: u64) -> (r: Result<&[u8], FileReadError>)
        ensures
            match r {
                Ok(s) => offset + size <= self.data().len() && s@ == self.data().subrange(
                    offset as int,
                    offset as int + size as int,
                ),
                Err(e) => offset + size > self.data().len() && e == FileReadError::InvalidInput,
            },
    {
        self.file_contents.read_bytes_at(offset, size)
    }

    /// The bytes from `start` up to the first `delimiter` in `[start, end)`;
    /// a range outside the file is `InvalidInput`, a range without the
    /// delimiter is `NotFound`.
    pub fn read_bytes_at_until(&self, start: u64, end: u64, delimiter: u8) -> (r: Result<
        &[u8],
        FileReadError,
    >)
        ensures
            match r {
                Ok(s) => {
                    &&& start <= end <= self.data().len()
                    &&& exists|p: int|
                        start <= p < end && self.data()[p] == delimiter && s@ == self.data()
                            .subrange(start as int, p) && forall|k: int|
                            start <= k < p ==> self.data()[k] != delimiter
                },
                Err(e) => if start > end || end > self.data().len() {
                    e == FileReadError::InvalidInput
                } else {
                    e == FileReadError::NotFound && forall|k: int|
                        start <= k < end ==> self.data()[k] != delimiter
                },
            },
    {
        self.file_contents.read_bytes_at_until(start, end, delimiter)
    }

    /// Appends `size` bytes starting at `offset` to `buffer`; fails exactly
    /// outside the file, leaving the buffer unchanged.
    pub fn read_bytes_into(&self, buffer: &mut Vec<u8>, offset: u64, size: usize) -> (r: Result<
        (),
        FileReadError,
    >)
        ensures
            match r {
                Ok(()) => offset + size <= self.data().len() && final(buffer)@ == old(buffer)@
                    + self.data().subrange(offset as int, offset as int + size as int),
                Err(e) => offset + size > self.data().len() && e == FileReadError::InvalidInput
                    && final(buffer)@ == old(buffer)@,
            },
    {
        self.file_contents.read_bytes_into(buffer, offset, size)
    }

    /// The whole file as one slice.
    pub fn read_entire_data(&self) -> (r: Result<&[u8], FileReadError>)
        requires
            self.wf(),
        ensures
            match r {
                Ok(s) => s@ == self.data(),
                Err(_) => false,
            },
    {
        let r = self.read_bytes_at(0, self.len);
        proof {
            assert(self.data().subrange(0, self.data().len() as int) =~= self.data());
        }
        match r {
            Ok(s) => Ok(s),
            Err(_) => vstd::pervasive::unreached(),
        }
    }

    /// A view of the whole file.
    pub fn full_range(&self) -> (r: RangeReadRef<'_, T>)
        requires
            self.wf(),
        ensures
            r.wf(),
            r.range_data() == self.data(),
    {
        RangeReadRef { original_readref: self, range_start: 0, range_size: self.len }
    }

    /// A view of `size` bytes starting at `start`.
    pub fn range(&self, start: u64, size: u64) -> (r: RangeReadRef<'_, T>)
        requires
            self.wf(),
            start + size <= self.data().len(),
        ensures
            r.wf(),
            r.range_data() == self.data().subrange(start as int, start as int + size as int),
    {
        RangeReadRef { original_readref: self, range_start: start, range_size: size }
    }
}

/// A sub-range view over wrapped file contents, as used to parse one member
/// of a fat archive in place.
pub struct RangeReadRef<'a, T: FileContents> {
    original_readref: &'a FileContentsWrapper<T>,
    range_start: u64,
    range_size: u64,
}

impl<'a, T: FileContents> RangeReadRef<'a, T> {
    /// Start of the viewed range.
    pub closed spec fn start_spec(&self) -> u64 {
        self.range_start
    }

    /// Size of the viewed range.
    pub closed spec fn size_spec(&self) -> u64 {
        self.range_size
    }

    /// The range lies inside the underlying file.
    pub closed spec fn wf(&self) -> bool {
        &&& self.original_readref.wf()
        &&& self.range_start + self.range_size <= self.original_readref.data().len()
    }

    /// The bytes of the viewed range.
    pub closed spec fn range_data(&self) -> Seq<u8> {
        self.original_readref.data().subrange(
            self.range_start as int,
            self.range_start as int + self.range_size as int,
        )
    }

    /// A view of `size` bytes starting at `start` of the underlying file.
    pub fn new(original_readref: &'a FileContentsWrapper<T>, range_start: u64, range_size: u64)
        -> (r: RangeReadRef<'a, T>)
        requires
            original_readref.wf(),
            range_start + range_size <= original_readref.data().len(),
        ensures
            r.wf(),
            r.range_data() == original_readref.data().subrange(
                range_start as int,
                range_start as int + range_size as int,
            ),
    {
        RangeReadRef { original_readref, range_start, range_size }
    }

    /// A sub-view, relative to this view's start.
    pub fn make_subrange(&self, start: u64, size: u64) -> (r: RangeReadRef<'a, T>)
        requires
            self.wf(),
            start + size <= self.size_spec(),
        ensures
            r.wf(),
            r.range_data() == self.range_data().subrange(start as int, start as int + size as int),
    {
        let r = RangeReadRef {
            original_readref: self.original_readref,
            range_start: self.range_start + start,
            range_size: size,
        };
        proof {
            assert(r.range_data() =~= self.range_data().subrange(
                start as int,
                start as int + size as int,
            ));
        }
        r
    }

    /// The underlying wrapper.
    pub fn original_readref(&self) -> (r: &'a FileContentsWrapper<T>) {
        self.original_readref
    }

    /// Start of the viewed range in the underlying file.
    pub fn range_start(&self) -> (r: u64)
        ensures
            r == self.start_spec(),
    {
        self.range_start
    }

    /// Size of the viewed range.
    pub fn range_size(&self) -> (r: u64)
        ensures
            r == self.size_spec(),
    {
        self.range_size
    }

    /// A slice of the viewed range, read at the shifted offset of the
    /// underlying file; a read past the view's bounds fails, so the view is
    /// a hard window rather than a mere offset shift.
    pub fn read_bytes_at(&self, offset: u64, size: u64) -> (r: Result<&[u8], FileReadError>)
        requires
            self.wf(),
        ensures
            match r {
                Ok(s) => offset + size <= self.range_data().len() && s@ == self.range_data()
                    .subrange(offset as int, offset as int + size as int),
                Err(e) => offset + size > self.range_data().len() && e
                    == FileReadError::InvalidInput,
            },
    {
        if offset > self.range_size || size > self.range_size - offset {
            return Err(FileReadError::InvalidInput);
        }
        let r = self.original_readref.read_bytes_at(self.range_start + offset, size);
        proof {
            match r {
                Ok(s) => {
                    assert(s@ =~= self.range_data().subrange(
                        offset as int,
                        offset as int + size as int,
                    ));
                },
                Err(_) => {},
            }
        }
        r
    }
}

// The spec fields of `range_start`/`range_size` are private; these getters
// are the public face, so the struct keeps its fields hidden like the
// original.

} // verus!
