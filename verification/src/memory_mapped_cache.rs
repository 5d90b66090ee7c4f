//! The mapped cache file: the byte store behind one stream.
//!
//! One value models one on-disk file together with its memory mapping:
//! `file` holds the bytes the file carries (`None` while no file exists at
//! the path), `size` is the length the mapping covers (equal to the
//! on-disk length while the file is open), and `is_open` says whether the
//! handle is live.  A mapping is present exactly when the file is open and
//! non-empty.  Writes grow the file on demand; `finalize` trims it to the
//! exact payload size.

use vstd::prelude::*;

verus! {

/// The abstract state of a mapped cache file.
#[verifier::ext_equal]
pub ghost struct CacheModel {
    /// Path of the backing file.
    pub path: Seq<char>,
    /// Bytes of the backing file; `None` while no file exists at the path.
    pub file: Option<Seq<u8>>,
    /// Length covered by the mapping; the on-disk length while open.
    pub size: u64,
    /// Whether the file handle is live.
    pub is_open: bool,
}

impl CacheModel {
    /// A mapping is established exactly when the file is open and non-empty.
    pub open spec fn mapped(self) -> bool {
        self.is_open && self.size > 0
    }

    /// The size counter tracks the file length, and only an existing file
    /// can be open.
    pub open spec fn wf(self) -> bool {
        &&& (self.file matches Some(b) ==> self.size == b.len())
        &&& (self.file is None ==> self.size == 0 && !self.is_open)
    }

    /// The bytes the file carries; empty while no file exists.
    pub open spec fn bytes(self) -> Seq<u8> {
        match self.file {
            Some(b) => b,
            None => Seq::empty(),
        }
    }
}

/// `b` truncated or zero-extended to length `n`.
pub open spec fn resize_bytes(b: Seq<u8>, n: nat) -> Seq<u8> {
    Seq::new(n, |i: int| if i < b.len() { b[i] } else { 0u8 })
}

/// `b` with `data` copied in at `offset`; the length does not change.
pub open spec fn write_bytes(b: Seq<u8>, offset: int, data: Seq<u8>) -> Seq<u8> {
    Seq::new(b.len(), |i: int| if offset <= i < offset + data.len() { data[i - offset] } else { b[i] })
}

/// `create(initial_size)`: any file at the path is replaced by a fresh one
/// of `initial_size` zero bytes, mapped if non-empty, and left open.
pub open spec fn spec_create(m: CacheModel, initial_size: u64) -> CacheModel {
    CacheModel {
        file: Some(Seq::new(initial_size as nat, |i: int| 0u8)),
        size: initial_size,
        is_open: true,
        ..m
    }
}

/// `open()`: an existing file is reopened at its current on-disk length.
pub open spec fn spec_open(m: CacheModel) -> CacheModel {
    CacheModel { size: m.bytes().len() as u64, is_open: true, ..m }
}

/// `close()`: the mapping and the handle are dropped; the file stays.
pub open spec fn spec_close(m: CacheModel) -> CacheModel {
    CacheModel { is_open: false, ..m }
}

/// `resize(new_size)`: the file is truncated or zero-extended to
/// `new_size` and remapped (no mapping remains if `new_size` is zero).
pub open spec fn spec_resize(m: CacheModel, new_size: u64) -> CacheModel {
    CacheModel { file: Some(resize_bytes(m.bytes(), new_size as nat)), size: new_size, ..m }
}

/// `write(offset, data)`: the state after the call and the byte count
/// returned.  A closed cache is first created at the required size; a file
/// too small (or an absent mapping) first grows to `max(required, size)`;
/// then the bytes are copied in.  The count is `data.len()` on success and
/// zero when no mapping could serve the copy.
pub open spec fn spec_write(m: CacheModel, offset: u64, data: Seq<u8>) -> (CacheModel, usize) {
    let required = offset + data.len();
    let m1 = if !m.is_open {
        spec_create(m, required as u64)
    } else {
        m
    };
    let m2 = if required > m1.size || !m1.mapped() {
        spec_resize(m1, (if required > m1.size { required } else { m1.size as int }) as u64)
    } else {
        m1
    };
    if m2.mapped() && required <= m2.size {
        (
            CacheModel { file: Some(write_bytes(m2.bytes(), offset as int, data)), ..m2 },
            data.len() as usize,
        )
    } else {
        (m2, 0)
    }
}

/// `read(offset, length)`: the state after the call and the bytes
/// returned.  A cache without a live mapping is first reopened (an absent
/// file makes the read empty); a read past the end is empty; otherwise the
/// result is the mapped bytes from `offset`, truncated to what the file
/// holds.
pub open spec fn spec_read(m: CacheModel, offset: u64, length: usize) -> (CacheModel, Seq<u8>) {
    if !m.is_open || !m.mapped() {
        if m.file is None {
            (m, Seq::empty())
        } else {
            (spec_open(m), read_result(spec_open(m), offset, length))
        }
    } else {
        (m, read_result(m, offset, length))
    }
}

/// The bytes a read returns from an open cache: empty past the end, else
/// the range `[offset, offset + min(length, size - offset))`.
pub open spec fn read_result(m: CacheModel, offset: u64, length: usize) -> Seq<u8> {
    if offset >= m.size {
        Seq::empty()
    } else {
        let actual = if length <= m.size - offset { length as int } else { m.size - offset };
        m.bytes().subrange(offset as int, offset + actual)
    }
}

/// Closing a cache twice is the same as closing it once.
pub proof fn lemma_close_idempotent(m: CacheModel)
    ensures
        spec_close(spec_close(m)) == spec_close(m),
{
}

/// A growable, memory-mapped cache file.
pub struct MemoryMappedCache {
    path: String,
    file: Option<Vec<u8>>,
    size: u64,
    is_open: bool,
}

impl View for MemoryMappedCache {
    type V = CacheModel;

    closed spec fn view(&self) -> CacheModel {
        CacheModel {
            path: self.path@,
            file: match self.file {
                Some(b) => Some(b@),
                None => None,
            },
            size: self.size,
            is_open: self.is_open,
        }
    }
}

impl MemoryMappedCache {
    /// A handle on the cache file at `path`; no file exists yet.
    pub fn new(path: String) -> (r: Self)
        ensures
            r@ == (CacheModel { path: path@, file: None, size: 0, is_open: false }),
    {
        MemoryMappedCache { path, file: None, size: 0, is_open: false }
    }

    /// Create a fresh cache file of `initial_size` zero bytes, replacing
    /// any previous one, and leave it open.
    pub fn create(&mut self, initial_size: u64) -> (r: bool)
        requires
            initial_size <= usize::MAX,
        ensures
            r == true,
            final(self)@ == spec_create(old(self)@, initial_size),
            final(self)@.wf(),
    {
        let zeros: Vec<u8> = vec![0u8; initial_size as usize];
        self.file = Some(zeros);
        self.size = initial_size;
        self.is_open = true;
        proof {
            assert(self@.file.unwrap() =~= spec_create(old(self)@, initial_size).file.unwrap());
            assert(self@ =~= spec_create(old(self)@, initial_size));
        }
        true
    }

    /// Open the existing cache file read-write; fails if none exists.
    pub fn open(&mut self) -> (r: bool)
        requires
            old(self)@.wf(),
        ensures
            final(self)@.wf(),
            old(self)@.file is None ==> r == false && final(self)@ == old(self)@,
            old(self)@.file is Some ==> r == true && final(self)@ == spec_open(old(self)@),
    {
        match self.file {
            None => false,
            Some(ref f) => {
                self.size = f.len() as u64;
                self.is_open = true;
                proof {
                    assert(self@ =~= spec_open(old(self)@));
                }
                true
            },
        }
    }

    /// Drop the mapping and the handle; the on-disk file stays.
    pub fn close(&mut self)
        requires
            old(self)@.wf(),
        ensures
            final(self)@.wf(),
            final(self)@ == spec_close(old(self)@),
    {
        self.is_open = false;
        proof {
            assert(self@ =~= spec_close(old(self)@));
        }
    }

    /// Copy `data` into the file at `offset`, creating or growing the file
    /// as needed; returns the number of bytes written (zero on failure).
    pub fn write(&mut self, offset: u64, data: &[u8]) -> (r: usize)
        requires
            old(self)@.wf(),
            offset + data@.len() <= usize::MAX,
        ensures
            final(self)@.wf(),
            final(self)@ == spec_write(old(self)@, offset, data@).0,
            r == spec_write(old(self)@, offset, data@).1,
    {
        if !self.is_open {
            let initial = offset + data.len() as u64;
            self.create(initial);
        }
        let required = offset + data.len() as u64;
        let has_map = self.is_open && self.size > 0;
        if required > self.size || !has_map {
            let new_size = if required > self.size { required } else { self.size };
            self.resize(new_size);
        }
        let ghost m2 = self@;
        if self.is_open && self.size > 0 && required <= self.size {
            let off = offset as usize;
            match self.file {
                Some(ref mut f) => {
                    let mut i: usize = 0;
                    while i < data.len()
                        invariant
                            i <= data@.len(),
                            off == offset,
                            off + data@.len() <= usize::MAX,
                            off + data@.len() <= f@.len(),
                            f@.len() == m2.bytes().len(),
                            forall|j: int| 0 <= j < i ==> f@[off + j] == data@[j],
                            forall|j: int| 0 <= j < f@.len() && !(off <= j < off + i) ==> f@[j] == m2.bytes()[j],
                        decreases data@.len() - i,
                    {
                        f.set(off + i, data[i]);
                        i += 1;
                    }
                    proof {
                        assert(f@ =~= write_bytes(m2.bytes(), offset as int, data@));
                    }
                },
                None => {
                    proof {
                        assert(false);
                    }
                },
            }
            proof {
                assert(self@ =~= spec_write(old(self)@, offset, data@).0);
            }
            data.len()
        } else {
            proof {
                assert(self@ =~= spec_write(old(self)@, offset, data@).0);
            }
            0
        }
    }

    /// Read up to `length` bytes starting at `offset`, reopening the file
    /// first if no mapping is live; returns an owned copy of the range.
    pub fn read(&mut self, offset: u64, length: usize) -> (r: Vec<u8>)
        requires
            old(self)@.wf(),
        ensures
            final(self)@.wf(),
            final(self)@ == spec_read(old(self)@, offset, length).0,
            r@ == spec_read(old(self)@, offset, length).1,
    {
        if !self.is_open || self.size == 0 {
            if !self.open() {
                return Vec::new();
            }
        }
        let ghost m1 = self@;
        proof {
            assert(m1.wf());
            assert(spec_read(old(self)@, offset, length).0 == m1);
        }
        if offset >= self.size {
            return Vec::new();
        }
        let actual: usize = if length as u64 <= self.size - offset {
            length
        } else {
            (self.size - offset) as usize
        };
        let mut out: Vec<u8> = Vec::new();
        match self.file {
            Some(ref f) => {
                let flen: usize = f.len();
                proof {
                    assert(m1.size == f@.len());
                }
                let off = offset as usize;
                let mut i: usize = 0;
                while i < actual
                    invariant
                        i <= actual,
                        off == offset,
                        off + actual <= flen,
                        flen == f@.len(),
                        out@.len() == i,
                        forall|j: int| 0 <= j < i ==> out@[j] == f@[off + j],
                    decreases actual - i,
                {
                    out.push(f[off + i]);
                    i += 1;
                }
                proof {
                    assert(out@ =~= read_result(m1, offset, length));
                }
            },
            None => {
                proof {
                    assert(false);
                }
            },
        }
        out
    }

    /// The length the mapping covers.
    pub fn get_size(&self) -> (r: u64)
        ensures
            r == self@.size,
    {
        self.size
    }

    /// The path of the backing file.
    pub fn get_path(&self) -> (r: &str)
        ensures
            r@ == self@.path,
    {
        self.path.as_str()
    }

    /// Whether the file handle is live.
    pub fn is_open(&self) -> (r: bool)
        ensures
            r == self@.is_open,
    {
        self.is_open
    }

    /// Truncate or zero-extend the file to `new_size` and remap it; fails
    /// if the file is not open.
    pub fn resize(&mut self, new_size: u64) -> (r: bool)
        requires
            old(self)@.wf(),
            new_size <= usize::MAX,
        ensures
            final(self)@.wf(),
            !old(self)@.is_open ==> r == false && final(self)@ == old(self)@,
            old(self)@.is_open ==> r == true && final(self)@ == spec_resize(old(self)@, new_size),
    {
        if !self.is_open {
            return false;
        }
        match self.file {
            Some(ref mut f) => {
                f.resize(new_size as usize, 0u8);
                proof {
                    assert(f@ =~= resize_bytes(old(self)@.bytes(), new_size as nat));
                }
            },
            None => {
                proof {
                    assert(false);
                }
            },
        }
        self.size = new_size;
        proof {
            assert(self@ =~= spec_resize(old(self)@, new_size));
        }
        true
    }

    /// Push the mapped bytes to disk; fails if the file is not open.
    pub fn flush(&self) -> (r: bool)
        ensures
            r == self@.is_open,
    {
        self.is_open
    }

    /// Trim the file to exactly `final_size` bytes and flush it; after a
    /// successful call the on-disk length is exactly `final_size`.
    pub fn finalize(&mut self, final_size: u64) -> (r: bool)
        requires
            old(self)@.wf(),
            final_size <= usize::MAX,
        ensures
            final(self)@.wf(),
            !old(self)@.is_open ==> r == false && final(self)@ == old(self)@,
            old(self)@.is_open ==> r == true && final(self)@ == spec_resize(old(self)@, final_size),
            r ==> final(self)@.size == final_size,
    {
        if !self.is_open {
            return false;
        }
        let ok = self.resize(final_size);
        self.flush();
        ok
    }
}

} // verus!
