//! One reading session: a paginated source, its cache directory, and the
//! table of per-page cache slots.
//!
//! The session guarantees that a page is decoded at most once: a slot
//! that already holds an entry is never re-decoded, and the count of
//! still-empty slots ticks down to zero exactly when every page is
//! settled.  Tearing the session down hands every cache entry back so
//! the caller can delete the files.

use crate::cache::{write_cache, ImageData, PageCache, PageError};
use crate::exts::bytes_eq;
use crate::imgmeta::image_dims_of;
use crate::source::{PageData, Source};
use vstd::prelude::*;

verus! {

/// One page's cache slot: still undecoded, settled with no renderable
/// content, or holding a decoded entry on disk.
pub enum Slot {
    /// The page has not been decoded yet.
    Empty,
    /// The page decoded to nothing renderable; it never gets a file.
    NoData,
    /// The page's decoded entry.
    Cached(PageCache),
}

/// How many of the first `n` slots are still undecoded.
pub open spec fn count_empty_upto(slots: Seq<Slot>, n: int) -> int
    decreases n,
{
    if n <= 0 {
        0
    } else {
        count_empty_upto(slots, n - 1) + if slots[n - 1] is Empty {
            1int
        } else {
            0int
        }
    }
}

/// How many slots are still undecoded.
pub open spec fn count_empty(slots: Seq<Slot>) -> int {
    count_empty_upto(slots, slots.len() as int)
}

/// The empty count never exceeds the slot count and never drops below
/// zero.
pub proof fn lemma_count_empty_bounds(slots: Seq<Slot>, n: int)
    requires
        0 <= n <= slots.len(),
    ensures
        0 <= count_empty_upto(slots, n) <= n,
    decreases n,
{
    if n > 0 {
        lemma_count_empty_bounds(slots, n - 1);
    }
}

/// Changing one slot away from `Empty` lowers the empty count by one.
pub proof fn lemma_count_empty_update(slots: Seq<Slot>, i: int, v: Slot, n: int)
    requires
        0 <= i < slots.len(),
        0 <= n <= slots.len(),
        slots[i] is Empty,
        !(v is Empty),
    ensures
        count_empty_upto(slots.update(i, v), n) == count_empty_upto(slots, n) - if i < n {
            1int
        } else {
            0int
        },
    decreases n,
{
    if n > 0 {
        lemma_count_empty_update(slots, i, v, n - 1);
    }
}

/// The empty count is zero exactly when no slot is `Empty`.
pub proof fn lemma_count_empty_zero(slots: Seq<Slot>, n: int)
    requires
        0 <= n <= slots.len(),
    ensures
        (count_empty_upto(slots, n) == 0) <==> (forall|i: int|
            0 <= i < n ==> !((#[trigger] slots[i]) is Empty)),
    decreases n,
{
    if n > 0 {
        lemma_count_empty_zero(slots, n - 1);
        lemma_count_empty_bounds(slots, n - 1);
    }
}

/// Whether slot `i` exists and is still undecoded.
pub open spec fn is_unloaded_at(slots: Seq<Slot>, i: int) -> bool {
    0 <= i < slots.len() && slots[i] is Empty
}

/// The first index of the given order whose slot is still undecoded.
pub open spec fn first_unloaded_in(order: Seq<int>, slots: Seq<Slot>) -> Option<int>
    decreases order.len(),
{
    if order.len() == 0 {
        None
    } else if is_unloaded_at(slots, order[0]) {
        Some(order[0])
    } else {
        first_unloaded_in(order.skip(1), slots)
    }
}

/// The search order of the nearest-unloaded scan for a viewport
/// `(index, size)`: forward from `index` through a trailing half-window
/// past two windows, then backward through one window and a half.  The
/// larger forward window biases prefetch toward the direction of
/// reading.
pub open spec fn search_order(index: int, size: int) -> Seq<int> {
    Seq::new((2 * size + size / 2 + 1) as nat, |k: int| index + k) + Seq::new(
        (if size + size / 2 <= index {
            size + size / 2
        } else {
            index
        }) as nat,
        |k: int| index - 1 - k,
    )
}

/// An equal prefix of misses does not change the search's answer.
proof fn lemma_first_unloaded_skip(order: Seq<int>, slots: Seq<Slot>, m: int)
    requires
        0 <= m <= order.len(),
        forall|j: int| 0 <= j < m ==> !is_unloaded_at(slots, #[trigger] order[j]),
    ensures
        first_unloaded_in(order, slots) == first_unloaded_in(order.skip(m), slots),
    decreases m,
{
    if m > 0 {
        assert(!is_unloaded_at(slots, order[0]));
        assert(order.skip(1).skip(m - 1) =~= order.skip(m));
        assert(forall|j: int| 0 <= j < m - 1 ==> order.skip(1)[j] == order[j + 1]);
        lemma_first_unloaded_skip(order.skip(1), slots, m - 1);
    } else {
        assert(order.skip(0) =~= order);
    }
}

/// The nearest-unloaded search starts at the viewport itself: when the
/// viewport's own page is still undecoded, it is the first hit, however
/// the other slots stand.
pub proof fn lemma_search_starts_at_viewport(index: int, size: int, slots: Seq<Slot>)
    requires
        index >= 0,
        size >= 0,
        is_unloaded_at(slots, index),
    ensures
        first_unloaded_in(search_order(index, size), slots) == Some(index),
{
    let order = search_order(index, size);
    assert(order.len() > 0);
    assert(order[0] == index);
}

/// A page the search hands out is always a real, still-undecoded page:
/// the scheduler never decodes out of range and never decodes a page
/// twice.
pub proof fn lemma_search_yields_unloaded(order: Seq<int>, slots: Seq<Slot>)
    ensures
        first_unloaded_in(order, slots) matches Some(i) ==> is_unloaded_at(slots, i),
    decreases order.len(),
{
    if order.len() > 0 {
        lemma_search_yields_unloaded(order.skip(1), slots);
    }
}

/// One reading session.
pub struct MangaBook {
    cache_dir: Vec<u8>,
    source: Source,
    caches: Vec<Slot>,
    unloaded: usize,
    passwords: Vec<Vec<u8>>,
}

/// What one load step produced.
pub enum LoadOutcome {
    /// The slot was already settled, or the index lies outside the page
    /// table; nothing changed.
    Nothing,
    /// The page decoded to nothing renderable; the slot is settled
    /// without a file.
    NoContent,
    /// The page decoded: the caller writes `content` to the entry's path
    /// and may publish the descriptor.
    Loaded { data: ImageData, content: Vec<u8> },
    /// The source serves this page as a file on disk; the caller reads
    /// that file and hands the bytes to the byte-loading step.
    NeedsFile(Vec<u8>),
}

impl MangaBook {
    /// The slot table.
    pub closed spec fn spec_slots(&self) -> Seq<Slot> {
        self.caches@
    }

    /// The source.
    pub closed spec fn spec_source(&self) -> Source {
        self.source
    }

    /// The cache directory.
    pub closed spec fn spec_cache_dir(&self) -> Seq<u8> {
        self.cache_dir@
    }

    /// The tried password candidates.
    pub closed spec fn spec_passwords(&self) -> Seq<Seq<u8>> {
        Seq::new(self.passwords@.len(), |i: int| self.passwords@[i]@)
    }

    /// The session invariant: one slot per page, and the unloaded count
    /// counts exactly the still-empty slots.
    pub closed spec fn wf(&self) -> bool {
        &&& self.source.wf()
        &&& self.caches@.len() == self.source.spec_page_count()
        &&& self.unloaded == count_empty(self.caches@)
    }

    /// The session invariant, exposed for callers' contracts.
    pub open spec fn inv(&self) -> bool {
        self.wf()
    }

    /// Builds a session over a source: one empty slot per page.
    pub fn new(source: Source, cache_dir: Vec<u8>) -> (r: MangaBook)
        requires
            source.wf(),
        ensures
            r.inv(),
            r.spec_source() == source,
            r.spec_cache_dir() == cache_dir@,
            r.spec_slots().len() == source.spec_page_count(),
            forall|i: int| 0 <= i < r.spec_slots().len() ==> (#[trigger] r.spec_slots()[i])
                is Empty,
            r.spec_passwords() == Seq::<Seq<u8>>::empty(),
    {
        let unloaded = source.page_count();
        let mut caches: Vec<Slot> = Vec::new();
        let mut i: usize = 0;
        while i < unloaded
            invariant
                i <= unloaded,
                caches@.len() == i,
                forall|j: int| 0 <= j < i ==> (#[trigger] caches@[j]) is Empty,
                count_empty_upto(caches@, i as int) == i,
            decreases unloaded - i,
        {
            let ghost pre = caches@;
            caches.push(Slot::Empty);
            proof {
                assert(caches@ =~= pre.push(Slot::Empty));
                assert(count_empty_upto(caches@, i + 1 as int) == count_empty_upto(
                    caches@,
                    i as int,
                ) + 1);
                assert(count_empty_upto(caches@, i as int) == count_empty_upto(pre, i as int))
                    by {
                    lemma_count_empty_prefix(pre, caches@, i as int);
                }
            }
            i = i + 1;
        }
        let book = MangaBook { cache_dir, source, caches, unloaded, passwords: Vec::new() };
        proof {
            assert(book.spec_passwords() =~= Seq::<Seq<u8>>::empty());
        }
        book
    }

    /// The number of pages; invariant across calls, since nothing ever
    /// resizes the slot table or the source's page table.
    pub fn page_count(&self) -> (r: usize)
        requires
            self.inv(),
        ensures
            r == self.spec_slots().len(),
    {
        self.source.page_count()
    }

    /// The container's fingerprint.
    pub fn sha256(&self) -> (r: [u8; 32])
        ensures
            r@ == self.spec_source().spec_sha256(),
    {
        self.source.sha256()
    }

    /// Whether the source can only be drained in one forward pass.
    pub fn is_solid(&self) -> (r: bool)
        ensures
            r == self.spec_source().spec_is_solid(),
    {
        self.source.is_solid()
    }

    /// Whether every page is settled: no slot is still empty.
    pub fn all_loaded(&self) -> (r: bool)
        requires
            self.inv(),
        ensures
            r == (forall|i: int|
                0 <= i < self.spec_slots().len() ==> !((#[trigger] self.spec_slots()[i])
                    is Empty)),
    {
        proof {
            lemma_count_empty_zero(self.caches@, self.caches@.len() as int);
        }
        self.unloaded == 0
    }

    /// Whether page `index` still awaits decoding.
    pub fn is_unloaded(&self, index: usize) -> (r: bool)
        ensures
            r == is_unloaded_at(self.spec_slots(), index as int),
    {
        if index < self.caches.len() {
            match &self.caches[index] {
                Slot::Empty => true,
                _ => false,
            }
        } else {
            false
        }
    }

    /// The nearest still-undecoded page for a viewport `(index, size)`:
    /// the first hit of the forward-biased search order.
    pub fn has_unloaded_nearby(&self, index: usize, size: usize) -> (r: Option<usize>)
        requires
            index + 2 * size + size / 2 < usize::MAX,
        ensures
            match r {
                Some(i) => Some(i as int) == first_unloaded_in(
                    search_order(index as int, size as int),
                    self.spec_slots(),
                ),
                None => first_unloaded_in(search_order(index as int, size as int),
                    self.spec_slots()) is None,
            },
    {
        let ghost order = search_order(index as int, size as int);
        let half = size / 2;
        let fwd_count = 2 * size + half + 1;
        let ghost fwd_len: int = fwd_count as int;
        proof {
            assert(order.len() >= fwd_len);
            assert(forall|j: int| 0 <= j < fwd_len ==> order[j] == index + j);
        }
        let mut k: usize = 0;
        // forward: index, index + 1, ...
        while k < fwd_count
            invariant
                k <= fwd_count,
                index + 2 * size + size / 2 < usize::MAX,
                half == size / 2,
                fwd_count == 2 * size + half + 1,
                fwd_len == fwd_count as int,
                order == search_order(index as int, size as int),
                order.len() >= fwd_len,
                forall|j: int| 0 <= j < fwd_len ==> order[j] == index + j,
                forall|j: int| 0 <= j < k ==> !is_unloaded_at(self.spec_slots(), #[trigger] order[j]),
            decreases fwd_count - k,
        {
            let i = index + k;
            if self.is_unloaded(i) {
                proof {
                    lemma_first_unloaded_skip(order, self.spec_slots(), k as int);
                }
                return Some(i);
            }
            k = k + 1;
        }
        // backward: index - 1, index - 2, ...
        let back: usize = if size + half <= index {
            size + half
        } else {
            index
        };
        proof {
            assert(order.len() == fwd_len + back);
            assert(forall|j: int| 0 <= j < back ==> #[trigger] order[fwd_len + j] == index - 1 - j);
        }
        let mut b: usize = 0;
        while b < back
            invariant
                b <= back,
                back <= index,
                fwd_len == 2 * (size as int) + (size as int) / 2 + 1,
                order == search_order(index as int, size as int),
                order.len() == fwd_len + back,
                forall|j: int| 0 <= j < back ==> #[trigger] order[fwd_len + j] == index - 1 - j,
                forall|j: int| 0 <= j < fwd_len + b ==> !is_unloaded_at(
                    self.spec_slots(),
                    #[trigger] order[j],
                ),
            decreases back - b,
        {
            let i = index - 1 - b;
            if self.is_unloaded(i) {
                proof {
                    lemma_first_unloaded_skip(order, self.spec_slots(), fwd_len + b);
                }
                return Some(i);
            }
            b = b + 1;
        }
        proof {
            lemma_first_unloaded_skip(order, self.spec_slots(), order.len() as int);
            assert(order.skip(order.len() as int).len() == 0);
        }
        None
    }

    /// Feeds a new password candidate; accepted exactly when it was not
    /// tried before.  Only the encrypted container formats take
    /// candidates at all.
    pub fn add_password(&mut self, pwd: Vec<u8>) -> (r: bool)
        requires
            old(self).inv(),
        ensures
            final(self).inv(),
            final(self).spec_slots() == old(self).spec_slots(),
            final(self).spec_source() == old(self).spec_source(),
            match old(self).spec_source() {
                Source::Zip(_) | Source::SevenZip(_) => {
                    &&& r == !old(self).spec_passwords().contains(pwd@)
                    &&& (r ==> final(self).spec_passwords() == old(self).spec_passwords().push(
                        pwd@,
                    ))
                    &&& (!r ==> final(self).spec_passwords() == old(self).spec_passwords())
                },
                _ => r == false && final(self).spec_passwords() == old(self).spec_passwords(),
            },
    {
        let capable = match &self.source {
            Source::Zip(_) => true,
            Source::SevenZip(_) => true,
            _ => false,
        };
        if !capable {
            return false;
        }
        let mut i: usize = 0;
        while i < self.passwords.len()
            invariant
                *self == *old(self),
                old(self).inv(),
                i <= self.passwords@.len(),
                forall|j: int| 0 <= j < i ==> (#[trigger] self.passwords@[j])@ != pwd@,
            decreases self.passwords@.len() - i,
        {
            if bytes_eq(self.passwords[i].as_slice(), pwd.as_slice()) {
                proof {
                    assert(self.spec_passwords()[i as int] == pwd@);
                    assert(self.spec_passwords().contains(pwd@));
                }
                return false;
            }
            i = i + 1;
        }
        proof {
            if self.spec_passwords().contains(pwd@) {
                let w = choose|w: int|
                    0 <= w < self.spec_passwords().len() && self.spec_passwords()[w] == pwd@;
                assert((self.passwords@[w])@ == pwd@);
            }
        }
        let ghost pre = self.spec_passwords();
        self.passwords.push(pwd);
        proof {
            assert(self.spec_passwords() =~= pre.push(pwd@));
        }
        true
    }

    /// Settles page `index` from decoded bytes: empty bytes settle the
    /// slot as having no renderable content; image bytes become a cache
    /// entry whose file the caller writes.  A slot that is already
    /// settled is never touched again, so no page is decoded twice and
    /// no second file is ever created for an index.
    pub fn load_bytes(&mut self, index: usize, content: Vec<u8>) -> (r: Result<
        LoadOutcome,
        PageError,
    >)
        requires
            old(self).inv(),
        ensures
            final(self).inv(),
            final(self).spec_source() == old(self).spec_source(),
            final(self).spec_cache_dir() == old(self).spec_cache_dir(),
            final(self).spec_slots().len() == old(self).spec_slots().len(),
            !is_unloaded_at(old(self).spec_slots(), index as int) ==> (r matches Ok(o) && o
                is Nothing && final(self).spec_slots() == old(self).spec_slots()),
            is_unloaded_at(old(self).spec_slots(), index as int) && content@.len() == 0 ==> (
            r matches Ok(o) && o is NoContent && final(self).spec_slots() == old(
                self,
            ).spec_slots().update(index as int, Slot::NoData)),
            is_unloaded_at(old(self).spec_slots(), index as int) && content@.len() > 0 ==> match r {
                Ok(o) => o matches LoadOutcome::Loaded { data, content: c } && {
                    &&& image_dims_of(content@) is Some
                    &&& c@ == content@
                    &&& final(self).spec_slots() == old(self).spec_slots().update(
                        index as int,
                        final(self).spec_slots()[index as int],
                    )
                    &&& final(self).spec_slots()[index as int] matches Slot::Cached(pc)
                        && pc.spec_path() == crate::cache::page_path_of(
                        old(self).spec_cache_dir(),
                        index as int,
                    ) && Some(pc.spec_dims()) == image_dims_of(content@)
                    &&& data matches ImageData::Loaded { path, width, height } && path@
                        == crate::cache::page_path_of(old(self).spec_cache_dir(), index as int)
                        && Some((width, height)) == image_dims_of(content@)
                },
                Err(e) => e == PageError::DecodeError && image_dims_of(content@) is None
                    && final(self).spec_slots() == old(self).spec_slots(),
            },
    {
        if index >= self.caches.len() {
            return Ok(LoadOutcome::Nothing);
        }
        let already = match &self.caches[index] {
            Slot::Empty => false,
            _ => true,
        };
        if already {
            return Ok(LoadOutcome::Nothing);
        }
        if content.len() == 0 {
            let ghost pre = self.caches@;
            self.caches.set(index, Slot::NoData);
            proof {
                lemma_count_empty_update(pre, index as int, Slot::NoData, pre.len() as int);
                lemma_count_empty_bounds(self.caches@, self.caches@.len() as int);
                assert(count_empty(self.caches@) == count_empty(pre) - 1);
            }
            self.unloaded = self.unloaded - 1;
            return Ok(LoadOutcome::NoContent);
        }
        match write_cache(index, content.as_slice(), self.cache_dir.as_slice()) {
            Ok(entry) => {
                let data = entry.get_data();
                let ghost pre = self.caches@;
                self.caches.set(index, Slot::Cached(entry));
                proof {
                    lemma_count_empty_update(
                        pre,
                        index as int,
                        self.caches@[index as int],
                        pre.len() as int,
                    );
                    lemma_count_empty_bounds(self.caches@, self.caches@.len() as int);
                    assert(count_empty(self.caches@) == count_empty(pre) - 1);
                }
                self.unloaded = self.unloaded - 1;
                Ok(LoadOutcome::Loaded { data, content })
            },
            Err(e) => Err(e),
        }
    }

    /// Decodes page `index` once: a settled slot is left alone; a
    /// directory page comes back as a file request for the caller; any
    /// other source's bytes are settled through the byte-loading step.
    /// A still-unloaded page never comes back as a no-op: it is settled,
    /// requested as a file, or reported failed with its slot untouched.
    pub fn load(&mut self, index: usize) -> (r: Result<LoadOutcome, PageError>)
        requires
            old(self).inv(),
        ensures
            final(self).inv(),
            final(self).spec_cache_dir() == old(self).spec_cache_dir(),
            final(self).spec_slots().len() == old(self).spec_slots().len(),
            !is_unloaded_at(old(self).spec_slots(), index as int) ==> (r matches Ok(o) && o
                is Nothing && final(self).spec_slots() == old(self).spec_slots()),
            is_unloaded_at(old(self).spec_slots(), index as int) ==> match r {
                Ok(o) => match o {
                    LoadOutcome::Nothing => false,
                    LoadOutcome::NoContent => final(self).spec_slots() == old(
                        self,
                    ).spec_slots().update(index as int, Slot::NoData),
                    LoadOutcome::Loaded { data, content } => {
                        &&& image_dims_of(content@) is Some
                        &&& final(self).spec_slots() == old(self).spec_slots().update(
                            index as int,
                            final(self).spec_slots()[index as int],
                        )
                        &&& final(self).spec_slots()[index as int] matches Slot::Cached(pc)
                            && pc.spec_path() == crate::cache::page_path_of(
                            old(self).spec_cache_dir(),
                            index as int,
                        ) && Some(pc.spec_dims()) == image_dims_of(content@)
                        &&& data matches ImageData::Loaded { path, width, height } && path@
                            == crate::cache::page_path_of(
                            old(self).spec_cache_dir(),
                            index as int,
                        ) && Some((width, height)) == image_dims_of(content@)
                    },
                    LoadOutcome::NeedsFile(_) => final(self).spec_slots() == old(
                        self,
                    ).spec_slots(),
                },
                Err(_) => final(self).spec_slots() == old(self).spec_slots(),
            },
    {
        if index >= self.caches.len() {
            return Ok(LoadOutcome::Nothing);
        }
        let already = match &self.caches[index] {
            Slot::Empty => false,
            _ => true,
        };
        if already {
            return Ok(LoadOutcome::Nothing);
        }
        let data = match self.source.get_page_bytes(index) {
            Ok(d) => d,
            Err(e) => {
                return Err(e);
            },
        };
        match data {
            PageData::Bytes(content) => self.load_bytes(index, content),
            PageData::File(path) => Ok(LoadOutcome::NeedsFile(path)),
        }
    }

    /// Drains a solid source in one forward pass: every drained pair's
    /// index points inside the slot table, and the pairs are the index
    /// assignment of a drained list carrying exactly the archive's
    /// entries, ready for the byte-loading step.  A source with random
    /// access yields nothing here: its pages go one by one through the
    /// nearest-unloaded search instead.
    pub fn decode_all(&mut self) -> (r: Result<Vec<(usize, Vec<u8>)>, String>)
        requires
            old(self).inv(),
        ensures
            final(self).inv(),
            final(self).spec_slots() == old(self).spec_slots(),
            final(self).spec_cache_dir() == old(self).spec_cache_dir(),
            r matches Ok(v) ==> forall|k: int|
                0 <= k < v@.len() ==> (#[trigger] v@[k]).0 < final(self).spec_slots().len(),
            !(old(self).spec_source() is SevenZip) ==> (r matches Ok(v) && v@.len() == 0),
            old(self).spec_source() matches Source::SevenZip(sz) ==> {
                &&& (r is Ok <==> crate::sevenz_src::sevenz_drain_ok(
                    crate::sevenz_src::sevenz_bytes_of(sz.spec_archive()),
                    crate::sevenz_src::sevenz_pwd_of(sz.spec_archive()),
                ))
                &&& (r matches Ok(v) ==> exists|dv: Seq<(Seq<u8>, Seq<u8>)>|
                    {
                        &&& #[trigger] dv.to_multiset() == Seq::new(
                            crate::sevenz_src::sevenz_toc_of(sz.spec_archive()).len(),
                            |i: int|
                                (
                                    crate::sevenz_src::sevenz_toc_of(sz.spec_archive())[i].0,
                                    crate::sevenz_src::sevenz_data_of(sz.spec_archive())[i],
                                ),
                        ).to_multiset()
                        &&& crate::sevenz_src::assigned_views(v@)
                            == crate::sevenz_src::assigned_of(dv, sz.spec_names())
                    })
            },
    {
        match &mut self.source {
            Source::SevenZip(s) => s.decode_all(),
            _ => Ok(Vec::new()),
        }
    }

    /// Tears the session down: hands back exactly the slots' cache
    /// entries, in increasing page order, so the caller deletes each
    /// entry's file exactly once.
    pub fn into_caches(self) -> (r: Vec<PageCache>)
        ensures
            r@ == cached_of(self.spec_slots()),
            r@.len() == count_cached(self.spec_slots()),
    {
        let ghost orig = self.caches@;
        let mut caches = self.caches;
        let mut out: Vec<PageCache> = Vec::new();
        proof {
            lemma_cached_of_len(orig, orig.len() as int);
            assert(out@ =~= cached_upto(orig, 0));
        }
        while caches.len() > 0
            invariant
                caches@.len() <= orig.len(),
                forall|j: int| 0 <= j < caches@.len() ==> caches@[j] == orig[(orig.len()
                    - caches@.len()) + j],
                out@ =~= cached_upto(orig, (orig.len() - caches@.len()) as int),
            decreases caches@.len(),
        {
            let ghost k = (orig.len() - caches@.len()) as int;
            let slot = caches.remove(0);
            proof {
                assert(slot == orig[k]);
                assert(forall|j: int|
                    0 <= j < caches@.len() ==> caches@[j] == orig[(orig.len() - caches@.len())
                        + j]);
            }
            match slot {
                Slot::Cached(pc) => {
                    out.push(pc);
                },
                _ => {},
            }
            proof {
                assert(out@ =~= cached_upto(orig, k + 1));
            }
        }
        proof {
            assert(out@ =~= cached_upto(orig, orig.len() as int));
        }
        out
    }
}

/// The cache entries of the first `n` slots, in slot order.
pub open spec fn cached_upto(slots: Seq<Slot>, n: int) -> Seq<PageCache>
    decreases n,
{
    if n <= 0 {
        Seq::empty()
    } else {
        cached_upto(slots, n - 1) + match slots[n - 1] {
            Slot::Cached(pc) => seq![pc],
            _ => Seq::empty(),
        }
    }
}

/// The cache entries of all slots, in slot order.
pub open spec fn cached_of(slots: Seq<Slot>) -> Seq<PageCache> {
    cached_upto(slots, slots.len() as int)
}

/// There are as many handed-out entries as cached slots.
proof fn lemma_cached_of_len(slots: Seq<Slot>, n: int)
    requires
        0 <= n <= slots.len(),
    ensures
        cached_upto(slots, n).len() == count_cached_upto(slots, n),
    decreases n,
{
    if n > 0 {
        lemma_cached_of_len(slots, n - 1);
    }
}

/// How many of the first `n` slots hold a cache entry.
pub open spec fn count_cached_upto(slots: Seq<Slot>, n: int) -> int
    decreases n,
{
    if n <= 0 {
        0
    } else {
        count_cached_upto(slots, n - 1) + if slots[n - 1] is Cached {
            1int
        } else {
            0int
        }
    }
}

/// How many slots hold a cache entry.
pub open spec fn count_cached(slots: Seq<Slot>) -> int {
    count_cached_upto(slots, slots.len() as int)
}


/// Appending a slot keeps the empty count of the untouched prefix.
proof fn lemma_count_empty_prefix(pre: Seq<Slot>, post: Seq<Slot>, n: int)
    requires
        0 <= n <= pre.len(),
        n <= post.len(),
        forall|j: int| 0 <= j < n ==> pre[j] == post[j],
    ensures
        count_empty_upto(pre, n) == count_empty_upto(post, n),
    decreases n,
{
    if n > 0 {
        lemma_count_empty_prefix(pre, post, n - 1);
    }
}

} // verus!
