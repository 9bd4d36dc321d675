//! Address spaces: the pages that a process has mapped, and the areas that were mapped for it.
use crate::seqs;
use vstd::prelude::*;

verus! {

/// The bytes of a page.
pub const PAGE_SIZE: usize = 4096;

/// A virtual address.
#[derive(Clone, Copy, Debug, PartialEq, Eq, Structural)]
pub struct VirtAddr(pub usize);

/// The number of a virtual page.
#[derive(Clone, Copy, Debug, PartialEq, Eq, Structural)]
pub struct VirtPageNum(pub usize);

/// The page that holds address `a`.
pub open spec fn page_floor(a: int) -> int {
    a / PAGE_SIZE as int
}

/// The first page that starts at address `a` or behind it.
pub open spec fn page_ceil(a: int) -> int {
    (a + PAGE_SIZE - 1) / PAGE_SIZE as int
}

impl VirtAddr {
    /// Whether a page starts at the address.
    pub fn aligned(&self) -> (yes: bool)
        ensures
            yes == (self.0 % PAGE_SIZE == 0),
    {
        self.0 % PAGE_SIZE == 0
    }

    /// The page that holds the address.
    pub fn floor(&self) -> (vpn: VirtPageNum)
        ensures
            vpn.0 == page_floor(self.0 as int),
    {
        VirtPageNum(self.0 / PAGE_SIZE)
    }

    /// The first page that starts at the address or behind it.
    pub fn ceil(&self) -> (vpn: VirtPageNum)
        ensures
            vpn.0 == page_ceil(self.0 as int),
    {
        if self.0 % PAGE_SIZE == 0 {
            VirtPageNum(self.0 / PAGE_SIZE)
        } else {
            VirtPageNum(self.0 / PAGE_SIZE + 1)
        }
    }
}

/// What may be done with a page.
#[derive(Clone, Copy, Debug, PartialEq, Eq, Structural)]
pub struct MapPermission {
    pub readable: bool,
    pub writable: bool,
    pub executable: bool,
    pub user: bool,
}

/// A range of pages that were mapped together.
#[derive(Clone, Copy, Debug, PartialEq, Eq, Structural)]
pub struct MapArea {
    pub start: VirtPageNum,
    pub end: VirtPageNum,
    pub perm: MapPermission,
}

/// What a mapped page is.
#[verifier::ext_equal]
pub struct PageView {
    pub perm: MapPermission,
    pub bytes: Seq<u8>,
}

/// A page without contents.
pub open spec fn zero_page(perm: MapPermission) -> PageView {
    PageView { perm, bytes: seqs::zeros(PAGE_SIZE as nat) }
}

/// What an address space is: the pages by their numbers, and the areas in the order in which
/// they were mapped.
#[verifier::ext_equal]
pub struct MemoryView {
    pub pages: Map<int, PageView>,
    pub areas: Seq<MapArea>,
}

impl MemoryView {
    /// An address space without pages.
    pub open spec fn bare() -> MemoryView {
        MemoryView { pages: Map::empty(), areas: Seq::empty() }
    }

    /// Whether the pages from `start` up to `end` are all mapped.
    pub open spec fn all_mapped(self, start: int, end: int) -> bool {
        forall|v: int| start <= v < end ==> #[trigger] self.pages.contains_key(v)
    }

    /// Whether none of the pages from `start` up to `end` is mapped.
    pub open spec fn none_mapped(self, start: int, end: int) -> bool {
        forall|v: int| start <= v < end ==> !#[trigger] self.pages.contains_key(v)
    }

    /// The address space with zero pages mapped from `start` up to `end`.
    pub open spec fn with_pages(self, start: int, end: int, perm: MapPermission) -> MemoryView {
        MemoryView {
            pages: Map::new(
                |v: int| self.pages.contains_key(v) || start <= v < end,
                |v: int|
                    if start <= v < end {
                        zero_page(perm)
                    } else {
                        self.pages[v]
                    },
            ),
            ..self
        }
    }

    /// The address space without the pages from `start` up to `end`.
    pub open spec fn without_pages(self, start: int, end: int) -> MemoryView {
        MemoryView {
            pages: Map::new(
                |v: int| self.pages.contains_key(v) && !(start <= v < end),
                |v: int| self.pages[v],
            ),
            ..self
        }
    }

    /// The address space with an area of zero pages mapped from `start` up to `end`.
    pub open spec fn with_area(self, start: int, end: int, perm: MapPermission) -> MemoryView {
        MemoryView {
            pages: self.with_pages(start, end, perm).pages,
            areas: self.areas.push(
                MapArea {
                    start: VirtPageNum(start as usize),
                    end: VirtPageNum(end as usize),
                    perm,
                },
            ),
        }
    }

    /// The address space with area `k` on record as ending at `end`.
    pub open spec fn with_area_end(self, k: int, end: int) -> MemoryView {
        MemoryView {
            areas: self.areas.update(
                k,
                MapArea { end: VirtPageNum(end as usize), ..self.areas[k] },
            ),
            ..self
        }
    }

    /// Whether the `len` bytes from address `addr` on are mapped.
    pub open spec fn mapped(self, addr: int, len: int) -> bool {
        forall|a: int| addr <= a < addr + len ==> self.pages.contains_key(#[trigger] page_floor(a))
    }

    /// The byte at address `addr`.
    pub open spec fn byte(self, addr: int) -> u8 {
        self.pages[page_floor(addr)].bytes[addr % PAGE_SIZE as int]
    }

    /// The address space with the bytes from address `addr` on overwritten.
    pub open spec fn with_bytes(self, addr: int, bytes: Seq<u8>) -> MemoryView {
        MemoryView {
            pages: Map::new(
                |v: int| self.pages.contains_key(v),
                |v: int|
                    PageView {
                        perm: self.pages[v].perm,
                        bytes: seqs::splice(self.pages[v].bytes, addr - v * PAGE_SIZE, bytes),
                    },
            ),
            ..self
        }
    }

    /// Whether a string of `n` bytes, with a zero byte behind it, stands at address `addr`.
    pub open spec fn has_string(self, addr: int, n: int) -> bool {
        &&& 0 <= n
        &&& self.mapped(addr, n + 1)
        &&& addr + n <= usize::MAX
        &&& self.byte(addr + n) == 0
        &&& forall|a: int| addr <= a < addr + n ==> #[trigger] self.byte(a) != 0
    }

    /// The characters of the string at address `addr`: one for each byte up to the zero byte.
    pub open spec fn string(self, addr: int, n: int) -> Seq<char> {
        Seq::new(n as nat, |i: int| self.byte(addr + i) as char)
    }

    /// Whether a string stands at address `addr`.
    pub open spec fn has_cstring(self, addr: int) -> bool {
        exists|n: int| self.has_string(addr, n)
    }

    /// The characters of the string at address `addr`.
    pub open spec fn cstring(self, addr: int) -> Seq<char> {
        self.string(addr, choose|n: int| self.has_string(addr, n))
    }

    /// Whether area `k` can be extended to `end`: the pages that it gains are not mapped.
    pub open spec fn can_append(self, k: int, end: int) -> bool {
        &&& self.areas[k].end.0 <= end
        &&& self.none_mapped(self.areas[k].end.0 as int, end)
    }

    /// The address space with area `k` extended to `end`.
    pub open spec fn appended(self, k: int, end: int) -> MemoryView {
        self.with_pages(self.areas[k].end.0 as int, end, self.areas[k].perm).with_area_end(k, end)
    }

    /// Whether area `k` can be cut off at `end`: the pages that it loses are mapped.
    pub open spec fn can_shrink(self, k: int, end: int) -> bool {
        &&& self.areas[k].start.0 <= end <= self.areas[k].end.0
        &&& self.all_mapped(end, self.areas[k].end.0 as int)
    }

    /// The address space with area `k` cut off at `end`.
    pub open spec fn shrunk(self, k: int, end: int) -> MemoryView {
        self.without_pages(end, self.areas[k].end.0 as int).with_area_end(k, end)
    }

    /// The index of the first area that starts with page `start`, or the number of areas if none
    /// does.
    pub open spec fn area_at(self, start: int) -> int {
        seqs::first_index(self.areas, starts_at(start))
    }
}

/// The property of an area that it starts with the given page.
pub open spec fn starts_at(start: int) -> spec_fn(MapArea) -> bool {
    |area: MapArea| area.start.0 == start
}

/// A string of user memory ends in one place: where `n` bytes stand before the first zero byte, the
/// string is made of those.
pub proof fn string_is(m: MemoryView, addr: int, n: int)
    requires
        m.has_string(addr, n),
    ensures
        m.has_cstring(addr),
        m.cstring(addr) == m.string(addr, n),
{
    let k = choose|k: int| m.has_string(addr, k);
    if n < k {
        assert(m.byte(addr + n) != 0);
    } else if k < n {
        assert(m.byte(addr + k) != 0);
    }
}

/// A mapped page: its number, what may be done with it, and its bytes.
pub struct Page {
    vpn: usize,
    perm: MapPermission,
    bytes: Vec<u8>,
}

/// The property of a page that it has the given number.
pub closed spec fn has_vpn(vpn: int) -> spec_fn(Page) -> bool {
    |page: Page| page.vpn == vpn
}

/// Appends a character.
///
/// Specifies `String::push`: the string is the one before with the character behind it.
pub assume_specification[ String::push ](s: &mut String, c: char)
    ensures
        final(s)@ == old(s)@.push(c),
;

/// An address space.
pub struct MemorySet {
    pages: Vec<Page>,
    areas: Vec<MapArea>,
}

impl View for MemorySet {
    type V = MemoryView;

    closed spec fn view(&self) -> MemoryView {
        MemoryView {
            pages: Map::new(
                |v: int| seqs::first_index(self.pages@, has_vpn(v)) < self.pages@.len(),
                |v: int|
                    {
                        let page = self.pages@[seqs::first_index(self.pages@, has_vpn(v))];
                        PageView { perm: page.perm, bytes: page.bytes@ }
                    },
            ),
            areas: self.areas@,
        }
    }
}

impl MemorySet {
    /// Every page is whole and is mapped once.
    pub closed spec fn wf(&self) -> bool {
        &&& forall|i: int|
            0 <= i < self.pages@.len() ==> (#[trigger] self.pages@[i]).bytes@.len() == PAGE_SIZE
        &&& forall|i: int, j: int|
            0 <= i < j < self.pages@.len() ==> (#[trigger] self.pages@[i]).vpn != (
            #[trigger] self.pages@[j]).vpn
    }

    /// The page at index `i` of the page list is the mapped page of its number.
    proof fn lemma_page(&self, i: int)
        requires
            self.wf(),
            0 <= i < self.pages@.len(),
        ensures
            seqs::first_index(self.pages@, has_vpn(self.pages@[i].vpn as int)) == i,
            self@.pages.contains_key(self.pages@[i].vpn as int),
            self@.pages[self.pages@[i].vpn as int] == (PageView {
                perm: self.pages@[i].perm,
                bytes: self.pages@[i].bytes@,
            }),
    {
        let p = has_vpn(self.pages@[i].vpn as int);
        assert forall|j: int| 0 <= j < i implies !p(#[trigger] self.pages@[j]) by {
            assert(self.pages@[j].vpn != self.pages@[i].vpn);
        }
        seqs::lemma_first_index_is(self.pages@, p, i);
    }

    /// A page number that no page in the list has is not mapped.
    proof fn lemma_no_page(&self, v: int)
        requires
            forall|i: int| 0 <= i < self.pages@.len() ==> (#[trigger] self.pages@[i]).vpn != v,
        ensures
            !self@.pages.contains_key(v),
    {
        seqs::lemma_first_index_is(self.pages@, has_vpn(v), self.pages@.len() as int);
    }

    /// A mapped page stands in the list.
    proof fn lemma_listed(&self, v: int) -> (i: int)
        requires
            self.wf(),
            self@.pages.contains_key(v),
        ensures
            0 <= i < self.pages@.len(),
            self.pages@[i].vpn == v,
            self@.pages[v] == (PageView {
                perm: self.pages@[i].perm,
                bytes: self.pages@[i].bytes@,
            }),
    {
        let i = seqs::first_index(self.pages@, has_vpn(v));
        seqs::lemma_first_index(self.pages@, has_vpn(v));
        assert(has_vpn(v)(self.pages@[i]));
        i
    }

    /// Mapped pages are whole and have numbers that are `usize`.
    pub proof fn lemma_pages(&self)
        requires
            self.wf(),
        ensures
            forall|v: int| #[trigger]
                self@.pages.contains_key(v) ==> {
                    &&& 0 <= v <= usize::MAX
                    &&& self@.pages[v].bytes.len() == PAGE_SIZE
                },
    {
        assert forall|v: int| #[trigger] self@.pages.contains_key(v) implies {
            &&& 0 <= v <= usize::MAX
            &&& self@.pages[v].bytes.len() == PAGE_SIZE
        } by {
            let i = self.lemma_listed(v);
            assert(self.pages@[i].bytes@.len() == PAGE_SIZE);
        }
    }

    /// An address space without pages.
    pub fn new_bare() -> (set: Self)
        ensures
            set.wf(),
            set@ == MemoryView::bare(),
    {
        let set = MemorySet { pages: Vec::new(), areas: Vec::new() };
        assert forall|v: int| !#[trigger] set@.pages.contains_key(v) by {
            set.lemma_no_page(v);
        }
        assert(set@ =~= MemoryView::bare());
        set
    }

    /// The index of a page in the list, or the length of the list if the page is not mapped.
    fn index_of(&self, vpn: VirtPageNum) -> (i: usize)
        requires
            self.wf(),
        ensures
            i == seqs::first_index(self.pages@, has_vpn(vpn.0 as int)),
            i <= self.pages@.len(),
            i < self.pages@.len() <==> self@.pages.contains_key(vpn.0 as int),
            i < self.pages@.len() ==> self.pages@[i as int].vpn == vpn.0,
    {
        let mut i: usize = 0;
        while i < self.pages.len()
            invariant
                i <= self.pages@.len(),
                forall|j: int| 0 <= j < i ==> (#[trigger] self.pages@[j]).vpn != vpn.0,
            decreases self.pages@.len() - i,
        {
            if self.pages[i].vpn == vpn.0 {
                proof {
                    seqs::lemma_first_index_is(self.pages@, has_vpn(vpn.0 as int), i as int);
                }
                return i;
            }
            i = i + 1;
        }
        proof {
            seqs::lemma_first_index_is(self.pages@, has_vpn(vpn.0 as int), i as int);
        }
        i
    }

    /// What may be done with a page, if it is mapped.
    pub fn translate(&self, vpn: VirtPageNum) -> (perm: Option<MapPermission>)
        requires
            self.wf(),
        ensures
            perm == if self@.pages.contains_key(vpn.0 as int) {
                Some(self@.pages[vpn.0 as int].perm)
            } else {
                None
            },
    {
        let i: usize = self.index_of(vpn);
        if i < self.pages.len() {
            Some(self.pages[i].perm)
        } else {
            None
        }
    }

    /// Maps a zero page.
    fn map_one(&mut self, vpn: VirtPageNum, perm: MapPermission)
        requires
            old(self).wf(),
            !old(self)@.pages.contains_key(vpn.0 as int),
        ensures
            final(self).wf(),
            final(self)@ == old(self)@.with_pages(vpn.0 as int, vpn.0 + 1, perm),
    {
        let mut bytes: Vec<u8> = Vec::new();
        let mut b: usize = 0;
        while b < PAGE_SIZE
            invariant
                b <= PAGE_SIZE,
                bytes@ == seqs::zeros(b as nat),
            decreases PAGE_SIZE - b,
        {
            bytes.push(0);
            b = b + 1;
            assert(bytes@ =~= seqs::zeros(b as nat));
        }
        self.pages.push(Page { vpn: vpn.0, perm, bytes });
        proof {
            let n = old(self).pages@.len() as int;
            assert forall|i: int| 0 <= i < n implies (#[trigger] self.pages@[i]).vpn != vpn.0 by {
                old(self).lemma_page(i);
            }
            assert(self.wf());
            let want = old(self)@.with_pages(vpn.0 as int, vpn.0 + 1, perm);
            self.lemma_page(n);
            assert forall|v: int| #[trigger] self@.pages.contains_key(v) <==> want.pages.contains_key(v) by {
                if old(self)@.pages.contains_key(v) {
                    let i = old(self).lemma_listed(v);
                    self.lemma_page(i);
                }
                if self@.pages.contains_key(v) && v != vpn.0 {
                    let i = self.lemma_listed(v);
                    old(self).lemma_page(i);
                }
            }
            assert forall|v: int| #[trigger] self@.pages.contains_key(v) implies self@.pages[v]
                == want.pages[v] by {
                if v != vpn.0 {
                    let i = old(self).lemma_listed(v);
                    self.lemma_page(i);
                }
            }
            assert(self@.pages =~= want.pages);
            assert(self@ =~= want);
        }
    }

    /// Unmaps a page. The area that it was mapped with stays on record as it is.
    pub fn unmap(&mut self, vpn: VirtPageNum)
        requires
            old(self).wf(),
            old(self)@.pages.contains_key(vpn.0 as int),
        ensures
            final(self).wf(),
            final(self)@ == old(self)@.without_pages(vpn.0 as int, vpn.0 + 1),
    {
        let k: usize = self.index_of(vpn);
        let _ = self.pages.remove(k);
        proof {
            let olds = old(self).pages@;
            assert(forall|i: int|
                0 <= i < self.pages@.len() ==> #[trigger] self.pages@[i] == olds[if i < k {
                    i
                } else {
                    i + 1
                }]);
            assert(self.wf());
            let want = old(self)@.without_pages(vpn.0 as int, vpn.0 + 1);
            assert forall|i: int| 0 <= i < self.pages@.len() implies (
            #[trigger] self.pages@[i]).vpn != vpn.0 by {
                assert(olds[k as int].vpn == vpn.0);
            }
            self.lemma_no_page(vpn.0 as int);
            assert forall|v: int| #[trigger] self@.pages.contains_key(v) <==> want.pages.contains_key(v) by {
                if want.pages.contains_key(v) {
                    let i = old(self).lemma_listed(v);
                    self.lemma_page(if i < k { i } else { i - 1 });
                }
                if self@.pages.contains_key(v) {
                    let i = self.lemma_listed(v);
                    old(self).lemma_page(if i < k { i } else { i + 1 });
                }
            }
            assert forall|v: int| #[trigger] self@.pages.contains_key(v) implies self@.pages[v]
                == want.pages[v] by {
                let i = old(self).lemma_listed(v);
                self.lemma_page(if i < k { i } else { i - 1 });
            }
            assert(self@.pages =~= want.pages);
            assert(self@ =~= want);
        }
    }

    /// Maps zero pages from `start` up to `end`.
    fn map_range(&mut self, start: VirtPageNum, end: VirtPageNum, perm: MapPermission)
        requires
            old(self).wf(),
            old(self)@.none_mapped(start.0 as int, end.0 as int),
        ensures
            final(self).wf(),
            final(self)@ == old(self)@.with_pages(start.0 as int, end.0 as int, perm),
    {
        let mut v: usize = start.0;
        assert(self@ =~= old(self)@.with_pages(start.0 as int, v as int, perm));
        while v < end.0
            invariant
                start.0 <= v,
                v <= end.0 || v == start.0,
                self.wf(),
                old(self)@.none_mapped(start.0 as int, end.0 as int),
                self@ == old(self)@.with_pages(start.0 as int, v as int, perm),
            decreases end.0 - v,
        {
            assert(!old(self)@.pages.contains_key(v as int));
            self.map_one(VirtPageNum(v), perm);
            v = v + 1;
            assert(self@ =~= old(self)@.with_pages(start.0 as int, v as int, perm));
        }
        assert(self@ =~= old(self)@.with_pages(start.0 as int, end.0 as int, perm));
    }

    /// Unmaps the pages from `start` up to `end`.
    pub fn unmap_range(&mut self, start: VirtPageNum, end: VirtPageNum)
        requires
            old(self).wf(),
            old(self)@.all_mapped(start.0 as int, end.0 as int),
        ensures
            final(self).wf(),
            final(self)@ == old(self)@.without_pages(start.0 as int, end.0 as int),
    {
        let mut v: usize = start.0;
        assert(self@ =~= old(self)@.without_pages(start.0 as int, v as int));
        while v < end.0
            invariant
                start.0 <= v,
                v <= end.0 || v == start.0,
                self.wf(),
                old(self)@.all_mapped(start.0 as int, end.0 as int),
                self@ == old(self)@.without_pages(start.0 as int, v as int),
            decreases end.0 - v,
        {
            assert(old(self)@.pages.contains_key(v as int));
            self.unmap(VirtPageNum(v));
            v = v + 1;
            assert(self@ =~= old(self)@.without_pages(start.0 as int, v as int));
        }
        assert(self@ =~= old(self)@.without_pages(start.0 as int, end.0 as int));
    }

    /// Maps an area of zero pages: from the page that holds `start` up to the one that starts at
    /// `end` or behind it.
    pub fn insert_framed_area(&mut self, start: VirtAddr, end: VirtAddr, perm: MapPermission)
        requires
            old(self).wf(),
            old(self)@.none_mapped(page_floor(start.0 as int), page_ceil(end.0 as int)),
        ensures
            final(self).wf(),
            final(self)@ == old(self)@.with_area(
                page_floor(start.0 as int),
                page_ceil(end.0 as int),
                perm,
            ),
    {
        self.map_range(start.floor(), end.ceil(), perm);
        let ghost mapped = self@;
        self.areas.push(MapArea { start: start.floor(), end: end.ceil(), perm });
        assert(self@.pages =~= mapped.pages);
        assert(self@ =~= old(self)@.with_area(
            page_floor(start.0 as int),
            page_ceil(end.0 as int),
            perm,
        ));
    }

    /// The index of the first area that starts with page `start`, or the number of areas if none
    /// does.
    fn area_index(&self, start: VirtPageNum) -> (i: usize)
        ensures
            i == self@.area_at(start.0 as int),
            i <= self@.areas.len(),
    {
        let mut i: usize = 0;
        while i < self.areas.len()
            invariant
                i <= self.areas@.len(),
                forall|j: int| 0 <= j < i ==> (#[trigger] self.areas@[j]).start.0 != start.0,
            decreases self.areas@.len() - i,
        {
            if self.areas[i].start.0 == start.0 {
                proof {
                    seqs::lemma_first_index_is(self.areas@, starts_at(start.0 as int), i as int);
                }
                return i;
            }
            i = i + 1;
        }
        proof {
            seqs::lemma_first_index_is(self.areas@, starts_at(start.0 as int), i as int);
        }
        i
    }

    /// Extends the area that starts with the page of `start` to `new_end`, if there is such an
    /// area.
    pub fn append_to(&mut self, start: VirtAddr, new_end: VirtAddr) -> (found: bool)
        requires
            old(self).wf(),
            old(self)@.area_at(page_floor(start.0 as int)) < old(self)@.areas.len() ==> old(
                self,
            )@.can_append(
                old(self)@.area_at(page_floor(start.0 as int)),
                page_ceil(new_end.0 as int),
            ),
        ensures
            final(self).wf(),
            found == (old(self)@.area_at(page_floor(start.0 as int)) < old(self)@.areas.len()),
            final(self)@ == if found {
                old(self)@.appended(
                    old(self)@.area_at(page_floor(start.0 as int)),
                    page_ceil(new_end.0 as int),
                )
            } else {
                old(self)@
            },
    {
        let k: usize = self.area_index(start.floor());
        if k >= self.areas.len() {
            return false;
        }
        let end = new_end.ceil();
        self.map_range(self.areas[k].end, end, self.areas[k].perm);
        let ghost mapped = self@;
        self.areas[k].end = end;
        assert(self@.pages =~= mapped.pages);
        assert(self@ =~= old(self)@.appended(k as int, end.0 as int));
        true
    }

    /// Cuts off the area that starts with the page of `start` at `new_end`, if there is such an
    /// area.
    pub fn shrink_to(&mut self, start: VirtAddr, new_end: VirtAddr) -> (found: bool)
        requires
            old(self).wf(),
            old(self)@.area_at(page_floor(start.0 as int)) < old(self)@.areas.len() ==> old(
                self,
            )@.can_shrink(
                old(self)@.area_at(page_floor(start.0 as int)),
                page_ceil(new_end.0 as int),
            ),
        ensures
            final(self).wf(),
            found == (old(self)@.area_at(page_floor(start.0 as int)) < old(self)@.areas.len()),
            final(self)@ == if found {
                old(self)@.shrunk(
                    old(self)@.area_at(page_floor(start.0 as int)),
                    page_ceil(new_end.0 as int),
                )
            } else {
                old(self)@
            },
    {
        let k: usize = self.area_index(start.floor());
        if k >= self.areas.len() {
            return false;
        }
        let end = new_end.ceil();
        self.unmap_range(end, self.areas[k].end);
        let ghost unmapped = self@;
        self.areas[k].end = end;
        assert(self@.pages =~= unmapped.pages);
        assert(self@ =~= old(self)@.shrunk(k as int, end.0 as int));
        true
    }

    /// Overwrites the bytes from address `addr` on.
    pub fn write_bytes(&mut self, addr: usize, bytes: &[u8])
        requires
            old(self).wf(),
            old(self)@.mapped(addr as int, bytes@.len() as int),
            addr + bytes@.len() <= usize::MAX,
        ensures
            final(self).wf(),
            final(self)@ == old(self)@.with_bytes(addr as int, bytes@),
    {
        let mut i: usize = 0;
        proof {
            self.lemma_pages();
            let want = self@.with_bytes(addr as int, bytes@.take(0));
            assert forall|v: int| #[trigger] self@.pages.contains_key(v) implies self@.pages[v]
                == want.pages[v] by {
                assert(self@.pages[v].bytes =~= want.pages[v].bytes);
            }
            assert(self@.pages =~= want.pages);
            assert(self@ =~= want);
        }
        while i < bytes.len()
            invariant
                i <= bytes@.len(),
                addr + bytes@.len() <= usize::MAX,
                old(self).wf(),
                old(self)@.mapped(addr as int, bytes@.len() as int),
                self.wf(),
                self@ == old(self)@.with_bytes(addr as int, bytes@.take(i as int)),
            decreases bytes@.len() - i,
        {
            let at: usize = addr + i;
            let ghost before = *self;
            let ghost page = page_floor(at as int);
            assert(old(self)@.pages.contains_key(page_floor(at as int)));
            let p: usize = self.index_of(VirtAddr(at).floor());
            self.pages[p].bytes[at % PAGE_SIZE] = bytes[i];
            i = i + 1;
            proof {
                assert(forall|j: int|
                    0 <= j < self.pages@.len() && j != p ==> #[trigger] self.pages@[j]
                        == before.pages@[j]);
                assert(self.wf());
                let want = old(self)@.with_bytes(addr as int, bytes@.take(i as int));
                assert forall|v: int| #[trigger] self@.pages.contains_key(v) <==> want.pages.contains_key(v) by {
                    if before@.pages.contains_key(v) {
                        let j = before.lemma_listed(v);
                        self.lemma_page(j);
                    }
                    if self@.pages.contains_key(v) {
                        let j = self.lemma_listed(v);
                        before.lemma_page(j);
                    }
                }
                old(self).lemma_pages();
                assert forall|v: int| #[trigger] self@.pages.contains_key(v) implies self@.pages[v]
                    == want.pages[v] by {
                    let j = self.lemma_listed(v);
                    before.lemma_page(j);
                    assert(old(self)@.pages.contains_key(v));
                    if v != page {
                        assert(j != p);
                        assert(self@.pages[v] == before@.pages[v]);
                    } else {
                        assert(j == p) by {
                            before.lemma_page(p as int);
                        }
                    }
                    assert(self@.pages[v].bytes =~= want.pages[v].bytes);
                }
                assert(self@.pages =~= want.pages);
                assert(self@ =~= want);
            }
        }
        assert(bytes@.take(i as int) =~= bytes@);
    }

    /// The string at address `addr`: one character for each byte up to the zero byte.
    pub fn read_string(&self, addr: usize) -> (s: String)
        requires
            self.wf(),
            self@.has_cstring(addr as int),
        ensures
            s@ == self@.cstring(addr as int),
    {
        let ghost n = choose|n: int| self@.has_string(addr as int, n);
        let mut s: String = String::new();
        let mut va: usize = addr;
        assert(s@ =~= self@.string(addr as int, 0));
        loop
            invariant
                self.wf(),
                addr <= va,
                self@.has_string(addr as int, n),
                va - addr <= n,
                s@ == self@.string(addr as int, va - addr),
            ensures
                s@ == self@.string(addr as int, n),
            decreases n - (va - addr),
        {
            assert(self@.pages.contains_key(page_floor(va as int)));
            let p: usize = self.index_of(VirtAddr(va).floor());
            proof {
                self.lemma_page(p as int);
            }
            let ch: u8 = self.pages[p].bytes[va % PAGE_SIZE];
            assert(ch == self@.byte(va as int));
            if ch == 0 {
                break;
            }
            s.push(ch as char);
            va = va + 1;
            assert(s@ =~= self@.string(addr as int, va - addr));
        }
        s
    }

    /// A copy of the address space.
    pub fn duplicate(&self) -> (set: Self)
        requires
            self.wf(),
        ensures
            set.wf(),
            set@ == self@,
    {
        let mut pages: Vec<Page> = Vec::new();
        let mut i: usize = 0;
        while i < self.pages.len()
            invariant
                i <= self.pages@.len(),
                pages@.len() == i,
                forall|j: int|
                    0 <= j < i ==> {
                        &&& (#[trigger] pages@[j]).vpn == self.pages@[j].vpn
                        &&& pages@[j].perm == self.pages@[j].perm
                        &&& pages@[j].bytes@ == self.pages@[j].bytes@
                    },
            decreases self.pages@.len() - i,
        {
            let page = &self.pages[i];
            let bytes = page.bytes.clone();
            assert(bytes@ =~= page.bytes@);
            pages.push(Page { vpn: page.vpn, perm: page.perm, bytes });
            i = i + 1;
        }
        let mut areas: Vec<MapArea> = Vec::new();
        let mut k: usize = 0;
        while k < self.areas.len()
            invariant
                k <= self.areas@.len(),
                areas@ == self.areas@.take(k as int),
            decreases self.areas@.len() - k,
        {
            areas.push(self.areas[k]);
            k = k + 1;
            assert(areas@ =~= self.areas@.take(k as int));
        }
        let set = MemorySet { pages, areas };
        proof {
            assert(set.areas@ =~= self.areas@);
            assert(set.wf()) by {
                assert forall|i: int, j: int| 0 <= i < j < set.pages@.len() implies (
                #[trigger] set.pages@[i]).vpn != (#[trigger] set.pages@[j]).vpn by {
                    assert(self.pages@[i].vpn != self.pages@[j].vpn);
                }
                assert forall|i: int| 0 <= i < set.pages@.len() implies (
                #[trigger] set.pages@[i]).bytes@.len() == PAGE_SIZE by {
                    assert(self.pages@[i].bytes@.len() == PAGE_SIZE);
                }
            }
            assert forall|v: int| #[trigger] set@.pages.contains_key(v) <==> self@.pages.contains_key(v) by {
                if self@.pages.contains_key(v) {
                    let j = self.lemma_listed(v);
                    set.lemma_page(j);
                }
                if set@.pages.contains_key(v) {
                    let j = set.lemma_listed(v);
                    self.lemma_page(j);
                }
            }
            assert forall|v: int| #[trigger] set@.pages.contains_key(v) implies set@.pages[v]
                == self@.pages[v] by {
                let j = set.lemma_listed(v);
                self.lemma_page(j);
            }
            assert(set@.pages =~= self@.pages);
            assert(set@ =~= self@);
        }
        set
    }

    /// Whether the `len` bytes from address `addr` on are mapped.
    pub fn is_mapped(&self, addr: usize, len: usize) -> (yes: bool)
        requires
            self.wf(),
            addr + len <= usize::MAX,
        ensures
            yes == self@.mapped(addr as int, len as int),
    {
        let mut i: usize = 0;
        while i < len
            invariant
                i <= len,
                addr + len <= usize::MAX,
                self.wf(),
                self@.mapped(addr as int, i as int),
            decreases len - i,
        {
            let at: usize = addr + i;
            if self.translate(VirtAddr(at).floor()).is_none() {
                assert(!self@.pages.contains_key(page_floor(at as int)));
                return false;
            }
            i = i + 1;
            assert forall|a: int| addr <= a < addr + i implies self@.pages.contains_key(
                #[trigger] page_floor(a),
            ) by {
                if a < addr + i - 1 {
                    assert(self@.pages.contains_key(page_floor(a)));
                }
            }
        }
        true
    }

    /// Whether none of the pages from `start` up to `end` is mapped.
    pub fn none_mapped(&self, start: VirtPageNum, end: VirtPageNum) -> (yes: bool)
        requires
            self.wf(),
        ensures
            yes == self@.none_mapped(start.0 as int, end.0 as int),
    {
        let mut v: usize = start.0;
        while v < end.0
            invariant
                start.0 <= v,
                self.wf(),
                self@.none_mapped(start.0 as int, v as int),
            decreases end.0 - v,
        {
            if self.translate(VirtPageNum(v)).is_some() {
                assert(self@.pages.contains_key(v as int));
                return false;
            }
            v = v + 1;
        }
        true
    }

    /// Whether the pages from `start` up to `end` are all mapped.
    pub fn all_mapped(&self, start: VirtPageNum, end: VirtPageNum) -> (yes: bool)
        requires
            self.wf(),
        ensures
            yes == self@.all_mapped(start.0 as int, end.0 as int),
    {
        let mut v: usize = start.0;
        while v < end.0
            invariant
                start.0 <= v,
                self.wf(),
                self@.all_mapped(start.0 as int, v as int),
            decreases end.0 - v,
        {
            if self.translate(VirtPageNum(v)).is_none() {
                assert(!self@.pages.contains_key(v as int));
                return false;
            }
            v = v + 1;
        }
        true
    }

    /// Whether a string stands at address `addr`.
    pub fn has_string(&self, addr: usize) -> (yes: bool)
        requires
            self.wf(),
        ensures
            yes == self@.has_cstring(addr as int),
    {
        let mut va: usize = addr;
        loop
            invariant
                self.wf(),
                addr <= va,
                self@.mapped(addr as int, va - addr),
                forall|a: int| addr <= a < va ==> #[trigger] self@.byte(a) != 0,
            decreases usize::MAX - va,
        {
            let p: usize = self.index_of(VirtAddr(va).floor());
            if p >= self.pages.len() {
                proof {
                    if self@.has_cstring(addr as int) {
                        let n = choose|n: int| self@.has_string(addr as int, n);
                        if addr + n < va {
                            assert(self@.byte(addr + n) != 0);
                        } else {
                            assert(self@.pages.contains_key(page_floor(va as int)));
                        }
                    }
                }
                return false;
            }
            proof {
                self.lemma_page(p as int);
            }
            let ch: u8 = self.pages[p].bytes[va % PAGE_SIZE];
            assert(ch == self@.byte(va as int));
            assert(self@.mapped(addr as int, va - addr + 1));
            if ch == 0 {
                assert(self@.has_string(addr as int, va - addr));
                return true;
            }
            if va == usize::MAX {
                proof {
                    if self@.has_cstring(addr as int) {
                        let n = choose|n: int| self@.has_string(addr as int, n);
                        assert(self@.byte(addr + n) != 0);
                    }
                }
                return false;
            }
            va = va + 1;
        }
    }

    /// Whether an area that starts with the page of `start` can be extended to `new_end`, or
    /// there is no such area.
    pub fn can_append_to(&self, start: VirtAddr, new_end: VirtAddr) -> (yes: bool)
        requires
            self.wf(),
        ensures
            yes == (self@.area_at(page_floor(start.0 as int)) < self@.areas.len()
                ==> self@.can_append(
                self@.area_at(page_floor(start.0 as int)),
                page_ceil(new_end.0 as int),
            )),
    {
        let k: usize = self.area_index(start.floor());
        if k >= self.areas.len() {
            return true;
        }
        let area = self.areas[k];
        let end = new_end.ceil();
        area.end.0 <= end.0 && self.none_mapped(area.end, end)
    }

    /// Whether an area that starts with the page of `start` can be cut off at `new_end`, or
    /// there is no such area.
    pub fn can_shrink_to(&self, start: VirtAddr, new_end: VirtAddr) -> (yes: bool)
        requires
            self.wf(),
        ensures
            yes == (self@.area_at(page_floor(start.0 as int)) < self@.areas.len()
                ==> self@.can_shrink(
                self@.area_at(page_floor(start.0 as int)),
                page_ceil(new_end.0 as int),
            )),
    {
        let k: usize = self.area_index(start.floor());
        if k >= self.areas.len() {
            return true;
        }
        let area = self.areas[k];
        let end = new_end.ceil();
        area.start.0 <= end.0 && end.0 <= area.end.0 && self.all_mapped(end, area.end)
    }
}

} // verus!
