//! The heap: a list of arenas and, for each size class, the spans that serve
//! it. An allocation takes a slot from a span of its class that has one; if
//! none has, a new span is reserved from the first arena with room, and a new
//! arena is opened when no arena has room.

use vstd::prelude::*;
use super::arena::{Arena, ArenaView, valid_arena_base, ARENA_COUNT};
use super::bitmap::{is_first_fit, mark, run_free};
use super::sizes::{
    class_size, get_alloc_pages, get_obj_size, get_size_class, is_size_class,
    lemma_class_pages, lemma_class_sizes, ARENA_SIZE, CLASS_TO_ALLOC_PAGES,
    MAX_SMALL_OBJ_SIZE, NUM_SIZE_CLASSES, PAGE_SIZE,
};
use super::span::{lemma_span_alloc, Span, SpanView};
use crate::values::ADDRESS_LIMIT;

verus! {

/// The most arenas a heap can hold: the arena after the last would reach
/// past the addresses that fit in a pointer word.
pub const MAX_ARENAS: usize = 0x3F_FFFE;

/// The spans of one size class: those with a free slot, and the full ones.
pub struct SpanSet {
    pages: usize,
    obj_size: usize,
    partial: Vec<Span>,
    full: Vec<Span>,
}

/// The spans of one size class as sequences of span views.
pub ghost struct SpanSetView {
    pub pages: nat,
    pub obj_size: nat,
    pub partial: Seq<SpanView>,
    pub full: Seq<SpanView>,
}

/// Base address and number of pages of each of `spans`.
pub open spec fn extents(spans: Seq<SpanView>) -> Seq<(u64, usize)> {
    Seq::new(spans.len(), |i: int| (spans[i].base, spans[i].pages as usize))
}

/// The views of a run of spans.
pub open spec fn span_views(spans: Seq<Span>) -> Seq<SpanView> {
    Seq::new(spans.len(), |i: int| spans[i]@)
}

/// The pages of span `s` if it lies in the arena that begins at `base`.
pub open spec fn span_pages_in(s: SpanView, base: u64) -> int {
    if base <= s.base < base + ARENA_SIZE {
        s.pages as int
    } else {
        0
    }
}

/// The pages of those of `spans` that lie in the arena that begins at `base`.
pub open spec fn seq_pages_in(spans: Seq<SpanView>, base: u64) -> int
    decreases spans.len(),
{
    if spans.len() == 0 {
        0
    } else {
        seq_pages_in(spans.drop_last(), base) + span_pages_in(spans.last(), base)
    }
}

impl SpanSetView {
    /// The invariant of a span set: its spans are of its class, and each is
    /// on the right list.
    pub open spec fn wf(self) -> bool {
        &&& forall|i: int|
            0 <= i < self.partial.len() ==> {
                &&& (#[trigger] self.partial[i]).wf()
                &&& !self.partial[i].is_full()
                &&& self.partial[i].pages == self.pages
                &&& self.partial[i].obj_size == self.obj_size
            }
        &&& forall|i: int|
            0 <= i < self.full.len() ==> {
                &&& (#[trigger] self.full[i]).wf()
                &&& self.full[i].is_full()
                &&& self.full[i].pages == self.pages
                &&& self.full[i].obj_size == self.obj_size
            }
    }

    /// The set after an allocation from its last span with room.
    pub open spec fn after_alloc(self) -> SpanSetView {
        if self.partial.len() == 0 {
            self
        } else {
            let s = self.partial.last().after_alloc();
            if s.is_full() {
                SpanSetView { partial: self.partial.drop_last(), full: self.full.push(s), ..self }
            } else {
                SpanSetView { partial: self.partial.drop_last().push(s), ..self }
            }
        }
    }

    /// The address that an allocation from the set returns.
    pub open spec fn alloc_addr(self) -> Option<u64> {
        if self.partial.len() == 0 {
            None
        } else {
            self.partial.last().alloc_addr()
        }
    }

    /// The set with one more span that has room.
    pub open spec fn with_span(self, s: SpanView) -> SpanSetView {
        SpanSetView { partial: self.partial.push(s), ..self }
    }

    /// The pages of the spans of the set that lie in the arena at `base`.
    pub open spec fn pages_in(self, base: u64) -> int {
        seq_pages_in(self.partial, base) + seq_pages_in(self.full, base)
    }

    /// Every span of the set lies between `low` and `high`.
    pub open spec fn within(self, low: int, high: int) -> bool {
        &&& forall|i: int|
            0 <= i < self.partial.len() ==> low <= (#[trigger] self.partial[i]).base
                && self.partial[i].base + self.partial[i].pages * PAGE_SIZE <= high
        &&& forall|i: int|
            0 <= i < self.full.len() ==> low <= (#[trigger] self.full[i]).base
                && self.full[i].base + self.full[i].pages * PAGE_SIZE <= high
    }
}

/// Adding a span at the end adds its pages.
pub proof fn lemma_seq_pages_push(spans: Seq<SpanView>, s: SpanView, base: u64)
    ensures
        seq_pages_in(spans.push(s), base) == seq_pages_in(spans, base) + span_pages_in(s, base),
{
    assert(spans.push(s).drop_last() =~= spans);
}

/// Spans that all end before an arena begins have no pages in it.
pub proof fn lemma_seq_pages_outside(spans: Seq<SpanView>, base: u64)
    requires
        forall|i: int|
            0 <= i < spans.len() ==> (#[trigger] spans[i]).base + spans[i].pages * PAGE_SIZE
                <= base,
    ensures
        seq_pages_in(spans, base) == 0,
    decreases spans.len(),
{
    if spans.len() > 0 {
        assert forall|i: int| 0 <= i < spans.drop_last().len() implies (
        #[trigger] spans.drop_last()[i]).base + spans.drop_last()[i].pages * PAGE_SIZE
            <= base by {
            assert(spans.drop_last()[i] == spans[i]);
        }
        lemma_seq_pages_outside(spans.drop_last(), base);
        let last = spans.last();
        assert(last.base + last.pages * PAGE_SIZE <= base);
    }
}

/// An allocation keeps a span set well formed, and leaves every span where
/// it was.
pub proof fn lemma_set_alloc(set: SpanSetView, base: u64, low: int, high: int)
    requires
        set.wf(),
        set.partial.len() > 0,
    ensures
        set.after_alloc().wf(),
        set.after_alloc().pages_in(base) == set.pages_in(base),
        set.within(low, high) ==> set.after_alloc().within(low, high),
        set.alloc_addr() is Some,
{
    let last = set.partial.last();
    let s = last.after_alloc();
    let after = set.after_alloc();
    assert(last.wf() && !last.is_full());
    lemma_span_alloc(last);
    assert(set.partial =~= set.partial.drop_last().push(last));
    lemma_seq_pages_push(set.partial.drop_last(), last, base);
    if s.is_full() {
        lemma_seq_pages_push(set.full, s, base);
        assert forall|i: int| 0 <= i < after.partial.len() implies {
            &&& (#[trigger] after.partial[i]).wf()
            &&& !after.partial[i].is_full()
            &&& after.partial[i].pages == after.pages
            &&& after.partial[i].obj_size == after.obj_size
        } by {
            assert(after.partial[i] == set.partial[i]);
        }
        assert forall|i: int| 0 <= i < after.full.len() implies {
            &&& (#[trigger] after.full[i]).wf()
            &&& after.full[i].is_full()
            &&& after.full[i].pages == after.pages
            &&& after.full[i].obj_size == after.obj_size
        } by {
            if i < set.full.len() {
                assert(after.full[i] == set.full[i]);
            }
        }
        if set.within(low, high) {
            assert forall|i: int| 0 <= i < after.partial.len() implies low <= (
            #[trigger] after.partial[i]).base && after.partial[i].base + after.partial[i].pages
                * PAGE_SIZE <= high by {
                assert(after.partial[i] == set.partial[i]);
            }
            assert forall|i: int| 0 <= i < after.full.len() implies low <= (
            #[trigger] after.full[i]).base && after.full[i].base + after.full[i].pages
                * PAGE_SIZE <= high by {
                if i < set.full.len() {
                    assert(after.full[i] == set.full[i]);
                }
            }
        }
    } else {
        lemma_seq_pages_push(set.partial.drop_last(), s, base);
        assert forall|i: int| 0 <= i < after.partial.len() implies {
            &&& (#[trigger] after.partial[i]).wf()
            &&& !after.partial[i].is_full()
            &&& after.partial[i].pages == after.pages
            &&& after.partial[i].obj_size == after.obj_size
        } by {
            if i < set.partial.len() - 1 {
                assert(after.partial[i] == set.partial[i]);
            }
        }
        if set.within(low, high) {
            assert forall|i: int| 0 <= i < after.partial.len() implies low <= (
            #[trigger] after.partial[i]).base && after.partial[i].base + after.partial[i].pages
                * PAGE_SIZE <= high by {
                if i < set.partial.len() - 1 {
                    assert(after.partial[i] == set.partial[i]);
                }
            }
        }
    }
}

impl View for SpanSet {
    type V = SpanSetView;

    closed spec fn view(&self) -> SpanSetView {
        SpanSetView {
            pages: self.pages as nat,
            obj_size: self.obj_size as nat,
            partial: span_views(self.partial@),
            full: span_views(self.full@),
        }
    }
}

impl SpanSet {
    pub open spec fn wf(&self) -> bool {
        self@.wf()
    }

    /// The empty span set of class `class`.
    pub fn new(class: usize, obj_size: usize) -> (set: SpanSet)
        requires
            class < NUM_SIZE_CLASSES,
        ensures
            set.wf(),
            set@.pages == CLASS_TO_ALLOC_PAGES[class as int],
            set@.obj_size == obj_size,
            set@.partial.len() == 0,
            set@.full.len() == 0,
    {
        let pages = get_alloc_pages(class);
        SpanSet { pages, obj_size, partial: Vec::new(), full: Vec::new() }
    }

    /// Whether no span of the set has a free slot.
    pub fn is_full(&self) -> (b: bool)
        ensures
            b == (self@.partial.len() == 0),
    {
        self.partial.len() == 0
    }

    /// Adds a span with room to the set.
    pub fn add_span(&mut self, span: Span)
        requires
            old(self).wf(),
            span.wf(),
            !span@.is_full(),
            span@.pages == old(self)@.pages,
            span@.obj_size == old(self)@.obj_size,
        ensures
            final(self).wf(),
            final(self)@ == old(self)@.with_span(span@),
    {
        let ghost before = self@;
        self.partial.push(span);
        proof {
            assert(self@.partial =~= before.partial.push(span@));
            assert(self@.full =~= before.full);
            assert forall|i: int| 0 <= i < self@.partial.len() implies {
                &&& (#[trigger] self@.partial[i]).wf()
                &&& !self@.partial[i].is_full()
                &&& self@.partial[i].pages == self@.pages
                &&& self@.partial[i].obj_size == self@.obj_size
            } by {
                if i < before.partial.len() {
                    assert(self@.partial[i] == before.partial[i]);
                }
            }
        }
    }

    /// Takes a slot from the last span with room, and moves that span to the
    /// full ones if it was its last slot. None only if no span has room.
    pub fn allocate(&mut self) -> (r: Option<u64>)
        requires
            old(self).wf(),
        ensures
            final(self).wf(),
            final(self)@ == old(self)@.after_alloc(),
            r == old(self)@.alloc_addr(),
    {
        if self.partial.len() == 0 {
            return None;
        }
        let ghost before = self@;
        proof {
            lemma_set_alloc(before, 0, 0, 0);
        }
        let n = self.partial.len();
        assert(before.partial[n - 1].wf());
        let val = self.partial[n - 1].allocate();
        if self.partial[n - 1].is_full() {
            let span = self.partial.pop().unwrap();
            self.full.push(span);
            proof {
                assert(self@.partial =~= before.partial.drop_last());
                assert(self@.full =~= before.full.push(before.partial.last().after_alloc()));
            }
        } else {
            proof {
                assert(self@.partial =~= before.partial.drop_last().push(
                    before.partial.last().after_alloc(),
                ));
                assert(self@.full =~= before.full);
            }
        }
        val
    }
}

/// The arenas and span sets of a heap.
pub struct HeapInner {
    page_arenas: Vec<Arena>,
    span_sets: Vec<SpanSet>,
}

/// A heap as sequences of arena views and span-set views.
pub ghost struct HeapView {
    pub arenas: Seq<ArenaView>,
    pub sets: Seq<SpanSetView>,
}

/// The address at which arena `k` begins. Arena 0 begins one arena's length
/// above zero, so that no object lies at the addresses of `nil` and `t`.
pub open spec fn arena_base(k: int) -> int {
    (k + 1) * ARENA_SIZE
}

/// The views of a run of arenas.
pub open spec fn arena_views(arenas: Seq<Arena>) -> Seq<ArenaView> {
    Seq::new(arenas.len(), |i: int| arenas[i]@)
}

/// The views of a run of span sets.
pub open spec fn set_views(sets: Seq<SpanSet>) -> Seq<SpanSetView> {
    Seq::new(sets.len(), |i: int| sets[i]@)
}

/// The pages of all spans that lie in the arena that begins at `base`.
pub open spec fn sets_pages_in(sets: Seq<SpanSetView>, base: u64) -> int
    decreases sets.len(),
{
    if sets.len() == 0 {
        0
    } else {
        sets_pages_in(sets.drop_last(), base) + sets.last().pages_in(base)
    }
}

/// The first arena from `i` on that has a run of `n` free pages, or the
/// number of arenas if none has.
pub open spec fn first_room_from(arenas: Seq<ArenaView>, n: int, i: int) -> int
    decreases arenas.len() - i,
{
    if i >= arenas.len() {
        arenas.len() as int
    } else if arenas[i].has_room(n) {
        i
    } else {
        first_room_from(arenas, n, i + 1)
    }
}

/// An arena at `base` with every page free.
pub open spec fn fresh_arena(base: u64) -> ArenaView {
    ArenaView { base, count: 0, used: Seq::new(ARENA_COUNT as nat, |j: int| false) }
}

/// The arena with the pages `fit..fit + pages` taken.
pub open spec fn taken(arena: ArenaView, fit: int, pages: int) -> ArenaView {
    ArenaView {
        base: arena.base,
        count: (arena.count + pages) as nat,
        used: mark(arena.used, fit, pages, true),
    }
}

/// A span of class `c` at `base` with every slot free.
pub open spec fn fresh_span(base: u64, c: int) -> SpanView {
    SpanView {
        base,
        pages: CLASS_TO_ALLOC_PAGES[c] as nat,
        obj_size: class_size(c) as nat,
        capacity: ((CLASS_TO_ALLOC_PAGES[c] * PAGE_SIZE) / class_size(c)) as nat,
        count: 0,
        used: Seq::new(512, |j: int| false),
    }
}

impl HeapView {
    /// The invariant of a heap: the pages taken in an arena are as many as
    /// the pages of the spans that lie in it, the pages of every span are
    /// taken, and no two spans share a byte.
    pub open spec fn wf(self) -> bool {
        &&& self.sets.len() == NUM_SIZE_CLASSES
        &&& forall|c: int|
            0 <= c < NUM_SIZE_CLASSES ==> {
                &&& (#[trigger] self.sets[c]).wf()
                &&& self.sets[c].pages == CLASS_TO_ALLOC_PAGES[c]
                &&& self.sets[c].obj_size == class_size(c)
                &&& self.sets[c].within(ARENA_SIZE as int, arena_base(self.arenas.len() as int))
            }
        &&& 1 <= self.arenas.len() <= MAX_ARENAS
        &&& forall|a: int|
            0 <= a < self.arenas.len() ==> {
                &&& (#[trigger] self.arenas[a]).wf()
                &&& self.arenas[a].base == arena_base(a)
                &&& self.arenas[a].count == sets_pages_in(self.sets, self.arenas[a].base)
            }
        &&& self.spans_apart()
        &&& self.spans_marked()
    }

    /// What an allocation from class `c` does to the heap and returns.
    pub open spec fn alloc_in_class(self, c: int, after: HeapView, r: Option<u64>) -> bool {
        if self.sets[c].partial.len() > 0 {
            &&& after.arenas == self.arenas
            &&& after.sets == self.sets.update(c, self.sets[c].after_alloc())
            &&& r == self.sets[c].alloc_addr()
        } else {
            let pages = CLASS_TO_ALLOC_PAGES[c] as int;
            let a = first_room_from(self.arenas, pages, 0);
            if a >= self.arenas.len() && self.arenas.len() >= MAX_ARENAS {
                r is None && after == self
            } else {
                &&& r is Some
                &&& {
                    let addr = r->0;
                    let fit = (addr - arena_base(a)) / (PAGE_SIZE as int);
                    &&& addr == arena_base(a) + fit * PAGE_SIZE
                    &&& after.sets == self.sets.update(
                        c,
                        self.sets[c].with_span(fresh_span(addr, c)).after_alloc(),
                    )
                    &&& if a < self.arenas.len() {
                        &&& is_first_fit(self.arenas[a].used, pages, fit)
                        &&& after.arenas == self.arenas.update(
                            a,
                            taken(self.arenas[a], fit, pages),
                        )
                    } else {
                        &&& fit == 0
                        &&& after.arenas == self.arenas.push(
                            taken(fresh_arena(arena_base(a) as u64), 0, pages),
                        )
                    }
                }
            }
        }
    }

    /// What an allocation of `size` bytes does to the heap and returns.
    pub open spec fn alloc_effect(self, size: int, after: HeapView, r: Option<u64>) -> bool {
        if size <= 0 || size > MAX_SMALL_OBJ_SIZE {
            r is None && after == self
        } else {
            forall|c: int| is_size_class(size, c) ==> self.alloc_in_class(c, after, r)
        }
    }
}

/// There is one first fit.
pub proof fn lemma_first_fit_unique(used: Seq<bool>, n: int, s1: int, s2: int)
    requires
        is_first_fit(used, n, s1),
        is_first_fit(used, n, s2),
    ensures
        s1 == s2,
{
    if s1 < s2 {
        assert(!run_free(used, s1, n));
    } else if s2 < s1 {
        assert(!run_free(used, s2, n));
    }
}

/// An allocation has one outcome.
pub proof fn lemma_alloc_unique(
    heap: HeapView,
    size: int,
    a1: HeapView,
    r1: Option<u64>,
    a2: HeapView,
    r2: Option<u64>,
)
    requires
        heap.wf(),
        heap.alloc_effect(size, a1, r1),
        heap.alloc_effect(size, a2, r2),
    ensures
        a1 == a2,
        r1 == r2,
{
    if 0 < size <= MAX_SMALL_OBJ_SIZE {
        let b = super::sizes::bucket_of(size);
        assert(0 <= b < super::sizes::TOTAL_BUCKETS);
        super::sizes::lemma_bucket_class(b);
        let c = super::sizes::SIZE_TO_CLASS[b] as int;
        if c > 0 {
            lemma_class_sizes(c - 1);
        }
        lemma_class_sizes(c);
        assert(is_size_class(size, c));
        assert(heap.alloc_in_class(c, a1, r1));
        assert(heap.alloc_in_class(c, a2, r2));
        if heap.sets[c].partial.len() == 0 {
            let pages = CLASS_TO_ALLOC_PAGES[c] as int;
            let a = first_room_from(heap.arenas, pages, 0);
            if !(a >= heap.arenas.len() && heap.arenas.len() >= MAX_ARENAS) {
                let f1 = (r1->0 - arena_base(a)) / (PAGE_SIZE as int);
                let f2 = (r2->0 - arena_base(a)) / (PAGE_SIZE as int);
                if a < heap.arenas.len() {
                    lemma_first_fit_unique(heap.arenas[a].used, pages, f1, f2);
                }
                assert(r1->0 == r2->0);
            }
        }
    }
}

/// An allocation that returns nothing changes nothing.
pub proof fn lemma_alloc_none(heap: HeapView, size: int, after: HeapView)
    requires
        heap.wf(),
        heap.alloc_effect(size, after, None),
    ensures
        after == heap,
{
    if 0 < size <= MAX_SMALL_OBJ_SIZE {
        let b = super::sizes::bucket_of(size);
        assert(0 <= b < super::sizes::TOTAL_BUCKETS);
        super::sizes::lemma_bucket_class(b);
        let c = super::sizes::SIZE_TO_CLASS[b] as int;
        if c > 0 {
            lemma_class_sizes(c - 1);
        }
        lemma_class_sizes(c);
        assert(is_size_class(size, c));
        assert(heap.alloc_in_class(c, after, None));
        if heap.sets[c].partial.len() > 0 {
            assert(heap.sets[c].wf());
            lemma_set_alloc(heap.sets[c], 0, 0, 0);
        }
    }
}

/// The heap after an allocation of `size` bytes, and what the allocation
/// returns.
pub open spec fn alloc_fn(heap: HeapView, size: int) -> (HeapView, Option<u64>) {
    choose|p: (HeapView, Option<u64>)| heap.alloc_effect(size, p.0, p.1)
}

/// What an allocation did is what `alloc_fn` says.
pub proof fn lemma_alloc_fn(heap: HeapView, size: int, after: HeapView, r: Option<u64>)
    requires
        heap.wf(),
        heap.alloc_effect(size, after, r),
    ensures
        alloc_fn(heap, size) == (after, r),
{
    let p = (after, r);
    assert(heap.alloc_effect(size, p.0, p.1));
    let q = alloc_fn(heap, size);
    lemma_alloc_unique(heap, size, after, r, q.0, q.1);
}

/// Where a span lies in a heap: its size class, its list, and its place in
/// the list.
pub ghost struct SpanPos {
    pub class: int,
    pub full: bool,
    pub index: int,
}

/// Two spans share no byte.
pub open spec fn apart(a: SpanView, b: SpanView) -> bool {
    a.base + a.pages * PAGE_SIZE <= b.base || b.base + b.pages * PAGE_SIZE <= a.base
}

/// Slot `i` of span `s` is taken and lies at `addr`.
pub open spec fn holds(s: SpanView, i: int, addr: int) -> bool {
    0 <= i < s.capacity && s.used[i] && addr == s.base + i * s.obj_size
}

/// Span `s` lies in `arena`, on a page boundary, and all its pages are taken
/// there.
pub open spec fn page_run_set(arena: ArenaView, s: SpanView) -> bool {
    &&& arena.base <= s.base
    &&& s.base + s.pages * PAGE_SIZE <= arena.base + ARENA_SIZE
    &&& (s.base - arena.base) % (PAGE_SIZE as int) == 0
    &&& forall|j: int|
        (s.base - arena.base) / (PAGE_SIZE as int) <= j < (s.base - arena.base) / (
        PAGE_SIZE as int) + s.pages ==> #[trigger] arena.used[j]
}

/// The pages of span `s` are taken in one of the arenas.
pub open spec fn marked(arenas: Seq<ArenaView>, s: SpanView) -> bool {
    exists|a: int| 0 <= a < arenas.len() && #[trigger] page_run_set(arenas[a], s)
}

impl HeapView {
    /// Whether a span lies at `p`.
    pub open spec fn has(self, p: SpanPos) -> bool {
        &&& 0 <= p.class < self.sets.len()
        &&& 0 <= p.index
        &&& p.index < (if p.full {
            self.sets[p.class].full.len()
        } else {
            self.sets[p.class].partial.len()
        })
    }

    /// The span at `p`.
    pub open spec fn span(self, p: SpanPos) -> SpanView {
        if p.full {
            self.sets[p.class].full[p.index]
        } else {
            self.sets[p.class].partial[p.index]
        }
    }

    /// No two spans share a byte.
    pub open spec fn spans_apart(self) -> bool {
        forall|p: SpanPos, q: SpanPos|
            self.has(p) && self.has(q) && p != q ==> apart(
                #[trigger] self.span(p),
                #[trigger] self.span(q),
            )
    }

    /// The pages of every span are taken in an arena.
    pub open spec fn spans_marked(self) -> bool {
        forall|p: SpanPos| self.has(p) ==> marked(self.arenas, #[trigger] self.span(p))
    }

    /// Whether `addr` is the address of a slot that is taken.
    pub open spec fn live(self, addr: int) -> bool {
        exists|p: SpanPos, i: int| self.has(p) && #[trigger] holds(self.span(p), i, addr)
    }
}

/// Where the span at `p` lay before an allocation from class `c` moved the
/// last span with room of that class to the full ones.
pub open spec fn before_move(set: SpanSetView, c: int, p: SpanPos) -> SpanPos {
    if p.class == c && p.full && p.index == set.full.len() {
        SpanPos { class: c, full: false, index: set.partial.len() - 1 }
    } else {
        p
    }
}

/// The span at a place after an allocation is, but for the slot taken, the
/// span that lay at the place before.
pub proof fn lemma_span_after_alloc(h: HeapView, c: int, p: SpanPos)
    requires
        0 <= c < h.sets.len(),
        h.sets[c].partial.len() > 0,
        (HeapView { arenas: h.arenas, sets: h.sets.update(c, h.sets[c].after_alloc()) }).has(p),
    ensures
        h.has(before_move(h.sets[c], c, p)),
        ({
            let after = HeapView {
                arenas: h.arenas,
                sets: h.sets.update(c, h.sets[c].after_alloc()),
            };
            let q = before_move(h.sets[c], c, p);
            let last = SpanPos { class: c, full: false, index: h.sets[c].partial.len() - 1 };
            if q == last {
                after.span(p) == h.span(q).after_alloc()
            } else {
                after.span(p) == h.span(q)
            }
        }),
{
    let set = h.sets[c];
    let s = set.partial.last().after_alloc();
    if p.class == c {
        if s.is_full() {
            if p.full {
                if p.index < set.full.len() {
                    assert(set.full.push(s)[p.index] == set.full[p.index]);
                }
            } else {
                assert(set.partial.drop_last()[p.index] == set.partial[p.index]);
            }
        } else {
            if !p.full {
                if p.index < set.partial.len() - 1 {
                    assert(set.partial.drop_last().push(s)[p.index] == set.partial[p.index]);
                }
            }
        }
    }
}

/// Every span that lay in the heap before an allocation lies in it after,
/// with at least the slots taken that were taken.
pub proof fn lemma_span_before_alloc(h: HeapView, c: int, q: SpanPos) -> (p: SpanPos)
    requires
        0 <= c < h.sets.len(),
        h.sets[c].partial.len() > 0,
        h.has(q),
    ensures
        (HeapView { arenas: h.arenas, sets: h.sets.update(c, h.sets[c].after_alloc()) }).has(p),
        before_move(h.sets[c], c, p) == q,
{
    let set = h.sets[c];
    let s = set.partial.last().after_alloc();
    let last = SpanPos { class: c, full: false, index: set.partial.len() - 1 };
    if q == last && s.is_full() {
        SpanPos { class: c, full: true, index: set.full.len() as int }
    } else {
        q
    }
}

/// An allocation from a span does not move the span.
pub proof fn lemma_after_alloc_sound(h: HeapView, c: int)
    requires
        0 <= c < h.sets.len(),
        h.sets[c].partial.len() > 0,
        h.spans_apart(),
        h.spans_marked(),
    ensures
        (HeapView {
            arenas: h.arenas,
            sets: h.sets.update(c, h.sets[c].after_alloc()),
        }).spans_apart(),
        (HeapView {
            arenas: h.arenas,
            sets: h.sets.update(c, h.sets[c].after_alloc()),
        }).spans_marked(),
{
    let after = HeapView { arenas: h.arenas, sets: h.sets.update(c, h.sets[c].after_alloc()) };
    assert forall|p: SpanPos, q: SpanPos| after.has(p) && after.has(q) && p != q implies apart(
        #[trigger] after.span(p),
        #[trigger] after.span(q),
    ) by {
        lemma_span_after_alloc(h, c, p);
        lemma_span_after_alloc(h, c, q);
        let was_p = before_move(h.sets[c], c, p);
        let was_q = before_move(h.sets[c], c, q);
        lemma_moved_apart(h, c, p, q);
        assert(apart(h.span(was_p), h.span(was_q)));
    }
    assert forall|p: SpanPos| after.has(p) implies marked(after.arenas, #[trigger] after.span(p)) by {
        lemma_span_after_alloc(h, c, p);
        let was_p = before_move(h.sets[c], c, p);
        assert(marked(h.arenas, h.span(was_p)));
        let a = choose|a: int| 0 <= a < h.arenas.len() && #[trigger] page_run_set(
            h.arenas[a],
            h.span(was_p),
        );
        assert(page_run_set(after.arenas[a], after.span(p)));
    }
}

/// Two places that hold spans after an allocation held spans at two places
/// before.
pub proof fn lemma_moved_apart(h: HeapView, c: int, p: SpanPos, q: SpanPos)
    requires
        0 <= c < h.sets.len(),
        h.sets[c].partial.len() > 0,
        (HeapView { arenas: h.arenas, sets: h.sets.update(c, h.sets[c].after_alloc()) }).has(p),
        (HeapView { arenas: h.arenas, sets: h.sets.update(c, h.sets[c].after_alloc()) }).has(q),
        p != q,
    ensures
        before_move(h.sets[c], c, p) != before_move(h.sets[c], c, q),
{
    let set = h.sets[c];
    let s = set.partial.last().after_alloc();
    let last = SpanPos { class: c, full: false, index: set.partial.len() - 1 };
    let after = HeapView { arenas: h.arenas, sets: h.sets.update(c, h.sets[c].after_alloc()) };
    if before_move(set, c, p) == before_move(set, c, q) {
        if p.class == c && p.full && p.index == set.full.len() {
            assert(q == last);
            assert(s.is_full());
            assert(after.sets[c].partial.len() == set.partial.len() - 1);
        } else {
            assert(p == last);
            assert(s.is_full());
            assert(after.sets[c].partial.len() == set.partial.len() - 1);
        }
    }
}

/// A span whose pages were free when it was reserved shares no byte with
/// the spans that were there, and its pages are now taken.
pub proof fn lemma_with_span_sound(
    h: HeapView,
    arenas: Seq<ArenaView>,
    c: int,
    ns: SpanView,
    a: int,
    fit: int,
)
    requires
        h.wf(),
        1 <= c < NUM_SIZE_CLASSES,
        ns == fresh_span(ns.base, c),
        ns.base == arena_base(a) + fit * PAGE_SIZE,
        0 <= fit,
        fit + CLASS_TO_ALLOC_PAGES[c] <= ARENA_COUNT,
        0 <= a <= h.arenas.len(),
        a < h.arenas.len() ==> is_first_fit(
            h.arenas[a].used,
            CLASS_TO_ALLOC_PAGES[c] as int,
            fit,
        ) && arenas == h.arenas.update(
            a,
            taken(h.arenas[a], fit, CLASS_TO_ALLOC_PAGES[c] as int),
        ),
        a == h.arenas.len() ==> fit == 0 && arenas == h.arenas.push(
            taken(fresh_arena(arena_base(a) as u64), 0, CLASS_TO_ALLOC_PAGES[c] as int),
        ) && a < MAX_ARENAS,
    ensures
        (HeapView { arenas, sets: h.sets.update(c, h.sets[c].with_span(ns)) }).spans_apart(),
        (HeapView { arenas, sets: h.sets.update(c, h.sets[c].with_span(ns)) }).spans_marked(),
{
    let pages = CLASS_TO_ALLOC_PAGES[c] as int;
    lemma_class_pages(c);
    let mid = HeapView { arenas, sets: h.sets.update(c, h.sets[c].with_span(ns)) };
    let fresh = SpanPos { class: c, full: false, index: h.sets[c].partial.len() as int };
    assert(ns.pages == pages);
    assert((ns.base - arena_base(a)) / (PAGE_SIZE as int) == fit && (ns.base - arena_base(a)) % (
    PAGE_SIZE as int) == 0 && (fit + pages) * PAGE_SIZE <= ARENA_SIZE) by (nonlinear_arith)
        requires
            ns.base - arena_base(a) == fit * PAGE_SIZE,
            PAGE_SIZE == 8192,
            ARENA_SIZE == 8192 * 8192,
            fit + pages <= 8192,
            fit >= 0,
            pages >= 0,
    ;
    assert((fit + pages) * PAGE_SIZE == fit * PAGE_SIZE + pages * PAGE_SIZE) by (nonlinear_arith);
    assert(arenas[a].base == arena_base(a));
    assert(page_run_set(arenas[a], ns));
    assert forall|p: SpanPos| mid.has(p) && p != fresh implies h.has(p) && mid.span(p) == h.span(
        p,
    ) by {
        if p.class == c && !p.full {
            assert(h.sets[c].partial.push(ns)[p.index] == h.sets[c].partial[p.index]);
        }
    }
    assert(mid.has(fresh) && mid.span(fresh) == ns);
    assert forall|p: SpanPos| mid.has(p) implies marked(mid.arenas, #[trigger] mid.span(p)) by {
        if p != fresh {
            let sp = h.span(p);
            assert(marked(h.arenas, sp));
            let b = choose|b: int| 0 <= b < h.arenas.len() && #[trigger] page_run_set(
                h.arenas[b],
                sp,
            );
            assert(page_run_set(arenas[b], sp));
        }
    }
    assert forall|p: SpanPos, q: SpanPos| mid.has(p) && mid.has(q) && p != q implies apart(
        #[trigger] mid.span(p),
        #[trigger] mid.span(q),
    ) by {
        if p != fresh && q != fresh {
            assert(apart(h.span(p), h.span(q)));
        } else {
            let old = if p == fresh {
                q
            } else {
                p
            };
            let so = h.span(old);
            assert(h.sets[old.class].wf());
            assert(so.wf());
            lemma_fresh_apart(h, c, ns, a, fit, so);
        }
    }
}

/// A span on pages that were free shares no byte with a span whose pages
/// were taken.
pub proof fn lemma_fresh_apart(h: HeapView, c: int, ns: SpanView, a: int, fit: int, so: SpanView)
    requires
        h.wf(),
        1 <= c < NUM_SIZE_CLASSES,
        ns.pages == CLASS_TO_ALLOC_PAGES[c],
        ns.base == arena_base(a) + fit * PAGE_SIZE,
        0 <= fit,
        fit + ns.pages <= ARENA_COUNT,
        0 <= a <= h.arenas.len(),
        a < h.arenas.len() ==> run_free(h.arenas[a].used, fit, ns.pages as int),
        marked(h.arenas, so),
        so.pages >= 1,
        so.base + so.pages * PAGE_SIZE <= arena_base(h.arenas.len() as int),
    ensures
        apart(ns, so),
        apart(so, ns),
{
    lemma_class_pages(c);
    let b = choose|b: int| 0 <= b < h.arenas.len() && #[trigger] page_run_set(h.arenas[b], so);
    assert(h.arenas[b].base == arena_base(b));
    let pq = (so.base - arena_base(b)) / (PAGE_SIZE as int);
    assert(so.base == arena_base(b) + pq * PAGE_SIZE) by (nonlinear_arith)
        requires
            (so.base - arena_base(b)) % (PAGE_SIZE as int) == 0,
            pq == (so.base - arena_base(b)) / (PAGE_SIZE as int),
            PAGE_SIZE == 8192,
    ;
    assert((fit + ns.pages) * PAGE_SIZE <= ARENA_SIZE && (fit + ns.pages) * PAGE_SIZE == fit
        * PAGE_SIZE + ns.pages * PAGE_SIZE) by (nonlinear_arith)
        requires
            PAGE_SIZE == 8192,
            ARENA_SIZE == 8192 * 8192,
            fit + ns.pages <= 8192,
    ;
    if a == b {
        if !(fit + ns.pages <= pq || pq + so.pages <= fit) {
            let j = if fit >= pq {
                fit
            } else {
                pq
            };
            assert(h.arenas[b].used[j]);
            assert(!h.arenas[a].used[j]);
        }
        assert(apart(ns, so)) by (nonlinear_arith)
            requires
                fit + ns.pages <= pq || pq + so.pages <= fit,
                ns.base == arena_base(a) + fit * PAGE_SIZE,
                so.base == arena_base(a) + pq * PAGE_SIZE,
                PAGE_SIZE == 8192,
        ;
    } else if a < b {
        assert(arena_base(a) + ARENA_SIZE <= arena_base(b)) by (nonlinear_arith)
            requires
                a < b,
                ARENA_SIZE == 8192 * 8192,
        ;
    } else {
        assert(arena_base(b) + ARENA_SIZE <= arena_base(a)) by (nonlinear_arith)
            requires
                b < a,
                ARENA_SIZE == 8192 * 8192,
        ;
    }
}

/// Replacing one span set changes the pages in an arena by the difference
/// between the two.
pub proof fn lemma_sets_pages_update(
    sets: Seq<SpanSetView>,
    c: int,
    set: SpanSetView,
    base: u64,
)
    requires
        0 <= c < sets.len(),
    ensures
        sets_pages_in(sets.update(c, set), base) == sets_pages_in(sets, base) - sets[c].pages_in(
            base,
        ) + set.pages_in(base),
    decreases sets.len(),
{
    let after = sets.update(c, set);
    if c == sets.len() - 1 {
        assert(after.drop_last() =~= sets.drop_last());
    } else {
        lemma_sets_pages_update(sets.drop_last(), c, set, base);
        assert(after.drop_last() =~= sets.drop_last().update(c, set));
    }
}

/// Span sets that lie below an arena have no pages in it.
pub proof fn lemma_sets_pages_outside(sets: Seq<SpanSetView>, low: int, base: u64)
    requires
        forall|c: int| 0 <= c < sets.len() ==> (#[trigger] sets[c]).within(low, base as int),
    ensures
        sets_pages_in(sets, base) == 0,
    decreases sets.len(),
{
    if sets.len() > 0 {
        assert forall|c: int| 0 <= c < sets.drop_last().len() implies (
        #[trigger] sets.drop_last()[c]).within(low, base as int) by {
            assert(sets.drop_last()[c] == sets[c]);
        }
        lemma_sets_pages_outside(sets.drop_last(), low, base);
        let last = sets.last();
        assert(last.within(low, base as int));
        lemma_seq_pages_outside(last.partial, base);
        lemma_seq_pages_outside(last.full, base);
    }
}

/// Where the first arena with room lies.
pub proof fn lemma_first_room(arenas: Seq<ArenaView>, n: int, i: int)
    requires
        0 <= i <= arenas.len(),
    ensures
        i <= first_room_from(arenas, n, i) <= arenas.len(),
        first_room_from(arenas, n, i) < arenas.len() ==> arenas[first_room_from(
            arenas,
            n,
            i,
        )].has_room(n),
        forall|k: int| i <= k < first_room_from(arenas, n, i) ==> !arenas[k].has_room(n),
    decreases arenas.len() - i,
{
    if i < arenas.len() && !arenas[i].has_room(n) {
        lemma_first_room(arenas, n, i + 1);
    }
}

/// In every arena of a well-formed heap, the pages that the bitmap marks are
/// the pages of the spans that lie in the arena.
pub proof fn lemma_arena_pages_are_span_pages(heap: HeapView, a: int)
    requires
        heap.wf(),
        0 <= a < heap.arenas.len(),
    ensures
        super::bitmap::count_set(heap.arenas[a].used) == sets_pages_in(
            heap.sets,
            heap.arenas[a].base,
        ),
{
}

/// An allocation from a span with room keeps the heap well formed.
pub proof fn lemma_existing_wf(before: HeapView, c: int)
    requires
        before.wf(),
        0 <= c < NUM_SIZE_CLASSES,
        before.sets[c].partial.len() > 0,
    ensures
        (HeapView {
            arenas: before.arenas,
            sets: before.sets.update(c, before.sets[c].after_alloc()),
        }).wf(),
{
    let set = before.sets[c];
    let after = HeapView { arenas: before.arenas, sets: before.sets.update(c, set.after_alloc()) };
    let high = arena_base(before.arenas.len() as int);
    assert(set.wf());
    lemma_set_alloc(set, 0, ARENA_SIZE as int, high);
    assert forall|b: int| 0 <= b < after.arenas.len() implies {
        &&& (#[trigger] after.arenas[b]).wf()
        &&& after.arenas[b].base == arena_base(b)
        &&& after.arenas[b].count == sets_pages_in(after.sets, after.arenas[b].base)
    } by {
        let base = after.arenas[b].base;
        assert(before.arenas[b].wf());
        lemma_sets_pages_update(before.sets, c, set.after_alloc(), base);
        lemma_set_alloc(set, base, 0, 0);
    }
    assert forall|k: int| 0 <= k < NUM_SIZE_CLASSES implies {
        &&& (#[trigger] after.sets[k]).wf()
        &&& after.sets[k].pages == CLASS_TO_ALLOC_PAGES[k]
        &&& after.sets[k].obj_size == class_size(k)
        &&& after.sets[k].within(ARENA_SIZE as int, high)
    } by {
        if k != c {
            assert(after.sets[k] == before.sets[k]);
        }
    }
    lemma_after_alloc_sound(before, c);
}

/// What `alloc_span` did when it reserved the span `sv` of class `c`.
pub open spec fn span_reserved(
    before: HeapView,
    arenas: Seq<ArenaView>,
    c: int,
    sv: SpanView,
) -> bool {
    let pages = CLASS_TO_ALLOC_PAGES[c] as int;
    let a = first_room_from(before.arenas, pages, 0);
    let fit = (sv.base - arena_base(a)) / (PAGE_SIZE as int);
    &&& sv == fresh_span(sv.base, c)
    &&& sv.wf()
    &&& forall|b: int|
        0 <= b < arenas.len() ==> (#[trigger] arenas[b]).wf() && arenas[b].base == arena_base(b)
    &&& sv.base == arena_base(a) + fit * PAGE_SIZE
    &&& 0 <= fit
    &&& fit + pages <= ARENA_COUNT
    &&& if a < before.arenas.len() {
        &&& is_first_fit(before.arenas[a].used, pages, fit)
        &&& arenas == before.arenas.update(a, taken(before.arenas[a], fit, pages))
    } else {
        &&& before.arenas.len() < MAX_ARENAS
        &&& fit == 0
        &&& arenas == before.arenas.push(taken(fresh_arena(arena_base(a) as u64), 0, pages))
    }
}

/// A heap with a span more, on pages that were reserved for it, is well
/// formed.
pub proof fn lemma_span_added_wf(before: HeapView, arenas: Seq<ArenaView>, c: int, sv: SpanView)
    requires
        before.wf(),
        1 <= c < NUM_SIZE_CLASSES,
        span_reserved(before, arenas, c, sv),
    ensures
        (HeapView { arenas, sets: before.sets.update(c, before.sets[c].with_span(sv)) }).wf(),
        ARENA_SIZE <= sv.base < ADDRESS_LIMIT,
{
    let set1 = before.sets[c].with_span(sv);
    let after = HeapView { arenas, sets: before.sets.update(c, set1) };
    let pages = CLASS_TO_ALLOC_PAGES[c] as int;
    let a = first_room_from(before.arenas, pages, 0);
    lemma_first_room(before.arenas, pages, 0);
    lemma_class_pages(c);
    lemma_class_sizes(c);
    let high = arena_base(arenas.len() as int);
    let fit = (sv.base - arena_base(a)) / (PAGE_SIZE as int);
    assert(sv.pages == pages);
    assert(arena_base(a) <= sv.base && sv.base + sv.pages * PAGE_SIZE <= arena_base(a)
        + ARENA_SIZE) by (nonlinear_arith)
        requires
            sv.base == arena_base(a) + fit * PAGE_SIZE,
            0 <= fit,
            fit + sv.pages <= 8192,
            PAGE_SIZE == 8192,
            ARENA_SIZE == 8192 * 8192,
    ;
    assert(a < arenas.len());
    assert(sv.base + sv.pages * PAGE_SIZE <= high) by (nonlinear_arith)
        requires
            sv.base + sv.pages * PAGE_SIZE <= arena_base(a) + ARENA_SIZE,
            a < arenas.len(),
            high == (arenas.len() + 1) * ARENA_SIZE,
            arena_base(a) == (a + 1) * ARENA_SIZE,
            ARENA_SIZE == 8192 * 8192,
    ;
    assert(before.sets[c].wf());
    assert(set1.wf()) by {
        assert forall|i: int| 0 <= i < set1.partial.len() implies {
            &&& (#[trigger] set1.partial[i]).wf()
            &&& !set1.partial[i].is_full()
            &&& set1.partial[i].pages == set1.pages
            &&& set1.partial[i].obj_size == set1.obj_size
        } by {
            if i < before.sets[c].partial.len() {
                assert(set1.partial[i] == before.sets[c].partial[i]);
            }
        }
    }
    assert(set1.within(ARENA_SIZE as int, high)) by {
        assert(before.sets[c].within(ARENA_SIZE as int, arena_base(before.arenas.len() as int)));
        assert forall|i: int| 0 <= i < set1.partial.len() implies ARENA_SIZE <= (
        #[trigger] set1.partial[i]).base && set1.partial[i].base + set1.partial[i].pages
            * PAGE_SIZE <= high by {
            if i < before.sets[c].partial.len() {
                assert(set1.partial[i] == before.sets[c].partial[i]);
            }
        }
    }
    assert forall|b: int| 0 <= b < after.arenas.len() implies {
        &&& (#[trigger] after.arenas[b]).wf()
        &&& after.arenas[b].base == arena_base(b)
        &&& after.arenas[b].count == sets_pages_in(after.sets, after.arenas[b].base)
    } by {
        let base = after.arenas[b].base;
        lemma_sets_pages_update(before.sets, c, set1, base);
        lemma_seq_pages_push(before.sets[c].partial, sv, base);
        assert(span_pages_in(sv, base) == if b == a {
            pages
        } else {
            0
        });
        if b < before.arenas.len() {
            assert(before.arenas[b].wf());
            assert(before.arenas[b].count == sets_pages_in(before.sets, before.arenas[b].base));
            assert(before.arenas[b].base == arena_base(b));
        } else {
            assert forall|k: int| 0 <= k < before.sets.len() implies (
            #[trigger] before.sets[k]).within(ARENA_SIZE as int, base as int) by {
                assert(before.sets[k].within(
                    ARENA_SIZE as int,
                    arena_base(before.arenas.len() as int),
                ));
            }
            lemma_sets_pages_outside(before.sets, ARENA_SIZE as int, base);
            super::bitmap::lemma_count_clear(fresh_arena(base).used);
        }
    }
    assert forall|k: int| 0 <= k < NUM_SIZE_CLASSES implies {
        &&& (#[trigger] after.sets[k]).wf()
        &&& after.sets[k].pages == CLASS_TO_ALLOC_PAGES[k]
        &&& after.sets[k].obj_size == class_size(k)
        &&& after.sets[k].within(ARENA_SIZE as int, high)
    } by {
        if k != c {
            assert(after.sets[k] == before.sets[k]);
            assert(before.sets[k].within(
                ARENA_SIZE as int,
                arena_base(before.arenas.len() as int),
            ));
        }
    }
    lemma_with_span_sound(before, arenas, c, sv, a, fit);
}

/// An allocation from a span that was reserved for it keeps the heap well
/// formed.
pub proof fn lemma_new_span_wf(before: HeapView, arenas: Seq<ArenaView>, c: int, sv: SpanView)
    requires
        before.wf(),
        1 <= c < NUM_SIZE_CLASSES,
        span_reserved(before, arenas, c, sv),
    ensures
        (HeapView {
            arenas,
            sets: before.sets.update(c, before.sets[c].with_span(sv).after_alloc()),
        }).wf(),
        ARENA_SIZE <= sv.base < ADDRESS_LIMIT,
{
    lemma_span_added_wf(before, arenas, c, sv);
    let set1 = before.sets[c].with_span(sv);
    let mid = HeapView { arenas, sets: before.sets.update(c, set1) };
    lemma_existing_wf(mid, c);
    assert(mid.sets.update(c, mid.sets[c].after_alloc()) =~= before.sets.update(
        c,
        set1.after_alloc(),
    ));
}

/// In a well-formed heap, a slot address belongs to one span and one slot.
pub proof fn lemma_slot_owner(h: HeapView, p: SpanPos, i: int, q: SpanPos, j: int)
    requires
        h.wf(),
        h.has(p),
        h.has(q),
        0 <= i < h.span(p).capacity,
        0 <= j < h.span(q).capacity,
        h.span(p).base + i * h.span(p).obj_size == h.span(q).base + j * h.span(q).obj_size,
    ensures
        p == q,
        i == j,
{
    let sp = h.span(p);
    let sq = h.span(q);
    assert(h.sets[p.class].wf());
    assert(h.sets[q.class].wf());
    assert(sp.wf() && sq.wf());
    lemma_slot_in_span(sp, i);
    lemma_slot_in_span(sq, j);
    if p != q {
        assert(apart(h.span(p), h.span(q)));
    } else {
        assert(i == j) by (nonlinear_arith)
            requires
                i * sp.obj_size == j * sp.obj_size,
                sp.obj_size >= 16,
        ;
    }
}

/// A slot of a span lies inside the span.
pub proof fn lemma_slot_in_span(s: SpanView, i: int)
    requires
        s.wf(),
        0 <= i < s.capacity,
    ensures
        s.base <= s.base + i * s.obj_size,
        s.base + i * s.obj_size + s.obj_size <= s.base + s.pages * PAGE_SIZE,
{
    let size = s.obj_size as int;
    let bytes = s.pages * PAGE_SIZE;
    let cap = s.capacity as int;
    assert(i * size + size <= bytes && i * size >= 0) by (nonlinear_arith)
        requires
            0 <= i < cap,
            cap == bytes / size,
            size > 0,
            bytes >= 0,
    ;
}

/// An allocation from a span with room returns the address of a slot that
/// was free, and afterwards that slot is taken and no other slot has changed.
pub proof fn lemma_fresh_from_span(h: HeapView, c: int)
    requires
        h.wf(),
        0 <= c < NUM_SIZE_CLASSES,
        h.sets[c].partial.len() > 0,
    ensures
        h.sets[c].alloc_addr() is Some,
        !h.live(h.sets[c].alloc_addr()->0 as int),
        ({
            let after = HeapView {
                arenas: h.arenas,
                sets: h.sets.update(c, h.sets[c].after_alloc()),
            };
            let addr = h.sets[c].alloc_addr()->0 as int;
            &&& after.live(addr)
            &&& forall|x: int| h.live(x) ==> after.live(x)
            &&& forall|x: int| after.live(x) ==> h.live(x) || x == addr
        }),
{
    let set = h.sets[c];
    let after = HeapView { arenas: h.arenas, sets: h.sets.update(c, set.after_alloc()) };
    let last = SpanPos { class: c, full: false, index: set.partial.len() - 1 };
    let s = set.partial.last();
    assert(set.wf());
    assert(s.wf() && !s.is_full());
    lemma_span_alloc(s);
    lemma_set_alloc(set, 0, 0, 0);
    let slot = s.next_slot();
    lemma_slot_in_span(s, slot);
    let addr = set.alloc_addr()->0 as int;
    assert(s.obj_size * slot == slot * s.obj_size) by (nonlinear_arith);
    assert(addr == s.base + slot * s.obj_size);
    assert(h.has(last) && h.span(last) == s);
    if h.live(addr) {
        let (p, i) = choose|p: SpanPos, i: int| h.has(p) && #[trigger] holds(h.span(p), i, addr);
        lemma_slot_owner(h, p, i, last, slot);
    }
    let moved = lemma_span_before_alloc(h, c, last);
    lemma_span_after_alloc(h, c, moved);
    assert(holds(after.span(moved), slot, addr));
    assert forall|x: int| h.live(x) implies after.live(x) by {
        let (p, i) = choose|p: SpanPos, i: int| h.has(p) && #[trigger] holds(h.span(p), i, x);
        let now_p = lemma_span_before_alloc(h, c, p);
        lemma_span_after_alloc(h, c, now_p);
        assert(holds(after.span(now_p), i, x));
    }
    assert forall|x: int| after.live(x) implies h.live(x) || x == addr by {
        let (p, i) = choose|p: SpanPos, i: int|
            after.has(p) && #[trigger] holds(after.span(p), i, x);
        lemma_span_after_alloc(h, c, p);
        let was_p = before_move(set, c, p);
        if was_p == last && i == slot {
        } else {
            assert(holds(h.span(was_p), i, x));
        }
    }
}

/// An allocation returns an address that no allocation returned before: the
/// slot at the address was free, it is taken afterwards, and every other
/// slot is as it was.
pub proof fn lemma_alloc_fresh(h: HeapView, size: int, after: HeapView, addr: u64)
    requires
        h.wf(),
        h.alloc_effect(size, after, Some(addr)),
    ensures
        !h.live(addr as int),
        after.live(addr as int),
        forall|x: int| h.live(x) ==> after.live(x),
        forall|x: int| after.live(x) ==> h.live(x) || x == addr,
{
    let b = super::sizes::bucket_of(size);
    assert(0 <= b < super::sizes::TOTAL_BUCKETS);
    super::sizes::lemma_bucket_class(b);
    let c = super::sizes::SIZE_TO_CLASS[b] as int;
    if c > 0 {
        lemma_class_sizes(c - 1);
    }
    lemma_class_sizes(c);
    assert(is_size_class(size, c));
    assert(h.alloc_in_class(c, after, Some(addr)));
    if h.sets[c].partial.len() > 0 {
        lemma_fresh_from_span(h, c);
        assert(after == (HeapView {
            arenas: h.arenas,
            sets: h.sets.update(c, h.sets[c].after_alloc()),
        }));
    } else {
        let pages = CLASS_TO_ALLOC_PAGES[c] as int;
        let a = first_room_from(h.arenas, pages, 0);
        lemma_first_room(h.arenas, pages, 0);
        lemma_class_pages(c);
        let sv = fresh_span(addr, c);
        let fit = (addr - arena_base(a)) / (PAGE_SIZE as int);
        assert(h.sets[c].wf());
        assert(c >= 1);
        lemma_reserved(h, after.arenas, c, addr, a, fit);
        lemma_span_added_wf(h, after.arenas, c, sv);
        let set1 = h.sets[c].with_span(sv);
        let mid = HeapView { arenas: after.arenas, sets: h.sets.update(c, set1) };
        lemma_fresh_from_span(mid, c);
        assert(mid.sets.update(c, mid.sets[c].after_alloc()) =~= h.sets.update(
            c,
            set1.after_alloc(),
        ));
        assert(after == (HeapView {
            arenas: mid.arenas,
            sets: mid.sets.update(c, mid.sets[c].after_alloc()),
        }));
        assert(set1.partial.last() == sv);
        lemma_span_alloc(sv);
        assert(sv.next_slot() == 0);
        assert(sv.obj_size * sv.next_slot() == 0) by (nonlinear_arith)
            requires
                sv.next_slot() == 0,
        ;
        assert(mid.sets[c].alloc_addr() == Some(addr));
        lemma_live_same(h, after.arenas, c, sv);
    }
}

/// The span that an allocation describes is one that `alloc_span` could
/// have reserved.
pub proof fn lemma_reserved(h: HeapView, arenas: Seq<ArenaView>, c: int, addr: u64, a: int, fit: int)
    requires
        h.wf(),
        1 <= c < NUM_SIZE_CLASSES,
        a == first_room_from(h.arenas, CLASS_TO_ALLOC_PAGES[c] as int, 0),
        fit == (addr - arena_base(a)) / (PAGE_SIZE as int),
        addr == arena_base(a) + fit * PAGE_SIZE,
        !(a >= h.arenas.len() && h.arenas.len() >= MAX_ARENAS),
        a < h.arenas.len() ==> is_first_fit(
            h.arenas[a].used,
            CLASS_TO_ALLOC_PAGES[c] as int,
            fit,
        ) && arenas == h.arenas.update(
            a,
            taken(h.arenas[a], fit, CLASS_TO_ALLOC_PAGES[c] as int),
        ),
        a >= h.arenas.len() ==> fit == 0 && arenas == h.arenas.push(
            taken(fresh_arena(arena_base(a) as u64), 0, CLASS_TO_ALLOC_PAGES[c] as int),
        ),
    ensures
        span_reserved(h, arenas, c, fresh_span(addr, c)),
{
    let pages = CLASS_TO_ALLOC_PAGES[c] as int;
    let sv = fresh_span(addr, c);
    lemma_first_room(h.arenas, pages, 0);
    lemma_class_pages(c);
    lemma_class_sizes(c);
    assert(a <= h.arenas.len());
    assert((a + 1) * 0x400_0000 + 0x400_0000 <= 0x0001_0000_0000_0000 && (a + 1) * 0x400_0000
        >= 0x400_0000 && ((a + 1) * 0x400_0000) % 8192 == 0) by (nonlinear_arith)
        requires
            0 <= a < 0x3F_FFFE,
    ;
    if a < h.arenas.len() {
        assert(h.arenas[a].wf());
        assert(run_free(h.arenas[a].used, fit, pages));
        lemma_taken_wf(h.arenas[a], fit, pages);
        assert forall|b: int| 0 <= b < arenas.len() implies (#[trigger] arenas[b]).wf()
            && arenas[b].base == arena_base(b) by {
            if b != a {
                assert(h.arenas[b].wf());
            }
        }
    } else {
        let f = fresh_arena(arena_base(a) as u64);
        super::bitmap::lemma_count_clear(f.used);
        assert(run_free(f.used, 0, pages));
        lemma_taken_wf(f, 0, pages);
        assert forall|b: int| 0 <= b < arenas.len() implies (#[trigger] arenas[b]).wf()
            && arenas[b].base == arena_base(b) by {
            if b < a {
                assert(h.arenas[b].wf());
            }
        }
    }
    assert(0 <= fit && fit + pages <= ARENA_COUNT);
    assert(sv.wf()) by {
        assert(sv.used.take(sv.capacity as int) =~= Seq::new(sv.capacity, |j: int| false));
        super::bitmap::lemma_count_clear(sv.used.take(sv.capacity as int));
        assert((fit + pages) * PAGE_SIZE <= ARENA_SIZE && (fit + pages) * PAGE_SIZE == fit
            * PAGE_SIZE + pages * PAGE_SIZE && (fit * PAGE_SIZE) % 16 == 0) by (nonlinear_arith)
            requires
                fit + pages <= 8192,
                fit >= 0,
                PAGE_SIZE == 8192,
                ARENA_SIZE == 8192 * 8192,
        ;
        if class_size(c) <= 1024 {
        } else {
            assert(class_size(c) % 128 == 0);
        }
    }
}

/// An arena with a free run taken is well formed.
pub proof fn lemma_taken_wf(arena: ArenaView, fit: int, pages: int)
    requires
        arena.wf(),
        0 <= pages,
        run_free(arena.used, fit, pages),
    ensures
        taken(arena, fit, pages).wf(),
    decreases pages,
{
    if pages > 0 {
        lemma_taken_wf(arena, fit, pages - 1);
        let prev = taken(arena, fit, pages - 1);
        let next = taken(arena, fit, pages);
        assert(next.used =~= prev.used.update(fit + pages - 1, true));
        super::bitmap::lemma_count_update(prev.used, fit + pages - 1, true);
    } else {
        assert(taken(arena, fit, 0).used =~= arena.used);
    }
}

/// A span without a slot taken adds no live address.
pub proof fn lemma_live_same(h: HeapView, arenas: Seq<ArenaView>, c: int, sv: SpanView)
    requires
        0 <= c < h.sets.len(),
        forall|i: int| 0 <= i < sv.capacity ==> !sv.used[i],
    ensures
        forall|x: int|
            h.live(x) <==> (HeapView {
                arenas,
                sets: h.sets.update(c, h.sets[c].with_span(sv)),
            }).live(x),
{
    let mid = HeapView { arenas, sets: h.sets.update(c, h.sets[c].with_span(sv)) };
    let fresh = SpanPos { class: c, full: false, index: h.sets[c].partial.len() as int };
    assert forall|x: int| h.live(x) implies mid.live(x) by {
        let (p, i) = choose|p: SpanPos, i: int| h.has(p) && #[trigger] holds(h.span(p), i, x);
        if p.class == c && !p.full {
            assert(h.sets[c].partial.push(sv)[p.index] == h.sets[c].partial[p.index]);
        }
        assert(mid.has(p) && holds(mid.span(p), i, x));
    }
    assert forall|x: int| mid.live(x) implies h.live(x) by {
        let (p, i) = choose|p: SpanPos, i: int| mid.has(p) && #[trigger] holds(mid.span(p), i, x);
        if p == fresh {
            assert(mid.span(p) == sv);
        } else {
            if p.class == c && !p.full {
                assert(h.sets[c].partial.push(sv)[p.index] == h.sets[c].partial[p.index]);
            }
            assert(h.has(p) && holds(h.span(p), i, x));
        }
    }
}

impl View for HeapInner {
    type V = HeapView;

    closed spec fn view(&self) -> HeapView {
        HeapView { arenas: arena_views(self.page_arenas@), sets: set_views(self.span_sets@) }
    }
}

impl HeapInner {
    pub open spec fn wf(&self) -> bool {
        self@.wf()
    }

    /// A heap with one arena and no spans.
    pub fn new() -> (heap: HeapInner)
        ensures
            heap.wf(),
            heap@.arenas == seq![fresh_arena(ARENA_SIZE as u64)],
            forall|c: int|
                0 <= c < NUM_SIZE_CLASSES ==> (#[trigger] heap@.sets[c]).partial.len() == 0
                    && heap@.sets[c].full.len() == 0,
    {
        let mut span_sets: Vec<SpanSet> = Vec::new();
        let mut i: usize = 0;
        while i < NUM_SIZE_CLASSES
            invariant
                i <= NUM_SIZE_CLASSES,
                span_sets.len() == i,
                forall|c: int|
                    0 <= c < i ==> {
                        &&& (#[trigger] span_sets[c]).wf()
                        &&& span_sets[c]@.pages == CLASS_TO_ALLOC_PAGES[c]
                        &&& span_sets[c]@.obj_size == class_size(c)
                        &&& span_sets[c]@.partial.len() == 0
                        &&& span_sets[c]@.full.len() == 0
                    },
            decreases NUM_SIZE_CLASSES - i,
        {
            span_sets.push(SpanSet::new(i, get_obj_size(i)));
            i += 1;
        }
        assert(0x400_0000u64 % 8192 == 0);
        let arena = Arena::new(ARENA_SIZE as u64);
        let ghost av = arena@;
        let mut page_arenas: Vec<Arena> = Vec::new();
        page_arenas.push(arena);
        let heap = HeapInner { page_arenas, span_sets };
        proof {
            assert(av.used =~= fresh_arena(ARENA_SIZE as u64).used);
            assert(heap@.arenas =~= seq![fresh_arena(ARENA_SIZE as u64)]);
            assert forall|c: int| 0 <= c < NUM_SIZE_CLASSES implies (
            #[trigger] heap@.sets[c]).within(ARENA_SIZE as int, ARENA_SIZE as int) by {
                assert(heap@.sets[c] == span_sets[c]@);
            }
            lemma_sets_pages_outside(heap@.sets, ARENA_SIZE as int, ARENA_SIZE as u64);
            assert forall|c: int| 0 <= c < NUM_SIZE_CLASSES implies {
                &&& (#[trigger] heap@.sets[c]).wf()
                &&& heap@.sets[c].pages == CLASS_TO_ALLOC_PAGES[c]
                &&& heap@.sets[c].obj_size == class_size(c)
                &&& heap@.sets[c].within(ARENA_SIZE as int, arena_base(heap@.arenas.len() as int))
                &&& heap@.sets[c].partial.len() == 0
                &&& heap@.sets[c].full.len() == 0
            } by {
                assert(heap@.sets[c] == span_sets[c]@);
            }
        }
        heap
    }

    /// Serves `size` bytes from the span set of the size's class, reserving
    /// a new span first if no span of the class has room. None for a size of
    /// zero, for a size above the largest class, and when the address space
    /// is used up.
    pub fn allocate(&mut self, size: usize) -> (r: Option<u64>)
        requires
            old(self).wf(),
        ensures
            final(self).wf(),
            old(self)@.alloc_effect(size as int, final(self)@, r),
            r matches Some(addr) ==> addr % 16 == 0 && ARENA_SIZE <= addr < ADDRESS_LIMIT,
            r matches Some(addr) ==> !old(self)@.live(addr as int) && final(self)@.live(
                addr as int,
            ),
            forall|x: int| old(self)@.live(x) ==> final(self)@.live(x),
    {
        let r = self.serve(size);
        proof {
            match r {
                Some(addr) => {
                    lemma_alloc_fresh(old(self)@, size as int, self@, addr);
                },
                None => {
                    lemma_alloc_none(old(self)@, size as int, self@);
                },
            }
        }
        r
    }

    /// Serves `size` bytes; the work of `allocate`.
    fn serve(&mut self, size: usize) -> (r: Option<u64>)
        requires
            old(self).wf(),
        ensures
            final(self).wf(),
            old(self)@.alloc_effect(size as int, final(self)@, r),
            r matches Some(addr) ==> addr % 16 == 0 && ARENA_SIZE <= addr < ADDRESS_LIMIT,
    {
        if size == 0 {
            return None;
        }
        if size > MAX_SMALL_OBJ_SIZE {
            return self.alloc_large(size);
        }
        let size_class = get_size_class(size);
        let ghost before = self@;
        let ghost c = size_class as int;
        proof {
            lemma_class_sizes(c);
            assert forall|k: int| is_size_class(size as int, k) implies k == c by {
                lemma_class_sizes(k);
                super::sizes::lemma_class_order(k, c);
                super::sizes::lemma_class_order(c, k);
                if k > 0 {
                    super::sizes::lemma_class_order(k - 1, c);
                    super::sizes::lemma_class_order(c, k - 1);
                }
                if c > 0 {
                    super::sizes::lemma_class_order(c - 1, k);
                    super::sizes::lemma_class_order(k, c - 1);
                }
            }
            lemma_class_pages(c);
            assert(before.sets[c].wf());
        }
        if self.span_sets[size_class].is_full() {
            match self.alloc_span(size_class) {
                None => {
                    return None;
                },
                Some(new_span) => {
                    let ghost mid = self@;
                    let ghost sv = new_span@;
                    assert(mid.sets[c] == before.sets[c]);
                    self.span_sets[size_class].add_span(new_span);
                    let ghost set1 = before.sets[c].with_span(sv);
                    proof {
                        lemma_set_alloc(set1, 0, 0, 0);
                        lemma_span_alloc(sv);
                    }
                    let ptr = self.span_sets[size_class].allocate();
                    proof {
                        let set2 = set1.after_alloc();
                        assert(self@.sets =~= before.sets.update(c, set2));
                        assert(self@.arenas =~= mid.arenas);
                        assert(set1.partial.last() == sv);
                        assert(sv.next_slot() == 0);
                        assert(sv.obj_size * sv.next_slot() == 0) by (nonlinear_arith)
                            requires
                                sv.next_slot() == 0,
                        ;
                        assert(sv.alloc_addr() == Some(sv.base));
                        assert(ptr == Some(sv.base));
                        assert(span_reserved(before, mid.arenas, c, sv));
                        lemma_new_span_wf(before, mid.arenas, c, sv);
                        assert(self@ == (HeapView { arenas: mid.arenas, sets: self@.sets }));
                    }
                    return ptr;
                },
            }
        }
        let ptr = self.span_sets[size_class].allocate();
        proof {
            let set = before.sets[c];
            let high = arena_base(before.arenas.len() as int);
            assert(self@.sets =~= before.sets.update(c, set.after_alloc()));
            assert(self@.arenas =~= before.arenas);
            lemma_existing_wf(before, c);
            assert(self@ == (HeapView { arenas: before.arenas, sets: self@.sets }));
            let last = set.partial.last();
            assert(last.wf() && !last.is_full());
            lemma_span_alloc(last);
            assert(set.within(ARENA_SIZE as int, high));
            assert(ARENA_SIZE <= last.base);
            lemma_slot_aligned(last);
        }
        ptr
    }

    /// The number of arenas.
    pub fn arena_count(&self) -> (n: usize)
        ensures
            n == self@.arenas.len(),
    {
        self.page_arenas.len()
    }

    /// The number of pages taken in arena `a`.
    pub fn pages_taken(&self, a: usize) -> (n: usize)
        requires
            a < self@.arenas.len(),
        ensures
            n == self@.arenas[a as int].count,
    {
        self.page_arenas[a].count()
    }

    /// Where the spans of class `class` lie and how long they are: base
    /// address and number of pages of each, those with room first.
    pub fn spans_of_class(&self, class: usize) -> (r: Vec<(u64, usize)>)
        requires
            class < self@.sets.len(),
        ensures
            r@ == extents(self@.sets[class as int].partial + self@.sets[class as int].full),
    {
        let set = &self.span_sets[class];
        let ghost all = self@.sets[class as int].partial + self@.sets[class as int].full;
        let mut r: Vec<(u64, usize)> = Vec::new();
        let mut i: usize = 0;
        while i < set.partial.len()
            invariant
                i <= set.partial.len(),
                set@ == self@.sets[class as int],
                all == set@.partial + set@.full,
                r@ == extents(all.take(i as int)),
            decreases set.partial.len() - i,
        {
            r.push((set.partial[i].base, set.partial[i].pages));
            assert(r@ =~= extents(all.take(i + 1)));
            i += 1;
        }
        let n = set.partial.len();
        let mut j: usize = 0;
        while j < set.full.len()
            invariant
                j <= set.full.len(),
                n == set.partial.len(),
                set@ == self@.sets[class as int],
                all == set@.partial + set@.full,
                r@ == extents(all.take(n + j)),
            decreases set.full.len() - j,
        {
            r.push((set.full[j].base, set.full[j].pages));
            assert(r@ =~= extents(all.take(n + j + 1)));
            j += 1;
        }
        assert(all.take(all.len() as int) =~= all);
        r
    }

    /// Sizes above the largest class are not served from spans: the host's
    /// page allocator has to serve them, so the answer here is none.
    pub fn alloc_large(&mut self, size: usize) -> (r: Option<u64>)
        requires
            size > MAX_SMALL_OBJ_SIZE,
        ensures
            r is None,
            *final(self) == *old(self),
    {
        None
    }

    /// Reserves the pages of a new span of class `class` from the first arena
    /// that has room for them, opening a new arena if none has.
    pub fn alloc_span(&mut self, class: usize) -> (r: Option<Span>)
        requires
            old(self).wf(),
            1 <= class < NUM_SIZE_CLASSES,
        ensures
            final(self)@.sets == old(self)@.sets,
            forall|b: int|
                0 <= b < final(self)@.arenas.len() ==> (#[trigger] final(self)@.arenas[b]).wf()
                    && final(self)@.arenas[b].base == arena_base(b),
            match r {
                None => {
                    &&& final(self)@ == old(self)@
                    &&& first_room_from(
                        old(self)@.arenas,
                        CLASS_TO_ALLOC_PAGES[class as int] as int,
                        0,
                    ) >= old(self)@.arenas.len()
                    &&& old(self)@.arenas.len() >= MAX_ARENAS
                },
                Some(span) => {
                    let pages = CLASS_TO_ALLOC_PAGES[class as int] as int;
                    let a = first_room_from(old(self)@.arenas, pages, 0);
                    let fit = (span.base - arena_base(a)) / (PAGE_SIZE as int);
                    &&& span@ == fresh_span(span.base, class as int)
                    &&& span.wf()
                    &&& span.base == arena_base(a) + fit * PAGE_SIZE
                    &&& 0 <= fit
                    &&& fit + pages <= ARENA_COUNT
                    &&& if a < old(self)@.arenas.len() {
                        &&& is_first_fit(old(self)@.arenas[a].used, pages, fit)
                        &&& final(self)@.arenas == old(self)@.arenas.update(
                            a,
                            taken(old(self)@.arenas[a], fit, pages),
                        )
                    } else {
                        &&& old(self)@.arenas.len() < MAX_ARENAS
                        &&& fit == 0
                        &&& final(self)@.arenas == old(self)@.arenas.push(
                            taken(fresh_arena(arena_base(a) as u64), 0, pages),
                        )
                    }
                },
            },
    {
        let pages = get_alloc_pages(class);
        let ghost before = self@;
        proof {
            lemma_class_pages(class as int);
            lemma_class_sizes(class as int);
            lemma_first_room(before.arenas, pages as int, 0);
        }
        let mut i: usize = 0;
        while i < self.page_arenas.len()
            invariant
                i <= self.page_arenas.len(),
                self@ == before,
                before == old(self)@,
                before.wf(),
                1 <= class < NUM_SIZE_CLASSES,
                pages == CLASS_TO_ALLOC_PAGES[class as int],
                1 <= pages <= 7,
                forall|k: int| 0 <= k < i ==> !(#[trigger] before.arenas[k]).has_room(pages as int),
            decreases self.page_arenas.len() - i,
        {
            assert(before.arenas[i as int].wf());
            assert(self.page_arenas[i as int]@ == before.arenas[i as int]);
            let ghost av = before.arenas[i as int];
            proof {
                lemma_first_room(before.arenas, pages as int, 0);
            }
            match self.page_arenas[i].try_alloc(pages) {
                Some(base) => {
                    proof {
                        let fit = (base - av.base) / (PAGE_SIZE as int);
                        assert(run_free(av.used, fit, pages as int));
                        assert(av.has_room(pages as int));
                        let f = first_room_from(before.arenas, pages as int, 0);
                        if f < i {
                            assert(before.arenas[f].has_room(pages as int));
                        }
                        assert(f == i);
                        assert(self@.arenas =~= before.arenas.update(
                            i as int,
                            taken(av, fit, pages as int),
                        ));
                        assert(self@.sets =~= before.sets);
                        lemma_page_address(av.base, base, fit, pages as int);
                    }
                    let span = Span::new(base, class);
                    proof {
                        assert(span@.used =~= fresh_span(base, class as int).used);
                    }
                    return Some(span);
                },
                None => {
                    proof {
                        assert(!av.has_room(pages as int));
                        assert(self@.arenas =~= before.arenas);
                        assert(self@.sets =~= before.sets);
                    }
                },
            }
            i += 1;
        }
        proof {
            lemma_first_room(before.arenas, pages as int, 0);
            let f = first_room_from(before.arenas, pages as int, 0);
            if f < before.arenas.len() {
                assert(before.arenas[f].has_room(pages as int));
            }
        }
        assert(first_room_from(before.arenas, pages as int, 0) == before.arenas.len());
        if self.page_arenas.len() >= MAX_ARENAS {
            return None;
        }
        let n = self.page_arenas.len();
        assert((n + 1) * 0x400_0000 + 0x400_0000 <= 0x0001_0000_0000_0000) by (nonlinear_arith)
            requires
                n < 0x3F_FFFE,
        ;
        let new_base = (n as u64 + 1) * (ARENA_SIZE as u64);
        assert(new_base % 8192 == 0) by (nonlinear_arith)
            requires
                new_base == (n + 1) * 0x400_0000,
        ;
        let mut arena = Arena::new(new_base);
        let ghost fresh = arena@;
        proof {
            assert(fresh.used =~= fresh_arena(new_base).used);
            assert(run_free(fresh.used, 0, pages as int));
        }
        match arena.try_alloc(pages) {
            Some(base) => {
                proof {
                    let fit = (base - new_base) / (PAGE_SIZE as int);
                    assert(fit == 0) by {
                        if fit > 0 {
                            assert(!run_free(fresh.used, 0, pages as int));
                        }
                    }
                    lemma_page_address(new_base, base, fit, pages as int);
                }
                let ghost taken_view = arena@;
                self.page_arenas.push(arena);
                proof {
                    assert(taken_view == taken(fresh_arena(new_base), 0, pages as int));
                    assert(self@.arenas =~= before.arenas.push(taken_view));
                    assert(self@.sets =~= before.sets);
                }
                let span = Span::new(base, class);
                proof {
                    assert(span@.used =~= fresh_span(base, class as int).used);
                }
                Some(span)
            },
            None => {
                None
            },
        }
    }
}

/// A page address taken from an arena is aligned and lies, with the pages
/// that follow it, inside the arena.
pub proof fn lemma_page_address(arena: u64, addr: u64, fit: int, pages: int)
    requires
        valid_arena_base(arena),
        addr >= arena,
        (addr - arena) % (PAGE_SIZE as int) == 0,
        fit == (addr - arena) / (PAGE_SIZE as int),
        0 <= fit,
        fit + pages <= ARENA_COUNT,
        0 <= pages,
    ensures
        addr == arena + fit * PAGE_SIZE,
        addr % 16 == 0,
        addr + pages * PAGE_SIZE <= arena + ARENA_SIZE,
        addr + pages * PAGE_SIZE <= ADDRESS_LIMIT,
{
    let off = addr - arena;
    assert(off == fit * 8192 && (fit + pages) * 8192 <= 0x400_0000 && (arena + off) % 16 == 0)
        by (nonlinear_arith)
        requires
            off % 8192 == 0,
            fit == off / 8192,
            fit + pages <= 8192,
            arena % 8192 == 0,
            off >= 0,
    ;
    assert((fit + pages) * 8192 == fit * 8192 + pages * 8192) by (nonlinear_arith);
}

/// The slots of a span lie at multiples of 16 inside the span.
pub proof fn lemma_slot_aligned(s: SpanView)
    requires
        s.wf(),
        !s.is_full(),
    ensures
        (s.base + s.obj_size * s.next_slot()) % 16 == 0,
        s.base <= s.base + s.obj_size * s.next_slot() < ADDRESS_LIMIT,
{
    lemma_span_alloc(s);
    let size = s.obj_size as int;
    let slot = s.next_slot();
    let q = size / 16;
    assert(size * slot == 16 * (q * slot) && q * slot >= 0) by (nonlinear_arith)
        requires
            size == 16 * q,
            slot >= 0,
            q >= 0,
    ;
}

/// The heap handle: the allocator that every part of the runtime shares.
pub struct Heap {
    inner: HeapInner,
}

impl View for Heap {
    type V = HeapView;

    closed spec fn view(&self) -> HeapView {
        self.inner@
    }
}

impl Heap {
    pub open spec fn wf(&self) -> bool {
        self@.wf()
    }

    /// A heap with one arena and no spans.
    pub fn new() -> (heap: Heap)
        ensures
            heap.wf(),
            heap@.arenas == seq![fresh_arena(ARENA_SIZE as u64)],
            forall|c: int|
                0 <= c < NUM_SIZE_CLASSES ==> (#[trigger] heap@.sets[c]).partial.len() == 0
                    && heap@.sets[c].full.len() == 0,
    {
        Heap { inner: HeapInner::new() }
    }

    /// Serves `size` bytes; see `HeapInner::allocate`.
    pub fn allocate(&mut self, size: usize) -> (r: Option<u64>)
        requires
            old(self).wf(),
        ensures
            final(self).wf(),
            old(self)@.alloc_effect(size as int, final(self)@, r),
            r matches Some(addr) ==> addr % 16 == 0 && ARENA_SIZE <= addr < ADDRESS_LIMIT,
            r matches Some(addr) ==> !old(self)@.live(addr as int) && final(self)@.live(
                addr as int,
            ),
            forall|x: int| old(self)@.live(x) ==> final(self)@.live(x),
    {
        self.inner.allocate(size)
    }

    /// Gives an allocation back. Nothing is reclaimed: the heap forgets the
    /// request.
    pub fn deallocate(&mut self, addr: u64, size: usize)
        ensures
            *final(self) == *old(self),
    {
    }
}

} // verus!
