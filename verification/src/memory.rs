//! A bump allocator of 4 KiB physical frames over the firmware's memory map.
//!
//! The allocator walks the memory map once, front to back. It hands out the
//! frames of each conventional (free) region in turn, never below 2 MiB, and
//! never goes back: the next free address only grows.
use vstd::prelude::*;

verus! {

/// Size of a physical frame, and of a page of the memory map, in bytes.
pub const PAGE_SIZE: u64 = 4096;

/// Frames below this address are never handed out.
pub const LOW_MEMORY_END: u64 = 0x200000;

/// Physical addresses have at most 52 bits.
pub const PHYS_ADDR_LIMIT: u64 = 0x10_0000_0000_0000;

/// One entry of the firmware's memory map: `page_count` pages of type `ty`
/// from the physical address `phys_start` on.
#[derive(Debug, Clone, Copy, PartialEq, Eq, Structural)]
pub struct MemoryDescriptor {
    pub ty: u32,
    pub phys_start: u64,
    pub page_count: u64,
}

/// The memory type of free memory that the operating system may use.
pub open spec fn conventional() -> u32 {
    7
}

/// Calls `uefi::boot::MemoryType::CONVENTIONAL`, the type of free memory.
///
/// Trusted: the constant is 7 in `uefi-raw`, as the UEFI specification numbers
/// `EfiConventionalMemory`.
#[verifier::external_body]
fn conventional_memory_type() -> (ty: u32)
    ensures
        ty == conventional(),
{
    uefi::boot::MemoryType::CONVENTIONAL.0
}

/// Calls `x86_64::PhysAddr::new` and `PhysFrame::<Size4KiB>::containing_address`,
/// and gives the start address of that frame.
///
/// Trusted: `PhysAddr::new` panics when a bit from 52 up is set, which
/// `requires` rules out; `containing_address` aligns the address down to 4 KiB.
#[verifier::external_body]
fn containing_frame_start(addr: u64) -> (start: u64)
    requires
        addr < PHYS_ADDR_LIMIT,
    ensures
        start == align_down(addr as int),
{
    x86_64::structures::paging::PhysFrame::<x86_64::structures::paging::Size4KiB>::containing_address(
        x86_64::PhysAddr::new(addr),
    ).start_address().as_u64()
}

/// The start of the frame that holds address `a`.
pub open spec fn align_down(a: int) -> int {
    a - a % (PAGE_SIZE as int)
}

/// The first address past the region that `d` describes.
pub open spec fn region_end(d: MemoryDescriptor) -> int {
    d.phys_start + d.page_count * (PAGE_SIZE as int)
}

/// Whether `d` describes free memory.
pub open spec fn is_usable(d: MemoryDescriptor) -> bool {
    d.ty == conventional()
}

/// Every free region ends inside the physical address space.
pub open spec fn usable_regions_fit(map: Seq<MemoryDescriptor>) -> bool {
    forall|i: int| 0 <= i < map.len() && is_usable(#[trigger] map[i]) ==> region_end(map[i]) <= PHYS_ADDR_LIMIT
}

/// Every region ends at an address that a `u64` holds.
pub open spec fn all_regions_fit(map: Seq<MemoryDescriptor>) -> bool {
    forall|i: int| 0 <= i < map.len() ==> region_end(#[trigger] map[i]) <= u64::MAX
}

/// Index of the first free region at or after `from`, if there is one.
pub open spec fn next_usable(map: Seq<MemoryDescriptor>, from: int) -> Option<int>
    decreases map.len() - from,
{
    if from < 0 || from >= map.len() {
        None
    } else if is_usable(map[from]) {
        Some(from)
    } else {
        next_usable(map, from + 1)
    }
}

/// The region that `next_usable` finds is free and lies at or after `from`,
/// and none before it from `from` on is free.
pub proof fn lemma_next_usable(map: Seq<MemoryDescriptor>, from: int)
    ensures
        match next_usable(map, from) {
            Some(i) => {
                &&& 0 <= from <= i < map.len()
                &&& is_usable(map[i])
                &&& forall|j: int| from <= j < i ==> !is_usable(#[trigger] map[j])
            },
            None => forall|j: int| 0 <= from <= j < map.len() ==> !is_usable(#[trigger] map[j]),
        },
    decreases map.len() - from,
{
    if from < 0 || from >= map.len() {
    } else if is_usable(map[from]) {
    } else {
        lemma_next_usable(map, from + 1);
    }
}

/// The next free address once region `d` is the current one: no lower than
/// the region's start nor than `LOW_MEMORY_END`.
pub open spec fn bumped(next_page: int, d: MemoryDescriptor) -> int {
    let a = if next_page < d.phys_start {
        d.phys_start as int
    } else {
        next_page
    };
    if a < LOW_MEMORY_END {
        LOW_MEMORY_END as int
    } else {
        a
    }
}

/// The state of an allocator: the position of its walk through the map, the
/// current region, and the next free address.
pub type AllocState = (int, Option<MemoryDescriptor>, int);

/// One allocation from state `s` over `map`: the frame handed out, if any,
/// and the state after it. With a current region, the next free address is
/// first raised to the region's start and to `LOW_MEMORY_END`; if it then lies
/// inside the region, its frame is handed out and the address moves one page
/// on. Otherwise the walk goes on to the next free region, or ends with `None`
/// at the end of the map. (The last branch, a found region before the walk's
/// position, cannot happen; it keeps the recursion well-founded.)
pub open spec fn allocate(map: Seq<MemoryDescriptor>, s: AllocState) -> (Option<u64>, AllocState)
    decreases map.len() - s.0,
{
    let pos = s.0;
    let next_page = match s.1 {
        Some(d) => bumped(s.2, d),
        None => s.2,
    };
    if s.1 is Some && next_page < region_end(s.1.unwrap()) {
        (Some(align_down(next_page) as u64), (pos, s.1, next_page + PAGE_SIZE))
    } else {
        match next_usable(map, pos) {
            None => (None, (if pos < map.len() { map.len() as int } else { pos }, None, next_page)),
            Some(i) => if pos <= i < map.len() {
                allocate(map, (i + 1, Some(map[i]), next_page))
            } else {
                (None, (pos, None, next_page))
            },
        }
    }
}

/// The largest end address among the regions of `map`, or 0 for an empty map.
pub open spec fn max_region_end(map: Seq<MemoryDescriptor>) -> int
    decreases map.len(),
{
    if map.len() == 0 {
        0
    } else {
        let rest = max_region_end(map.drop_last());
        let last = region_end(map.last());
        if last > rest {
            last
        } else {
            rest
        }
    }
}

/// A state that an allocator over `map` can be in: the walk stands inside the
/// map, the next free address fits a `u64`, and the current region is the
/// free region that the walk has just passed.
pub open spec fn walk_valid(map: Seq<MemoryDescriptor>, s: AllocState) -> bool {
    &&& 0 <= s.0 <= map.len()
    &&& 0 <= s.2 <= u64::MAX
    &&& s.1 matches Some(d) ==> {
        &&& 1 <= s.0
        &&& d == map[s.0 - 1]
        &&& is_usable(d)
    }
}

/// Address `a` lies in a free region of `map`, at or above `LOW_MEMORY_END`.
pub open spec fn in_usable_region(map: Seq<MemoryDescriptor>, a: int) -> bool {
    exists|i: int|
        0 <= i < map.len() && is_usable(#[trigger] map[i]) && map[i].phys_start <= a < region_end(
            map[i],
        ) && a >= LOW_MEMORY_END
}

proof fn lemma_align_down_monotone(a: int, b: int)
    requires
        0 <= a <= b,
    ensures
        align_down(a) <= align_down(b),
        align_down(a) <= a,
        align_down(b + PAGE_SIZE) == align_down(b) + PAGE_SIZE,
{
}

/// What one allocation does to a valid state: the state stays valid, the next
/// free address never goes down, a frame handed out is the one that holds an
/// address of a free region, at or above the frame that holds the old next
/// free address, and the frame just below the new one; and once nothing is
/// handed out, the walk has reached the end of the map.
pub proof fn lemma_allocate(map: Seq<MemoryDescriptor>, s: AllocState)
    requires
        usable_regions_fit(map),
        walk_valid(map, s),
    ensures
        ({
            let (r, t) = allocate(map, s);
            &&& walk_valid(map, t)
            &&& t.2 >= s.2
            &&& r matches Some(f) ==> {
                &&& align_down(s.2) <= f
                &&& f + PAGE_SIZE == align_down(t.2)
                &&& exists|a: int| in_usable_region(map, a) && f == align_down(a)
            }
            &&& r is None ==> t.1 is None && t.0 == map.len()
        }),
    decreases map.len() - s.0,
{
    let pos = s.0;
    let next_page = match s.1 {
        Some(d) => bumped(s.2, d),
        None => s.2,
    };
    lemma_next_usable(map, pos);
    if s.1 is Some && next_page < region_end(s.1.unwrap()) {
        assert(region_end(map[pos - 1]) <= PHYS_ADDR_LIMIT);
        lemma_align_down_monotone(s.2, next_page);
        assert(in_usable_region(map, next_page));
    } else {
        match next_usable(map, pos) {
            None => {},
            Some(i) => {
                lemma_allocate(map, (i + 1, Some(map[i]), next_page));
                lemma_align_down_monotone(s.2, next_page);
            },
        }
    }
}

/// The allocator never hands out a frame twice: of two allocations one after
/// the other, the second frame lies above the first.
pub proof fn lemma_frames_increase(map: Seq<MemoryDescriptor>, s: AllocState)
    requires
        usable_regions_fit(map),
        walk_valid(map, s),
    ensures
        ({
            let (first, s1) = allocate(map, s);
            let (second, s2) = allocate(map, s1);
            first is Some && second is Some ==> first.unwrap() + PAGE_SIZE <= second.unwrap()
        }),
{
    lemma_allocate(map, s);
    let s1 = allocate(map, s).1;
    lemma_allocate(map, s1);
    if allocate(map, s).0 is Some && allocate(map, s1).0 is Some {
        let f1 = allocate(map, s).0.unwrap();
        let f2 = allocate(map, s1).0.unwrap();
        assert(f1 + PAGE_SIZE == align_down(s1.2));
        assert(align_down(s1.2) <= f2);
    }
}

/// Every frame handed out is the frame that holds an address of a free
/// region, and lies at or above `LOW_MEMORY_END`.
pub proof fn lemma_frame_in_usable_region(map: Seq<MemoryDescriptor>, s: AllocState)
    requires
        usable_regions_fit(map),
        walk_valid(map, s),
    ensures
        allocate(map, s).0 matches Some(f) ==> {
            &&& exists|a: int| in_usable_region(map, a) && f == align_down(a)
            &&& f >= LOW_MEMORY_END
        },
{
    lemma_allocate(map, s);
    if allocate(map, s).0 is Some {
        let f = allocate(map, s).0.unwrap();
        let a = choose|a: int| in_usable_region(map, a) && f == align_down(a);
        lemma_align_down_monotone(LOW_MEMORY_END as int, a);
    }
}

/// Every frame handed out lies below the highest end address of the map, the
/// value `max_physical_address` gives.
pub proof fn lemma_frame_below_max_address(map: Seq<MemoryDescriptor>, s: AllocState)
    requires
        usable_regions_fit(map),
        walk_valid(map, s),
    ensures
        allocate(map, s).0 matches Some(f) ==> f < max_region_end(map),
{
    lemma_frame_in_usable_region(map, s);
    lemma_max_region_end(map);
    if allocate(map, s).0 is Some {
        let f = allocate(map, s).0.unwrap();
        let a = choose|a: int| in_usable_region(map, a) && f == align_down(a);
        let i = choose|i: int|
            0 <= i < map.len() && is_usable(#[trigger] map[i]) && map[i].phys_start <= a
                < region_end(map[i]) && a >= LOW_MEMORY_END;
        assert(region_end(map[i]) <= max_region_end(map));
    }
}

/// Frames come only from regions of type 7, UEFI's conventional memory: a
/// frame handed out starts on a 4 KiB boundary at or above 2 MiB and shares
/// addresses with a region whose type is exactly 7. So a map without a region of type
/// 7 yields no frame at all.
pub proof fn lemma_frames_only_from_type_seven(map: Seq<MemoryDescriptor>, s: AllocState)
    requires
        usable_regions_fit(map),
        walk_valid(map, s),
    ensures
        allocate(map, s).0 is Some ==> {
            let f = allocate(map, s).0.unwrap() as int;
            &&& f % 4096 == 0
            &&& f >= 0x20_0000
            &&& exists|i: int|
                0 <= i < map.len() && (#[trigger] map[i]).ty == 7 && map[i].phys_start < f + 4096
                    && f < map[i].phys_start + map[i].page_count * 4096
        },
        (forall|i: int| 0 <= i < map.len() ==> (#[trigger] map[i]).ty != 7) ==> allocate(
            map,
            s,
        ).0 is None,
{
    lemma_frame_in_usable_region(map, s);
    if allocate(map, s).0 is Some {
        let f = allocate(map, s).0.unwrap();
        let a = choose|a: int| in_usable_region(map, a) && f == align_down(a);
        let i = choose|i: int|
            0 <= i < map.len() && is_usable(#[trigger] map[i]) && map[i].phys_start <= a
                < region_end(map[i]) && a >= LOW_MEMORY_END;
        assert(map[i].ty == 7);
        lemma_align_down_monotone(LOW_MEMORY_END as int, a);
    }
}

/// Once the allocator has run out of frames it stays out of frames.
pub proof fn lemma_exhaustion_is_final(map: Seq<MemoryDescriptor>, s: AllocState)
    requires
        usable_regions_fit(map),
        walk_valid(map, s),
        allocate(map, s).0 is None,
    ensures
        allocate(map, allocate(map, s).1).0 is None,
        allocate(map, allocate(map, s).1).1 == allocate(map, s).1,
{
    lemma_allocate(map, s);
}

/// The highest end address bounds every region of the map, and is the end of
/// one of them unless the map is empty.
pub proof fn lemma_max_region_end(map: Seq<MemoryDescriptor>)
    ensures
        forall|i: int| 0 <= i < map.len() ==> region_end(#[trigger] map[i]) <= max_region_end(map),
        map.len() > 0 ==> exists|i: int|
            0 <= i < map.len() && max_region_end(map) == region_end(#[trigger] map[i]),
        map.len() == 0 ==> max_region_end(map) == 0,
    decreases map.len(),
{
    if map.len() > 0 {
        let rest = map.drop_last();
        lemma_max_region_end(rest);
        assert forall|i: int| 0 <= i < map.len() implies region_end(#[trigger] map[i])
            <= max_region_end(map) by {
            if i < map.len() - 1 {
                assert(map[i] == rest[i]);
            }
        }
        if region_end(map.last()) > max_region_end(rest) {
            assert(max_region_end(map) == region_end(map[map.len() - 1]));
        } else if rest.len() > 0 {
            let j = choose|j: int| 0 <= j < rest.len() && max_region_end(rest) == region_end(#[trigger] rest[j]);
            assert(map[j] == rest[j]);
        } else {
            assert(max_region_end(map) == region_end(map[map.len() - 1]));
        }
    }
}

/// Number of 4 KiB pages needed to hold `size` bytes: the fewest pages whose
/// bytes are at least `size`.
pub fn pages_needed(size: usize) -> (pages: usize)
    requires
        size + 4095 <= usize::MAX,
    ensures
        pages == (size + 4095) / 4096,
        pages * 4096 >= size,
        pages == 0 || (pages - 1) * 4096 < size,
{
    (size + 4095) / 4096
}

/// The state after `n` allocations from `s`.
pub open spec fn allocate_times(map: Seq<MemoryDescriptor>, s: AllocState, n: nat) -> AllocState
    decreases n,
{
    if n == 0 {
        s
    } else {
        allocate_times(map, allocate(map, s).1, (n - 1) as nat)
    }
}

/// The frame that allocation number `n` (counting from 0) from `s` hands out.
pub open spec fn nth_frame(map: Seq<MemoryDescriptor>, s: AllocState, n: nat) -> Option<u64> {
    allocate(map, allocate_times(map, s, n)).0
}

/// Any number of allocations keeps the state valid and never lowers the next
/// free address.
pub proof fn lemma_allocate_times(map: Seq<MemoryDescriptor>, s: AllocState, n: nat)
    requires
        usable_regions_fit(map),
        walk_valid(map, s),
    ensures
        walk_valid(map, allocate_times(map, s, n)),
        allocate_times(map, s, n).2 >= s.2,
    decreases n,
{
    if n > 0 {
        lemma_allocate(map, s);
        lemma_allocate_times(map, allocate(map, s).1, (n - 1) as nat);
    }
}

/// Allocation `i + n` starts from the state that `n` allocations leave after
/// the first `i`.
proof fn lemma_allocate_times_split(map: Seq<MemoryDescriptor>, s: AllocState, i: nat, n: nat)
    ensures
        allocate_times(map, s, i + n) == allocate_times(map, allocate_times(map, s, i), n),
    decreases i,
{
    if i > 0 {
        lemma_allocate_times_split(map, allocate(map, s).1, (i - 1) as nat, n);
        assert((i + n - 1) as nat == (i - 1) as nat + n);
    }
}

/// The allocator never hands out a frame twice: of any two allocations, with
/// any number of others between them, the later frame lies above the earlier.
pub proof fn lemma_frames_increase_across_calls(
    map: Seq<MemoryDescriptor>,
    s: AllocState,
    i: nat,
    j: nat,
)
    requires
        usable_regions_fit(map),
        walk_valid(map, s),
        i < j,
    ensures
        nth_frame(map, s, i) is Some && nth_frame(map, s, j) is Some ==> nth_frame(map, s, i).unwrap()
            + PAGE_SIZE <= nth_frame(map, s, j).unwrap(),
{
    let si = allocate_times(map, s, i);
    lemma_allocate_times(map, s, i);
    lemma_allocate(map, si);
    let after = allocate(map, si).1;
    let sj = allocate_times(map, after, (j - i - 1) as nat);
    lemma_allocate_times(map, after, (j - i - 1) as nat);
    lemma_allocate_times_split(map, s, i, (j - i) as nat);
    assert(allocate_times(map, si, (j - i) as nat) == sj);
    assert((i + (j - i)) as nat == j);
    lemma_allocate(map, sj);
    if nth_frame(map, s, i) is Some && nth_frame(map, s, j) is Some {
        lemma_align_down_monotone(after.2, sj.2);
    }
}

/// The map lists its regions in address order, without overlap, each
/// starting at a frame boundary.
pub open spec fn map_sorted(map: Seq<MemoryDescriptor>) -> bool {
    &&& forall|i: int| 0 <= i < map.len() ==> ((#[trigger] map[i]).phys_start as int) % (PAGE_SIZE as int) == 0
    &&& forall|i: int, j: int|
        0 <= i < j < map.len() ==> region_end(#[trigger] map[i]) <= (#[trigger] map[j]).phys_start
}

/// Frame `f` of region `k` is free and at or above `LOW_MEMORY_END`.
pub open spec fn free_frame_in(map: Seq<MemoryDescriptor>, k: int, f: int) -> bool {
    &&& 0 <= k < map.len()
    &&& is_usable(map[k])
    &&& f % (PAGE_SIZE as int) == 0
    &&& f >= LOW_MEMORY_END
    &&& map[k].phys_start <= f
    &&& f + PAGE_SIZE <= region_end(map[k])
}

/// `f` is a free frame at or above `LOW_MEMORY_END`.
pub open spec fn is_free_frame(map: Seq<MemoryDescriptor>, f: int) -> bool {
    exists|k: int| free_frame_in(map, k, f)
}

/// Frame `g` of region `k` still lies ahead of the walk in state `s`.
spec fn pending(map: Seq<MemoryDescriptor>, s: AllocState, k: int, g: int) -> bool {
    &&& free_frame_in(map, k, g)
    &&& g >= s.2
    &&& (k >= s.0 || (k == s.0 - 1 && s.1 == Some(map[k])))
}

/// One allocation from a state with a free frame `g` still ahead hands out a
/// frame at or below `g`, and `g` itself or a state with `g` still ahead.
proof fn lemma_allocate_reaches(map: Seq<MemoryDescriptor>, s: AllocState, k: int, g: int)
    requires
        map_sorted(map),
        usable_regions_fit(map),
        walk_valid(map, s),
        s.2 % (PAGE_SIZE as int) == 0,
        pending(map, s, k, g),
    ensures
        ({
            let (r, t) = allocate(map, s);
            &&& r is Some
            &&& r.unwrap() <= g
            &&& r.unwrap() == g || (pending(map, t, k, g) && t.2 % (PAGE_SIZE as int) == 0 && t.2
                > s.2)
        }),
    decreases map.len() - s.0,
{
    let pos = s.0;
    let next_page = match s.1 {
        Some(d) => bumped(s.2, d),
        None => s.2,
    };
    lemma_next_usable(map, pos);
    if s.1 is Some {
        let d = s.1.unwrap();
        assert(d == map[pos - 1]);
        assert((d.phys_start as int) % (PAGE_SIZE as int) == 0);
        if k > pos - 1 {
            assert(region_end(map[pos - 1]) <= map[k].phys_start);
        }
        assert(next_page <= g);
        assert(next_page % (PAGE_SIZE as int) == 0);
    }
    if s.1 is Some && next_page < region_end(s.1.unwrap()) {
        assert(align_down(next_page) == next_page);
    } else {
        if s.1 is Some && k == pos - 1 {
            assert(false);
        }
        assert(k >= pos);
        let i = next_usable(map, pos).unwrap();
        assert(i <= k);
        if i < k {
            assert(region_end(map[i]) <= map[k].phys_start);
        }
        assert((map[i].phys_start as int) % (PAGE_SIZE as int) == 0);
        lemma_allocate_reaches(map, (i + 1, Some(map[i]), next_page), k, g);
    }
}

/// From a state with free frame `g` still ahead, some allocation hands `g` out.
proof fn lemma_eventually_handed_out(map: Seq<MemoryDescriptor>, s: AllocState, k: int, g: int)
    requires
        map_sorted(map),
        usable_regions_fit(map),
        walk_valid(map, s),
        s.2 % (PAGE_SIZE as int) == 0,
        pending(map, s, k, g),
    ensures
        exists|n: nat| nth_frame(map, s, n) == Some(g as u64),
    decreases g - s.2,
{
    lemma_allocate_reaches(map, s, k, g);
    lemma_allocate(map, s);
    let (r, t) = allocate(map, s);
    if r.unwrap() == g {
        assert(nth_frame(map, s, 0) == Some(g as u64));
    } else {
        lemma_eventually_handed_out(map, t, k, g);
        let n = choose|n: nat| nth_frame(map, t, n) == Some(g as u64);
        assert(allocate_times(map, s, n + 1) == allocate_times(map, t, n));
        assert(nth_frame(map, s, n + 1) == Some(g as u64));
    }
}

/// Over a map in address order, without overlap and with frame-aligned
/// regions, a fresh allocator hands out exactly the free frames at or above
/// `LOW_MEMORY_END`: each frame it hands out is one, and each one is handed
/// out by some allocation. With `lemma_frames_increase_across_calls` they come
/// in ascending order, none twice.
pub proof fn lemma_hands_out_all_free_frames(map: Seq<MemoryDescriptor>)
    requires
        map_sorted(map),
        usable_regions_fit(map),
    ensures
        forall|n: nat|
            #![trigger nth_frame(map, (0int, None::<MemoryDescriptor>, 0int), n)]
            nth_frame(map, (0int, None::<MemoryDescriptor>, 0int), n) is Some ==> is_free_frame(
                map,
                nth_frame(map, (0int, None::<MemoryDescriptor>, 0int), n).unwrap() as int,
            ),
        forall|f: int|
            #[trigger] is_free_frame(map, f) ==> exists|n: nat|
                nth_frame(map, (0int, None::<MemoryDescriptor>, 0int), n) == Some(f as u64),
{
    let s0 = (0int, None::<MemoryDescriptor>, 0int);
    assert forall|n: nat|
        #![trigger nth_frame(map, s0, n)]
        nth_frame(map, s0, n) is Some implies is_free_frame(
        map,
        nth_frame(map, s0, n).unwrap() as int,
    ) by {
        let sn = allocate_times(map, s0, n);
        lemma_allocate_times(map, s0, n);
        lemma_frame_in_usable_region(map, sn);
        let f = nth_frame(map, s0, n).unwrap();
        let a = choose|a: int| in_usable_region(map, a) && f == align_down(a);
        let k = choose|k: int|
            0 <= k < map.len() && is_usable(#[trigger] map[k]) && map[k].phys_start <= a
                < region_end(map[k]) && a >= LOW_MEMORY_END;
        lemma_align_down_monotone(map[k].phys_start as int, a);
        assert((map[k].phys_start as int) % (PAGE_SIZE as int) == 0);
        assert(region_end(map[k]) % (PAGE_SIZE as int) == 0);
        lemma_align_down_monotone(LOW_MEMORY_END as int, a);
        assert(free_frame_in(map, k, f as int));
    }
    assert forall|f: int| #[trigger] is_free_frame(map, f) implies exists|n: nat|
        nth_frame(map, s0, n) == Some(f as u64) by {
        let k = choose|k: int| free_frame_in(map, k, f);
        lemma_eventually_handed_out(map, s0, k, f);
    }
}

/// A frame allocator that walks the firmware's memory map once.
pub struct UefiLegacyFrameAllocator {
    regions: Vec<MemoryDescriptor>,
    position: usize,
    current_descriptor: Option<MemoryDescriptor>,
    next_page: u64,
}

impl UefiLegacyFrameAllocator {
    #[verifier::type_invariant]
    spec fn walk_is_consistent(&self) -> bool {
        &&& self.position <= self.regions@.len()
        &&& self.current_descriptor matches Some(d) ==> {
            &&& 1 <= self.position
            &&& d == self.regions@[self.position - 1]
            &&& is_usable(d)
        }
    }

    /// The memory map the allocator walks.
    pub closed spec fn memory_map(&self) -> Seq<MemoryDescriptor> {
        self.regions@
    }

    /// Where the allocator stands in its walk.
    pub closed spec fn alloc_state(&self) -> AllocState {
        (self.position as int, self.current_descriptor, self.next_page as int)
    }

    /// Creates an allocator that will walk `memory_map` from its first entry.
    pub fn new(memory_map: Vec<MemoryDescriptor>) -> (alloc: Self)
        ensures
            alloc.memory_map() == memory_map@,
            alloc.alloc_state() == (0int, None::<MemoryDescriptor>, 0int),
            walk_valid(alloc.memory_map(), alloc.alloc_state()),
    {
        Self { regions: memory_map, position: 0, current_descriptor: None, next_page: 0 }
    }

    /// The first address past the highest region of the memory map, or 0 for an empty map.
    pub fn max_physical_address(&self) -> (r: u64)
        requires
            all_regions_fit(self.memory_map()),
        ensures
            r == max_region_end(self.memory_map()),
    {
        let n = self.regions.len();
        let mut best: u64 = 0;
        let mut i: usize = 0;
        while i < n
            invariant
                n == self.regions@.len(),
                all_regions_fit(self.regions@),
                0 <= i <= n,
                best == max_region_end(self.regions@.take(i as int)),
            decreases n - i,
        {
            let d = self.regions[i];
            assert(region_end(self.regions@[i as int]) <= u64::MAX);
            let end = d.phys_start + d.page_count * PAGE_SIZE;
            assert(self.regions@.take(i + 1).drop_last() =~= self.regions@.take(i as int));
            if end > best {
                best = end;
            }
            i = i + 1;
        }
        assert(self.regions@.take(n as int) =~= self.regions@);
        best
    }

    /// Walks `map` on from `from` to the next free region: gives that region
    /// and the position past it, or `None` and the end of the map.
    fn find_conventional(map: &Vec<MemoryDescriptor>, from: usize) -> (r: (
        Option<MemoryDescriptor>,
        usize,
    ))
        requires
            from <= map@.len(),
        ensures
            match next_usable(map@, from as int) {
                Some(i) => r.0 == Some(map@[i]) && r.1 == i + 1,
                None => r.0 is None && r.1 == map@.len(),
            },
    {
        let usable_type = conventional_memory_type();
        let n = map.len();
        let mut position = from;
        while position < n
            invariant
                n == map@.len(),
                from <= position <= n,
                usable_type == conventional(),
                next_usable(map@, from as int) == next_usable(map@, position as int),
            decreases n - position,
        {
            let d = map[position];
            position = position + 1;
            if d.ty == usable_type {
                return (Some(d), position);
            }
        }
        (None, position)
    }

    /// Hands out the next free 4 KiB frame, given by its start address, or
    /// `None` once the walk has passed the last free region.
    pub fn allocate_frame(&mut self) -> (frame: Option<u64>)
        requires
            usable_regions_fit(old(self).memory_map()),
        ensures
            (frame, final(self).alloc_state()) == allocate(
                old(self).memory_map(),
                old(self).alloc_state(),
            ),
            final(self).memory_map() == old(self).memory_map(),
            walk_valid(final(self).memory_map(), final(self).alloc_state()),
    {
        proof {
            use_type_invariant(&*self);
        }
        let ghost map = self.regions@;
        let ghost goal = allocate(map, self.alloc_state());
        loop
            invariant
                self.regions@ == map,
                map == old(self).memory_map(),
                goal == allocate(old(self).memory_map(), old(self).alloc_state()),
                usable_regions_fit(map),
                allocate(map, self.alloc_state()) == goal,
                self.position <= map.len(),
                self.current_descriptor matches Some(d) ==> {
                    &&& 1 <= self.position
                    &&& d == map[self.position - 1]
                    &&& is_usable(d)
                },
            decreases map.len() - self.position,
        {
            if let Some(desc) = self.current_descriptor {
                assert(region_end(map[self.position - 1]) <= PHYS_ADDR_LIMIT);
                let start = desc.phys_start;
                let end = start + (desc.page_count * PAGE_SIZE);
                if self.next_page < start {
                    self.next_page = start;
                }
                if self.next_page < LOW_MEMORY_END {
                    self.next_page = LOW_MEMORY_END;
                }
                if self.next_page < end {
                    let frame = containing_frame_start(self.next_page);
                    self.next_page = self.next_page + PAGE_SIZE;
                    return Some(frame);
                }
            }
            let (found, position) = Self::find_conventional(&self.regions, self.position);
            proof {
                lemma_next_usable(map, self.position as int);
            }
            self.current_descriptor = None;
            self.position = position;
            self.current_descriptor = found;
            if self.current_descriptor.is_none() {
                return None;
            }
        }
    }

    /// The memory map the allocator walks.
    pub fn descriptors(&self) -> (r: &[MemoryDescriptor])
        ensures
            r@ == self.memory_map(),
    {
        self.regions.as_slice()
    }

    /// Whether every free region of the map ends inside the physical address
    /// space, as `allocate_frame` needs.
    pub fn usable_regions_in_range(&self) -> (b: bool)
        ensures
            b == usable_regions_fit(self.memory_map()),
            b <==> forall|i: int|
                0 <= i < self.memory_map().len() && (#[trigger] self.memory_map()[i]).ty == 7
                    ==> self.memory_map()[i].phys_start + self.memory_map()[i].page_count * 4096
                    <= 0x10_0000_0000_0000,
    {
        proof {
            let map = self.memory_map();
            assert forall|i: int| 0 <= i < map.len() implies (is_usable(#[trigger] map[i])
                <==> map[i].ty == 7) && region_end(map[i]) == map[i].phys_start + map[i].page_count
                * 4096 by {}
        }
        let usable_type = conventional_memory_type();
        let n = self.regions.len();
        let mut i: usize = 0;
        while i < n
            invariant
                n == self.regions@.len(),
                0 <= i <= n,
                usable_type == conventional(),
                forall|j: int|
                    0 <= j < i && is_usable(#[trigger] self.regions@[j]) ==> region_end(
                        self.regions@[j],
                    ) <= PHYS_ADDR_LIMIT,
            decreases n - i,
        {
            let d = self.regions[i];
            if d.ty == usable_type {
                assert(self.regions@[i as int].ty == 7);
                if d.phys_start > PHYS_ADDR_LIMIT {
                    assert(region_end(self.regions@[i as int]) > PHYS_ADDR_LIMIT);
                    return false;
                }
                if d.page_count > (PHYS_ADDR_LIMIT - d.phys_start) / PAGE_SIZE {
                    assert(d.phys_start + d.page_count * 4096 > PHYS_ADDR_LIMIT) by (nonlinear_arith)
                        requires
                            d.page_count > (PHYS_ADDR_LIMIT - d.phys_start) / 4096,
                            d.phys_start <= PHYS_ADDR_LIMIT,
                    ;
                    assert(region_end(self.regions@[i as int]) > PHYS_ADDR_LIMIT);
                    return false;
                }
            }
            i = i + 1;
        }
        true
    }

    /// Whether every region of the map ends at an address that a `u64` holds,
    /// as `max_physical_address` needs.
    pub fn regions_in_range(&self) -> (b: bool)
        ensures
            b == all_regions_fit(self.memory_map()),
    {
        let n = self.regions.len();
        let mut i: usize = 0;
        while i < n
            invariant
                n == self.regions@.len(),
                0 <= i <= n,
                forall|j: int| 0 <= j < i ==> region_end(#[trigger] self.regions@[j]) <= u64::MAX,
            decreases n - i,
        {
            let d = self.regions[i];
            if d.page_count > (u64::MAX - d.phys_start) / PAGE_SIZE {
                return false;
            }
            i = i + 1;
        }
        true
    }
}

} // verus!
