//! Bump allocation: each request takes the next suitably aligned piece of
//! a fixed arena; what does not fit is handed to the system allocator and
//! remembered until the next reset.
use vstd::prelude::*;
use vstd::arithmetic::power2::is_pow2;
use vstd::layout::{valid_layout, layout_for_type_is_valid, size_of, align_of};

verus! {

/// The bytes in one arena.
pub const ARENA_SIZE: usize = 1048576;

/// The size of a cache line.
pub const CACHE_LINE_SIZE: usize = 64;

/// The memory a request is meant to use.
pub const REQUEST_MEMORY_TARGET: usize = 128;

/// Requests below this size go to the bump allocator.
pub const SMALL_ALLOC_THRESHOLD: usize = 1024;

/// `x` rounded up to a multiple of `a`.
pub open spec fn align_up(x: int, a: int) -> int {
    if x % a == 0 {
        x
    } else {
        x + (a - x % a)
    }
}

/// Where a request for `size` bytes aligned to `align` goes when the arena
/// is used up to `offset`: its offset in the arena, or `None` when it must
/// come from the system allocator.
pub open spec fn bump_place(offset: int, size: int, align: int) -> Option<int> {
    let at = align_up(offset, align);
    if at + size <= ARENA_SIZE {
        Some(at)
    } else {
        None
    }
}

/// Where an allocation was made.
#[derive(Debug, Clone, Copy, PartialEq, Eq, Structural)]
pub enum Placement {
    /// At this offset in the arena.
    Arena(usize),
    /// From the system allocator, with the layout remembered for the reset.
    Fallback,
}

/// The bookkeeping of a bump allocator: how much of the arena is used, and
/// the layouts `(size, align)` of the blocks taken from the system
/// allocator since the last reset.
pub struct BumpAllocator {
    offset: usize,
    fallbacks: Vec<(usize, usize)>,
}

impl BumpAllocator {
    /// The bytes of the arena in use.
    pub closed spec fn used(&self) -> nat {
        self.offset as nat
    }

    /// The layouts of the blocks taken from the system allocator.
    pub closed spec fn fallback_layouts(&self) -> Seq<(usize, usize)> {
        self.fallbacks@
    }

    /// An allocator with nothing allocated.
    pub fn new() -> (r: Self)
        ensures
            r.used() == 0,
            r.fallback_layouts() == Seq::<(usize, usize)>::empty(),
    {
        BumpAllocator { offset: 0, fallbacks: Vec::new() }
    }

    /// Places `size` bytes aligned to `align`: in the arena at the next
    /// aligned offset if they fit, else with the system allocator.
    pub fn allocate(&mut self, size: usize, align: usize) -> (r: Placement)
        requires
            valid_layout(size, align),
            old(self).used() <= ARENA_SIZE,
        ensures
            final(self).used() <= ARENA_SIZE,
            match bump_place(old(self).used() as int, size as int, align as int) {
                Some(at) => {
                    &&& r == Placement::Arena(at as usize)
                    &&& final(self).used() == at + size
                    &&& final(self).fallback_layouts() == old(self).fallback_layouts()
                },
                None => {
                    &&& r == Placement::Fallback
                    &&& final(self).used() == old(self).used()
                    &&& final(self).fallback_layouts() == old(self).fallback_layouts().push(
                        (size, align),
                    )
                },
            },
    {
        proof {
            reveal(is_pow2);
        }
        let at = aligned_offset(self.offset, align);
        if let Some(at) = at {
            if let Some(end) = at.checked_add(size) {
                if end <= ARENA_SIZE {
                    self.offset = end;
                    return Placement::Arena(at);
                }
            }
        }
        self.fallbacks.push((size, align));
        Placement::Fallback
    }

    /// Places a value of type `V`.
    pub fn alloc_typed<V>(&mut self) -> (r: Placement)
        requires
            old(self).used() <= ARENA_SIZE,
        ensures
            final(self).used() <= ARENA_SIZE,
            match bump_place(old(self).used() as int, size_of::<V>() as int, align_of::<V>() as int) {
                Some(at) => r == Placement::Arena(at as usize) && final(self).used() == at
                    + size_of::<V>(),
                None => r == Placement::Fallback && final(self).used() == old(self).used(),
            },
    {
        layout_for_type_is_valid::<V>();
        self.allocate(core::mem::size_of::<V>(), core::mem::align_of::<V>())
    }

    /// Forgets every allocation; gives back the layouts of the blocks that
    /// came from the system allocator, for freeing.
    pub fn reset(&mut self) -> (r: Vec<(usize, usize)>)
        ensures
            r@ == old(self).fallback_layouts(),
            final(self).used() == 0,
            final(self).fallback_layouts() == Seq::<(usize, usize)>::empty(),
    {
        let mut released: Vec<(usize, usize)> = Vec::new();
        std::mem::swap(&mut released, &mut self.fallbacks);
        self.offset = 0;
        released
    }
}

impl Default for BumpAllocator {
    fn default() -> (r: Self)
        ensures
            r.used() == 0,
            r.fallback_layouts() == Seq::<(usize, usize)>::empty(),
    {
        BumpAllocator::new()
    }
}

/// `offset` rounded up to a multiple of `align`, if that fits in a `usize`.
fn aligned_offset(offset: usize, align: usize) -> (r: Option<usize>)
    requires
        align > 0,
    ensures
        match r {
            Some(at) => at == align_up(offset as int, align as int),
            None => align_up(offset as int, align as int) > usize::MAX,
        },
{
    let rem = offset % align;
    if rem == 0 {
        Some(offset)
    } else {
        offset.checked_add(align - rem)
    }
}

/// The rounded-up offset is a multiple of `a` and the least one at or
/// after `x`.
pub proof fn lemma_align_up(x: int, a: int)
    requires
        x >= 0,
        a > 0,
    ensures
        align_up(x, a) % a == 0,
        x <= align_up(x, a) < x + a,
{
    if x % a != 0 {
        assert((x + (a - x % a)) % a == 0) by (nonlinear_arith)
            requires
                a > 0,
                x >= 0,
        {
            assert(x == a * (x / a) + x % a);
            assert(x + (a - x % a) == a * (x / a + 1));
        }
    }
}

/// Arena placements are aligned, lie inside the arena, and do not overlap:
/// the next placement starts at or after the end of this one.
pub proof fn lemma_bump_disjoint(offset: int, s1: int, a1: int, s2: int, a2: int)
    requires
        0 <= offset,
        s1 >= 0,
        s2 >= 0,
        a1 > 0,
        a2 > 0,
    ensures
        bump_place(offset, s1, a1) matches Some(at) ==> {
            &&& at % a1 == 0
            &&& offset <= at
            &&& at + s1 <= ARENA_SIZE
            &&& (bump_place(at + s1, s2, a2) matches Some(next) ==> at + s1 <= next)
        },
{
    lemma_align_up(offset, a1);
    if let Some(at) = bump_place(offset, s1, a1) {
        lemma_align_up(at + s1, a2);
    }
}

} // verus!
