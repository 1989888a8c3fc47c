use vstd::prelude::*;

verus! {

/// The available renderer backends, in the order in which they are cycled through.
#[derive(Clone, Copy, Debug, PartialEq, Eq, Structural)]
pub enum RendererChoice {
    SingleThreadRaster,
    MultiThreadRaster,
    Gpu,
    Vulkan,
}

/// Number of renderer backends.
pub const RENDERER_COUNT: usize = 4;

/// Position of a backend in the cycling order.
pub open spec fn choice_index(c: RendererChoice) -> int {
    match c {
        RendererChoice::SingleThreadRaster => 0,
        RendererChoice::MultiThreadRaster => 1,
        RendererChoice::Gpu => 2,
        RendererChoice::Vulkan => 3,
    }
}

/// The backend at position `i` of the cycling order.
pub open spec fn choice_at(i: int) -> RendererChoice {
    if i == 0 {
        RendererChoice::SingleThreadRaster
    } else if i == 1 {
        RendererChoice::MultiThreadRaster
    } else if i == 2 {
        RendererChoice::Gpu
    } else {
        RendererChoice::Vulkan
    }
}

/// The backend reached from `c` after `n` steps of cycling.
pub open spec fn cycled(c: RendererChoice, n: nat) -> RendererChoice
    decreases n,
{
    if n == 0 {
        c
    } else {
        choice_at((choice_index(cycled(c, (n - 1) as nat)) + 1) % (RENDERER_COUNT as int))
    }
}

impl RendererChoice {
    /// Every backend, in cycling order.
    pub fn all() -> (choices: [RendererChoice; 4])
        ensures
            forall|i: int| 0 <= i < 4 ==> #[trigger] choices@[i] == choice_at(i),
    {
        [
            RendererChoice::SingleThreadRaster,
            RendererChoice::MultiThreadRaster,
            RendererChoice::Gpu,
            RendererChoice::Vulkan,
        ]
    }

    /// The backend that follows this one, wrapping around after the last.
    pub fn next(self) -> (r: RendererChoice)
        ensures
            r == choice_at((choice_index(self) + 1) % (RENDERER_COUNT as int)),
    {
        let choices = RendererChoice::all();
        let mut idx: usize = 0;
        while idx < RENDERER_COUNT
            invariant
                idx <= choice_index(self),
                forall|j: int| 0 <= j < 4 ==> #[trigger] choices@[j] == choice_at(j),
            ensures
                idx == choice_index(self),
            decreases RENDERER_COUNT - idx,
        {
            if choices[idx] == self {
                break;
            }
            idx = idx + 1;
        }
        choices[(idx + 1) % RENDERER_COUNT]
    }
}

/// Cycling visits every backend once before coming back: after `n` steps from `c` the
/// backend is the one `n` places further along the order, so after four steps it is `c`
/// again.
pub proof fn lemma_cycling_visits_all(c: RendererChoice, n: nat)
    ensures
        choice_index(cycled(c, n)) == (choice_index(c) + n) % (RENDERER_COUNT as int),
        cycled(c, RENDERER_COUNT as nat) == c,
    decreases n,
{
    if n > 0 {
        lemma_cycling_visits_all(c, (n - 1) as nat);
        let prev = choice_index(cycled(c, (n - 1) as nat));
        assert((prev + 1) % 4 == (choice_index(c) + n) % 4) by {
            vstd::arithmetic::div_mod::lemma_add_mod_noop(choice_index(c) + n - 1, 1, 4);
            vstd::arithmetic::div_mod::lemma_mod_twice(choice_index(c) + n - 1, 4);
        }
    }
    assert(cycled(c, 4) == c) by {
        reveal_with_fuel(cycled, 5);
    }
}

} // verus!
