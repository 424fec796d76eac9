//! Initial population: a number of uniform random draws over the cell
//! indices, each setting its cell alive. Draws may repeat, so fewer cells than
//! draws may end up alive.

use vstd::prelude::*;
use rand::Rng;
use crate::world::World;

verus! {

/// The cells after setting alive, in order, the cell of each draw.
pub open spec fn seeded(cells: Seq<bool>, draws: Seq<usize>) -> Seq<bool>
    decreases draws.len(),
{
    if draws.len() == 0 {
        cells
    } else {
        seeded(cells, draws.drop_last()).update(draws.last() as int, true)
    }
}

/// Whether some draw in `draws` is `i`.
pub open spec fn drawn(draws: Seq<usize>, i: int) -> bool {
    exists|j: int| 0 <= j < draws.len() && draws[j] == i
}

/// After seeding, a cell is alive exactly when it was alive before or some
/// draw hit it; how often it was drawn does not matter.
pub proof fn lemma_seeded_cells(cells: Seq<bool>, draws: Seq<usize>)
    requires
        forall|j: int| 0 <= j < draws.len() ==> #[trigger] draws[j] < cells.len(),
    ensures
        seeded(cells, draws).len() == cells.len(),
        forall|i: int|
            0 <= i < cells.len() ==> #[trigger] seeded(cells, draws)[i] == (cells[i] || drawn(
                draws,
                i,
            )),
    decreases draws.len(),
{
    if draws.len() > 0 {
        let rest = draws.drop_last();
        lemma_seeded_cells(cells, rest);
        assert forall|i: int| 0 <= i < cells.len() implies #[trigger] seeded(cells, draws)[i] == (
        cells[i] || drawn(draws, i)) by {
            if drawn(draws, i) && !drawn(rest, i) {
                let j = choose|j: int| 0 <= j < draws.len() && draws[j] == i;
                if j < rest.len() {
                    assert(rest[j] == i);
                }
            }
            if drawn(rest, i) {
                let j = choose|j: int| 0 <= j < rest.len() && rest[j] == i;
                assert(draws[j] == i);
            }
        }
    }
}

/// Relies on rand's `thread_rng` and `Rng::gen_range`: a draw from `0..bound`,
/// which lies below `bound` (the range is non-empty, so the call does not panic).
#[verifier::external_body]
fn random_index(bound: usize) -> (r: usize)
    requires
        bound > 0,
    ensures
        r < bound,
{
    rand::thread_rng().gen_range(0..bound)
}

impl World {
    /// Sets alive the cell of each index in `draws`, in order; a repeated
    /// index changes nothing the second time.
    pub fn seed_cells(&mut self, draws: &Vec<usize>)
        requires
            old(self).wf(),
            forall|j: int| 0 <= j < draws@.len() ==> #[trigger] draws@[j] < old(self).cells().len(),
        ensures
            final(self).wf(),
            final(self).width_spec() == old(self).width_spec(),
            final(self).height_spec() == old(self).height_spec(),
            final(self).cells() == seeded(old(self).cells(), draws@),
    {
        let ghost start = self.cells();
        for k in 0..draws.len()
            invariant
                self.wf(),
                self.width_spec() == old(self).width_spec(),
                self.height_spec() == old(self).height_spec(),
                start == old(self).cells(),
                self.cells().len() == start.len(),
                forall|j: int| 0 <= j < draws@.len() ==> #[trigger] draws@[j] < start.len(),
                self.cells() == seeded(start, draws@.take(k as int)),
        {
            self.set(draws[k], true);
            assert(draws@.take(k + 1).drop_last() =~= draws@.take(k as int));
        }
        assert(draws@.take(draws.len() as int) =~= draws@);
    }

    /// Makes `target` uniform random draws over the cell indices and sets each
    /// drawn cell alive.
    pub fn seed(&mut self, target: usize)
        requires
            old(self).wf(),
        ensures
            final(self).wf(),
            final(self).width_spec() == old(self).width_spec(),
            final(self).height_spec() == old(self).height_spec(),
            exists|draws: Seq<usize>|
                {
                    &&& draws.len() == target
                    &&& forall|j: int| 0 <= j < draws.len() ==> #[trigger] draws[j] < old(self).cells().len()
                    &&& final(self).cells() == #[trigger] seeded(old(self).cells(), draws)
                },
    {
        let n = self.size();
        proof {
            self.lemma_shape();
        }
        let mut draws: Vec<usize> = Vec::new();
        for k in 0..target
            invariant
                n == self.cells().len(),
                n > 0,
                draws@.len() == k,
                forall|j: int| 0 <= j < draws@.len() ==> #[trigger] draws@[j] < n,
        {
            draws.push(random_index(n));
        }
        self.seed_cells(&draws);
    }
}

} // verus!
