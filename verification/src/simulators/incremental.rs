use vstd::prelude::*;

use crate::common::traits::Simulator;
use crate::common::types::{lemma_grid_index, CoreError, Grid, Path};

verus! {

/// A simulator in which observing a cell consumes its value and unobserved
/// cells regenerate toward a fixed baseline.
pub struct Incremental {
    /// How much a depleted cell recovers per executed step.
    pub increment_step: u8,
    /// The baseline grid that cells recover toward.
    pub start_grid: Grid,
}

/// One cell of the recovery pass: a cell below its baseline value rises by
/// the increment step, saturating at the cell maximum; other cells keep
/// their value.
pub open spec fn spec_recover_cell(baseline: u8, v: u8, step: u8) -> u8 {
    if baseline > v {
        v.saturating_add(step)
    } else {
        v
    }
}

/// The grid data after one simulated step: the executed cell is consumed
/// (set to zero) and then every cell below its baseline recovers by the
/// increment step.
pub open spec fn spec_advanced_data(baseline: Seq<u8>, data: Seq<u8>, idx0: int, step: u8) -> Seq<
    u8,
> {
    Seq::new(data.len(), |i: int| spec_recover_cell(baseline[i], data.update(idx0, 0u8)[i], step))
}

impl Incremental {
    /// Recovers each cell of `b` that lies below its baseline value by the
    /// increment step, saturating at the cell maximum.
    fn recover(&self, b: &mut Vec<u8>)
        requires
            old(b)@.len() == self.start_grid.data@.len(),
        ensures
            final(b)@.len() == old(b)@.len(),
            forall|i: int|
                0 <= i < old(b)@.len() ==> final(b)@[i] == spec_recover_cell(
                    self.start_grid.data@[i],
                    #[trigger] old(b)@[i],
                    self.increment_step,
                ),
    {
        let mut i: usize = 0;
        let n = b.len();
        while i < n
            invariant
                n == b@.len(),
                b@.len() == old(b)@.len(),
                b@.len() == self.start_grid.data@.len(),
                i <= n,
                forall|j: int|
                    0 <= j < i ==> b@[j] == spec_recover_cell(
                        self.start_grid.data@[j],
                        #[trigger] old(b)@[j],
                        self.increment_step,
                    ),
                forall|j: int| i <= j < n ==> b@[j] == #[trigger] old(b)@[j],
            decreases n - i,
        {
            let a_elem = self.start_grid.data[i];
            let b_elem = b[i];
            if a_elem > b_elem {
                b[i] = b_elem.saturating_add(self.increment_step);
            }
            i = i + 1;
        }
    }
}

impl Simulator for Incremental {
    open spec fn fits(&self, size: usize) -> bool {
        self.start_grid.wf() && self.start_grid.size == size
    }

    /// Consumes the first step of `path`: that cell's value drops to zero
    /// in a copy of `grid`, every cell below its baseline then recovers by
    /// the increment step, and the path's second step becomes the agent's
    /// next position.
    fn solve(&self, grid: &Grid, path: &Path) -> (r: Result<(Grid, (usize, usize)), CoreError>)
        ensures
            match r {
                Ok((g2, pos)) => {
                    &&& pos == path.steps@[1]
                    &&& g2.size == grid.size
                    &&& g2.data@ == spec_advanced_data(
                        self.start_grid.data@,
                        grid.data@,
                        path.steps@[0].0 * grid.size + path.steps@[0].1,
                        self.increment_step,
                    )
                },
                Err(e) => e == CoreError::PathTooShort,
            },
    {
        if path.steps.len() < 2 {
            return Err(CoreError::PathTooShort);
        }
        let (x, y) = path.steps[0];
        let mut out_grid = grid.clone();
        let n = out_grid.data.len();
        proof {
            lemma_grid_index(grid.size as int, x as int, y as int);
        }
        let idx = x * out_grid.size + y;
        out_grid.data[idx] = 0;
        let ghost depleted = out_grid.data@;
        self.recover(&mut out_grid.data);
        proof {
            assert(out_grid.data@ =~= spec_advanced_data(
                self.start_grid.data@,
                grid.data@,
                x as int * grid.size + y as int,
                self.increment_step,
            ));
        }
        Ok((out_grid, path.steps[1]))
    }
}

} // verus!
