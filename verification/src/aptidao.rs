use vstd::prelude::*;

verus! {

/// Scores a genome. The score is a function of the genome alone, so a
/// population may keep it beside the genome for as long as it likes.
pub trait Aptidao<Gene> {
    /// The score of `genes`. An evaluator that does not say leaves it
    /// open.
    open spec fn valor(&self, genes: &Gene) -> int {
        arbitrary()
    }

    fn calcular_aptidao(&self, genes: &Gene) -> (r: i64)
        ensures
            r == self.valor(genes),
    ;
}

/// The genome is its own score; scores above `i64::MAX` stay at `i64::MAX`.
#[derive(Clone, Copy)]
pub struct AptidaoSimples;

impl Aptidao<usize> for AptidaoSimples {
    open spec fn valor(&self, genes: &usize) -> int {
        if *genes <= i64::MAX {
            *genes as int
        } else {
            i64::MAX as int
        }
    }

    fn calcular_aptidao(&self, genes: &usize) -> (r: i64) {
        let g: u64 = *genes as u64;
        if g <= i64::MAX as u64 {
            g as i64
        } else {
            i64::MAX
        }
    }
}

} // verus!
