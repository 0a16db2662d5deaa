use crate::populacao::Populacao;
use vstd::prelude::*;

verus! {

/// Watches a search: it is shown the population the search starts from
/// and each generation after it. It only looks.
pub trait ObservadorEvolucao<Gene> {
    /// Whether the observer can be shown `pop`. One that takes the best
    /// or the mean of what it is shown, say, cannot be shown a
    /// population without individuals.
    open spec fn pode_observar(&self, pop: &Populacao<Gene>) -> bool {
        true
    }

    /// Called once, before the first generation.
    fn inicio(&self, pop: &Populacao<Gene>)
        requires
            self.pode_observar(pop),
    ;

    /// Called for each generation, with its number, counted from one.
    fn geracao(&self, geracao: usize, pop: &Populacao<Gene>)
        requires
            self.pode_observar(pop),
    ;
}

/// Sees nothing and says nothing, whatever it is shown.
pub struct ObservadorEvolucaoVazio;

impl<Gene> ObservadorEvolucao<Gene> for ObservadorEvolucaoVazio {
    fn inicio(&self, _pop: &Populacao<Gene>) {
    }

    fn geracao(&self, _geracao: usize, _pop: &Populacao<Gene>) {
    }
}

/// An observer as a search holds it. A search keeps its observer behind
/// a trait object; going through this type lets what is known of the
/// observer handed in stay known of the one kept.
pub struct Vigia<Obs> {
    pub observador: Obs,
}

impl<Gene, Obs: ObservadorEvolucao<Gene>> ObservadorEvolucao<Gene> for Vigia<Obs> {
    open spec fn pode_observar(&self, pop: &Populacao<Gene>) -> bool {
        self.observador.pode_observar(pop)
    }

    fn inicio(&self, pop: &Populacao<Gene>) {
        self.observador.inicio(pop)
    }

    fn geracao(&self, geracao: usize, pop: &Populacao<Gene>) {
        self.observador.geracao(geracao, pop)
    }
}

} // verus!
