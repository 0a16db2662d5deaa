use crate::populacao::Individuo;
use crate::populacao::Populacao;
use vstd::multiset::Multiset;
use vstd::prelude::*;

/// Selection by a wheel on which each individual has a share.
pub mod roleta;
/// Selection by tournament.
pub mod torneio;

pub use self::roleta::SeletorPorRoleta;
pub use self::torneio::SelecaoPorTorneio;

verus! {

/// Chooses two individuals of a population to mate.
pub trait Seletor<Gene> {
    /// Whether a pair can be chosen among `individuos`, in whatever order
    /// they stand. A selector that does not say leaves it open.
    open spec fn pode_selecionar(&self, individuos: Multiset<Individuo<Gene>>) -> bool {
        arbitrary()
    }

    /// Takes a pair out of `pop`, or nothing where no pair can be chosen.
    /// What is not chosen stays, each individual as often as before;
    /// bringing the pair back, or dropping it, is up to the caller.
    fn seleciona(&self, pop: &mut Populacao<Gene>) -> (par: Option<
        (Individuo<Gene>, Individuo<Gene>),
    >)
        ensures
            par is Some <==> self.pode_selecionar(old(pop).individuos@.to_multiset()),
            final(pop).aparentada(old(pop)),
            par is None ==> final(pop).individuos@.to_multiset() == old(
                pop,
            ).individuos@.to_multiset(),
            par matches Some((a, b)) ==> final(pop).individuos@.to_multiset().insert(a).insert(b)
                == old(pop).individuos@.to_multiset(),
            old(pop).bem_formada() ==> final(pop).bem_formada() && (par matches Some((a, b))
                ==> final(pop).avaliado(a) && final(pop).avaliado(b)),
    ;
}

} // verus!
