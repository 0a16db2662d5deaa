use crate::populacao::Individuo;
use crate::populacao::Populacao;
use vstd::multiset::Multiset;
use vstd::prelude::*;

/// Recombination of two genomes.
pub mod cruzamento;
/// Mutation of one genome.
pub mod mutacao;
/// Choice of the individuals that mate.
pub mod selecao;

verus! {

/// Makes a new generation out of a population.
///
/// The population handed in comes back with the individuals it had, each
/// as often as before, though maybe in another order: what is bred goes
/// into the population returned, which shares the evaluator.
pub trait Evolucao<Gene> {
    /// Whether the individuals `nova` can be what this evolution breeds
    /// from the individuals `antes`.
    open spec fn pode_evoluir(
        &self,
        antes: Seq<Individuo<Gene>>,
        nova: Seq<Individuo<Gene>>,
    ) -> bool {
        true
    }

    fn evoluir(&self, pop: &mut Populacao<Gene>) -> (nova: Populacao<Gene>)
        requires
            old(pop).bem_formada(),
        ensures
            final(pop).bem_formada(),
            final(pop).aparentada(old(pop)),
            final(pop).individuos@.to_multiset() == old(pop).individuos@.to_multiset(),
            nova.bem_formada(),
            nova.aparentada(old(pop)),
            self.pode_evoluir(old(pop).individuos@, nova.individuos@),
    ;
}

/// An evolution as a composite holds it. A composite keeps its parts
/// behind trait objects; going through this type lets what is known of
/// the evolution handed in stay known of the part kept.
pub struct Etapa<Evo> {
    pub evolucao: Evo,
}

impl<Gene, Evo: Evolucao<Gene>> Evolucao<Gene> for Etapa<Evo> {
    open spec fn pode_evoluir(
        &self,
        antes: Seq<Individuo<Gene>>,
        nova: Seq<Individuo<Gene>>,
    ) -> bool {
        self.evolucao.pode_evoluir(antes, nova)
    }

    fn evoluir(&self, pop: &mut Populacao<Gene>) -> (nova: Populacao<Gene>) {
        self.evolucao.evoluir(pop)
    }
}

/// One part of a composite evolution. The inner box is the trait object;
/// the outer one gives it a size, which a sequence in a contract asks of
/// what it holds.
pub type Parte<Gene> = Box<Box<dyn Evolucao<Gene>>>;

/// Whether `nova` can be what the first `i` of `partes` breed one after
/// the other, each from the individuals `todos` in some order, what a
/// part breeds standing behind what the parts before it bred.
pub open spec fn em_cadeia<Gene>(
    partes: Seq<Parte<Gene>>,
    i: int,
    todos: Multiset<Individuo<Gene>>,
    nova: Seq<Individuo<Gene>>,
) -> bool
    decreases i,
{
    if i <= 0 {
        nova.len() == 0
    } else {
        exists|k: int, antes: Seq<Individuo<Gene>>|
            {
                &&& 0 <= k <= nova.len()
                &&& antes.to_multiset() == todos
                &&& em_cadeia(partes, i - 1, todos, nova.take(k))
                &&& #[trigger] partes[i - 1].pode_evoluir(antes, nova.skip(k))
            }
    }
}

/// Several evolutions applied to one population, one after the other; the
/// new generation is what all of them bred, in that order.
#[verifier::reject_recursive_types(Gene)]
pub struct EvolucaoMista<Gene> {
    evolucoes: Vec<Parte<Gene>>,
}

impl<Gene> EvolucaoMista<Gene> {
    /// The parts, in the order in which they were added.
    pub closed spec fn evolucoes(&self) -> Seq<Parte<Gene>> {
        self.evolucoes@
    }

    /// A composite without parts: it breeds nothing.
    pub fn criar() -> (r: Self)
        ensures
            r.evolucoes().len() == 0,
    {
        EvolucaoMista { evolucoes: Vec::new() }
    }

    /// Adds `evolucao` as the last part.
    pub fn adicionar<Evo>(&mut self, evolucao: Evo) where Evo: Evolucao<Gene> + 'static
        ensures
            final(self).evolucoes().len() == old(self).evolucoes().len() + 1,
            final(self).evolucoes().drop_last() == old(self).evolucoes(),
            forall|antes: Seq<Individuo<Gene>>, nova: Seq<Individuo<Gene>>| #[trigger]
                final(self).evolucoes().last().pode_evoluir(antes, nova) == evolucao.pode_evoluir(
                    antes,
                    nova,
                ),
    {
        let caixa: Box<dyn Evolucao<Gene>> = Box::new(Etapa { evolucao });
        assert(forall|antes: Seq<Individuo<Gene>>, nova: Seq<Individuo<Gene>>| #[trigger]
            caixa.pode_evoluir(antes, nova) == evolucao.pode_evoluir(antes, nova));
        let parte = Box::new(caixa);
        assert(forall|antes: Seq<Individuo<Gene>>, nova: Seq<Individuo<Gene>>| #[trigger]
            parte.pode_evoluir(antes, nova) == evolucao.pode_evoluir(antes, nova));
        self.evolucoes.push(parte);
        assert(self.evolucoes@.drop_last() == old(self).evolucoes@);
    }
}

impl<Gene> Evolucao<Gene> for EvolucaoMista<Gene> {
    /// What the parts breed one after the other, each from the
    /// individuals of the population in the order the parts before it
    /// left them in.
    open spec fn pode_evoluir(
        &self,
        antes: Seq<Individuo<Gene>>,
        nova: Seq<Individuo<Gene>>,
    ) -> bool {
        em_cadeia(self.evolucoes(), self.evolucoes().len() as int, antes.to_multiset(), nova)
    }

    fn evoluir(&self, populacao: &mut Populacao<Gene>) -> (nova: Populacao<Gene>)
        ensures
            self.evolucoes().len() == 0 ==> final(populacao).individuos@ == old(populacao).individuos@,
    {
        let mut nova_populacao = populacao.preparar_nova_geracao();
        let n = self.evolucoes.len();
        let ghost todos = populacao.individuos@.to_multiset();
        let mut i: usize = 0;
        while i < n
            invariant
                i <= n,
                n == self.evolucoes@.len(),
                todos == old(populacao).individuos@.to_multiset(),
                populacao.bem_formada(),
                populacao.aparentada(old(populacao)),
                populacao.individuos@.to_multiset() == todos,
                nova_populacao.bem_formada(),
                nova_populacao.aparentada(old(populacao)),
                em_cadeia(self.evolucoes@, i as int, todos, nova_populacao.individuos@),
                n == 0 ==> populacao.individuos@ == old(populacao).individuos@,
            decreases n - i,
        {
            let ghost antes = populacao.individuos@;
            let ghost ate_aqui = nova_populacao.individuos@;
            let pop = self.evolucoes[i].evoluir(populacao);
            let ghost gerados = pop.individuos@;
            nova_populacao.reter(pop);
            proof {
                let k = ate_aqui.len() as int;
                let agora = nova_populacao.individuos@;
                assert(agora.take(k) == ate_aqui);
                assert(agora.skip(k) == gerados);
                assert(em_cadeia(self.evolucoes@, i as int + 1 - 1, todos, agora.take(k)));
                assert(self.evolucoes@[i as int + 1 - 1].pode_evoluir(antes, agora.skip(k)));
                assert(em_cadeia(self.evolucoes@, i as int + 1, todos, agora));
            }
            i += 1;
        }
        nova_populacao
    }
}

} // verus!
