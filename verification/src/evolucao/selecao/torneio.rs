use crate::aleatorio::Aleatorio;
use crate::evolucao::selecao::Seletor;
use crate::populacao::Individuo;
use crate::populacao::Populacao;
use vstd::multiset::Multiset;
use vstd::prelude::*;

verus! {

/// Draws some individuals at random and lets the two fittest of them
/// mate.
pub struct SelecaoPorTorneio {
    participantes: usize,
}

impl SelecaoPorTorneio {
    /// How many individuals a tournament draws.
    pub closed spec fn participantes(&self) -> usize {
        self.participantes
    }

    /// Whether a tournament can be held among `tamanho` individuals: it
    /// takes two at least, and as many as it draws.
    pub open spec fn possivel(&self, tamanho: nat) -> bool {
        2 <= self.participantes() <= tamanho
    }

    pub fn criar(participantes: usize) -> (r: Self)
        ensures
            r.participantes() == participantes,
    {
        SelecaoPorTorneio { participantes: participantes }
    }
}

impl<Gene> Seletor<Gene> for SelecaoPorTorneio {
    /// A tournament can be held among as many individuals as it draws,
    /// two at least.
    open spec fn pode_selecionar(&self, individuos: Multiset<Individuo<Gene>>) -> bool {
        self.possivel(individuos.len())
    }

    /// Holds a tournament where one can be held. Its winner comes first
    /// in the pair, the runner-up second; those that were drawn and lost
    /// are back at the end of the population, none of them fitter than
    /// the runner-up.
    fn seleciona(&self, pop: &mut Populacao<Gene>) -> (par: Option<
        (Individuo<Gene>, Individuo<Gene>),
    >)
        ensures
            par is Some <==> self.possivel(old(pop).individuos@.len()),
            par is None ==> final(pop).individuos@ == old(pop).individuos@,
            par matches Some((a, b)) ==> {
                &&& final(pop).individuos@.len() == old(pop).individuos@.len() - 2
                &&& !final(pop).operacao.supera(b.aptidao, a.aptidao)
                &&& forall|j: int|
                    old(pop).individuos@.len() - self.participantes() <= j
                        < final(pop).individuos@.len() ==> !final(pop).operacao.supera(
                        (#[trigger] final(pop).individuos@[j]).aptidao,
                        b.aptidao,
                    )
            },
    {
        let n = pop.individuos.len();
        proof {
            vstd::seq_lib::to_multiset_len(pop.individuos@);
        }
        if n < 2 || self.participantes < 2 || n < self.participantes {
            return None;
        }
        let mut torneio = pop.preparar_nova_geracao();
        let mut aleatorio = Aleatorio::criar();
        let mut i: usize = 0;
        proof {
            broadcast use vstd::multiset::group_multiset_axioms;

            assert(torneio.individuos@ =~= Seq::empty());
            torneio.individuos@.to_multiset_ensures();
            assert(torneio.individuos@.to_multiset() =~= vstd::multiset::Multiset::empty());
            assert(pop.individuos@.to_multiset().add(torneio.individuos@.to_multiset())
                =~= pop.individuos@.to_multiset());
        }
        while i < self.participantes
            invariant
                i <= self.participantes <= n,
                n == old(pop).individuos@.len(),
                pop.individuos@.len() == n - i,
                torneio.individuos@.len() == i,
                pop.aparentada(old(pop)),
                torneio.aparentada(old(pop)),
                pop.individuos@.to_multiset().add(torneio.individuos@.to_multiset())
                    == old(pop).individuos@.to_multiset(),
                old(pop).bem_formada() ==> pop.bem_formada() && torneio.bem_formada(),
            decreases self.participantes - i,
        {
            let idx = aleatorio.intervalo(0, pop.individuos.len());
            let ghost antes = pop.individuos@;
            let ghost sorteados = torneio.individuos@;
            let individuo = pop.individuos.remove(idx);
            torneio.reiterar(individuo);
            proof {
                broadcast use vstd::multiset::group_multiset_axioms;

                vstd::seq_lib::to_multiset_remove(antes, idx as int);
                vstd::seq_lib::to_multiset_build(sorteados, individuo);
                vstd::seq_lib::to_multiset_contains(antes, individuo);
                assert(antes.contains(individuo));
                assert(pop.individuos@.to_multiset().add(torneio.individuos@.to_multiset())
                    =~= antes.to_multiset().add(sorteados.to_multiset()));
                if old(pop).bem_formada() {
                    assert(pop.avaliado(antes[idx as int]));
                    assert forall|j: int| 0 <= j < pop.individuos@.len() implies pop.avaliado(
                        #[trigger] pop.individuos@[j],
                    ) by {
                        if j < idx {
                            assert(pop.individuos@[j] == antes[j]);
                        } else {
                            assert(pop.individuos@[j] == antes[j + 1]);
                        }
                    }
                }
            }
            i += 1;
        }
        let ghost sorteados = torneio.individuos@;
        let primeiro = torneio.remover_mais_apto();
        let ghost sem_primeiro = torneio.individuos@;
        let segundo = torneio.remover_mais_apto();
        let ghost restantes = torneio.individuos@;
        let ghost ficaram = pop.individuos@;
        let ghost op = pop.operacao;
        pop.individuos.append(&mut torneio.individuos);
        proof {
            broadcast use vstd::multiset::group_multiset_axioms;

            let onde_primeiro = crate::populacao::posicao_mais_apto(sorteados, op);
            let onde_segundo = crate::populacao::posicao_mais_apto(sem_primeiro, op);
            vstd::seq_lib::to_multiset_remove(sorteados, onde_primeiro);
            vstd::seq_lib::to_multiset_remove(sem_primeiro, onde_segundo);
            vstd::seq_lib::to_multiset_contains(sorteados, primeiro);
            vstd::seq_lib::to_multiset_contains(sem_primeiro, segundo);
            assert(sorteados.contains(primeiro));
            assert(sem_primeiro.contains(segundo));
            vstd::seq_lib::lemma_multiset_commutative(ficaram, restantes);
            assert(pop.individuos@.to_multiset().insert(primeiro).insert(segundo)
                =~= old(pop).individuos@.to_multiset());
            assert forall|j: int|
                n - self.participantes() <= j < pop.individuos@.len() implies !op.supera(
                (#[trigger] pop.individuos@[j]).aptidao,
                segundo.aptidao,
            ) by {
                let k = j - ficaram.len();
                assert(pop.individuos@[j] == restantes[k]);
                if k < onde_segundo {
                    assert(restantes[k] == sem_primeiro[k]);
                } else {
                    assert(restantes[k] == sem_primeiro[k + 1]);
                }
            }
            assert(!op.supera(segundo.aptidao, primeiro.aptidao)) by {
                if onde_segundo < onde_primeiro {
                    assert(sem_primeiro[onde_segundo] == sorteados[onde_segundo]);
                } else {
                    assert(sem_primeiro[onde_segundo] == sorteados[onde_segundo + 1]);
                }
            }
            if old(pop).bem_formada() {
                assert(torneio.bem_formada());
                assert forall|j: int| 0 <= j < pop.individuos@.len() implies pop.avaliado(
                    #[trigger] pop.individuos@[j],
                ) by {
                    if j >= ficaram.len() {
                        assert(pop.individuos@[j] == restantes[j - ficaram.len()]);
                    } else {
                        assert(pop.individuos@[j] == ficaram[j]);
                    }
                }
            }
        }
        Some((primeiro, segundo))
    }
}

} // verus!
