use crate::evolucao::Evolucao;
use crate::objetivo::Objetivo;
use crate::observador::ObservadorEvolucao;
use crate::observador::ObservadorEvolucaoVazio;
use crate::observador::Vigia;
use crate::populacao::mais_aptos;
use crate::populacao::posicao_mais_apto;
use crate::populacao::Individuo;
use crate::populacao::Operacao;
use crate::populacao::Populacao;
use vstd::prelude::*;

verus! {

/// A search: a population, the evolution that breeds its generations and
/// the objective that ends it. The parts can be exchanged one by one.
#[verifier::reject_recursive_types(Gene)]
pub struct Genetico<Gene, Evol, Obj> where Evol: Evolucao<Gene>, Obj: Objetivo<Gene> {
    /// The population to start from.
    pub populacao: Populacao<Gene>,
    pub evolucao: Evol,
    pub objetivo: Obj,
    /// Who watches the search. The inner box is the trait object; the
    /// outer one gives it a size, which a field in a contract asks of what
    /// it holds.
    pub observador: Box<Box<dyn ObservadorEvolucao<Gene>>>,
    /// Whether a generation competes with the one it was bred from for
    /// the places in the population.
    pub elitismo: bool,
}

/// The individuals that are left of `filhos`, bred from `pais`: the
/// fittest `tamanho` of them, together with the parents under elitism.
pub open spec fn restam<Gene>(
    pais: Seq<Individuo<Gene>>,
    filhos: Seq<Individuo<Gene>>,
    elitismo: bool,
    op: Operacao,
    tamanho: nat,
) -> Seq<Individuo<Gene>> {
    if elitismo {
        mais_aptos(filhos + pais, op, tamanho)
    } else {
        mais_aptos(filhos, op, tamanho)
    }
}

/// The individuals that a generation leaves for the next: the fittest
/// `tamanho` of what was bred, together with the parents under elitism.
pub open spec fn sobreviventes<Gene>(
    pais: Populacao<Gene>,
    filhos: Populacao<Gene>,
    elitismo: bool,
    tamanho: nat,
) -> Seq<Individuo<Gene>> {
    restam(pais.individuos@, filhos.individuos@, elitismo, filhos.operacao, tamanho)
}

/// The individual that a search takes out of a generation: the fittest,
/// the earliest one where several are equally fit.
pub open spec fn mais_apto_de<Gene>(geracao: Seq<Individuo<Gene>>, op: Operacao) -> Individuo<Gene> {
    geracao[posicao_mais_apto(geracao, op)]
}

/// A generation as the evolution gets it: the fittest has been taken
/// out and put back behind the others.
pub open spec fn com_mais_apto_no_fim<Gene>(geracao: Seq<Individuo<Gene>>, op: Operacao) -> Seq<
    Individuo<Gene>,
> {
    geracao.remove(posicao_mais_apto(geracao, op)).push(mais_apto_de(geracao, op))
}

/// Whether `depois` can follow `antes` as a generation: it is what is
/// left of something that the evolution can breed from `antes`, the
/// evolution having left the parents in whatever order.
pub open spec fn sucede<Gene, Evol>(
    evolucao: Evol,
    elitismo: bool,
    tamanho: nat,
    op: Operacao,
    antes: Seq<Individuo<Gene>>,
    depois: Seq<Individuo<Gene>>,
) -> bool where Evol: Evolucao<Gene> {
    exists|pais: Seq<Individuo<Gene>>, filhos: Seq<Individuo<Gene>>|
        {
            &&& pais.to_multiset() == antes.to_multiset()
            &&& evolucao.pode_evoluir(com_mais_apto_no_fim(antes, op), filhos)
            &&& depois == #[trigger] restam(pais, filhos, elitismo, op, tamanho)
        }
}

/// Whether `geracoes` and `objetivos` are the generations of a search
/// and the states in which its objective is asked about each: the
/// search begins with its population and its objective; every
/// generation but the last has a fittest individual that does not
/// satisfy the objective, and is followed by one that can follow it;
/// and every generation is one of the search (see [`geracao_de`]).
pub open spec fn percurso<Gene, Evol, Obj>(
    busca: Genetico<Gene, Evol, Obj>,
    geracoes: Seq<Seq<Individuo<Gene>>>,
    objetivos: Seq<Obj>,
) -> bool where Evol: Evolucao<Gene>, Obj: Objetivo<Gene> {
    let op = busca.populacao.operacao;
    let tamanho = busca.populacao.individuos@.len();
    &&& geracoes.len() >= 1
    &&& objetivos.len() == geracoes.len()
    &&& geracoes[0] == busca.populacao.individuos@
    &&& objetivos[0] == busca.objetivo
    &&& forall|k: int|
        0 <= k < geracoes.len() - 1 ==> {
            &&& (#[trigger] geracoes[k]).len() > 0
            &&& !objetivos[k].resposta(&mais_apto_de(geracoes[k], op))
            &&& sucede(busca.evolucao, busca.elitismo, tamanho, op, geracoes[k], geracoes[k + 1])
        }
    &&& forall|k: int, i: int|
        0 <= k < geracoes.len() && 0 <= i < geracoes[k].len() ==> busca.populacao.avaliado(
            #[trigger] geracoes[k][i],
        )
    &&& forall|k: int| 0 <= k < geracoes.len() ==> (#[trigger] geracoes[k]).len() <= tamanho
}

/// Whether a search can end with `genes` by way of `geracoes` and
/// `objetivos`: they are the genome of the fittest of the last
/// generation, which satisfies the objective; under elitism it is not
/// less fit than the fittest of the first.
pub open spec fn chega<Gene, Evol, Obj>(
    busca: Genetico<Gene, Evol, Obj>,
    geracoes: Seq<Seq<Individuo<Gene>>>,
    objetivos: Seq<Obj>,
    genes: Gene,
) -> bool where Evol: Evolucao<Gene>, Obj: Objetivo<Gene> {
    let op = busca.populacao.operacao;
    &&& percurso(busca, geracoes, objetivos)
    &&& geracoes.last().len() > 0
    &&& objetivos.last().resposta(&mais_apto_de(geracoes.last(), op))
    &&& genes == mais_apto_de(geracoes.last(), op).genes
    &&& busca.elitismo ==> !op.supera(
        mais_apto_de(geracoes[0], op).aptidao,
        mais_apto_de(geracoes.last(), op).aptidao,
    )
}

/// Whether a search can end without a result by way of `geracoes` and
/// `objetivos`: the last generation is empty, or it is one more than
/// can be counted and its fittest does not satisfy the objective.
pub open spec fn desiste<Gene, Evol, Obj>(
    busca: Genetico<Gene, Evol, Obj>,
    geracoes: Seq<Seq<Individuo<Gene>>>,
    objetivos: Seq<Obj>,
) -> bool where Evol: Evolucao<Gene>, Obj: Objetivo<Gene> {
    let op = busca.populacao.operacao;
    &&& percurso(busca, geracoes, objetivos)
    &&& geracoes.last().len() == 0 || (geracoes.len() > usize::MAX
        && !objetivos.last().resposta(&mais_apto_de(geracoes.last(), op)))
}

/// A search that has not ended goes on by one generation that can
/// follow the last.
proof fn lema_percurso_cresce<Gene, Evol, Obj>(
    busca: Genetico<Gene, Evol, Obj>,
    geracoes: Seq<Seq<Individuo<Gene>>>,
    objetivos: Seq<Obj>,
    objetivo: Obj,
    depois: Seq<Individuo<Gene>>,
) where Evol: Evolucao<Gene>, Obj: Objetivo<Gene>
    requires
        percurso(busca, geracoes, objetivos),
        geracoes.last().len() > 0,
        !objetivos.last().resposta(&mais_apto_de(geracoes.last(), busca.populacao.operacao)),
        sucede(
            busca.evolucao,
            busca.elitismo,
            busca.populacao.individuos@.len(),
            busca.populacao.operacao,
            geracoes.last(),
            depois,
        ),
        depois.len() <= busca.populacao.individuos@.len(),
        forall|i: int| 0 <= i < depois.len() ==> busca.populacao.avaliado(#[trigger] depois[i]),
    ensures
        percurso(busca, geracoes.push(depois), objetivos.push(objetivo)),
{
    let op = busca.populacao.operacao;
    let tamanho = busca.populacao.individuos@.len();
    let g = geracoes.push(depois);
    let o = objetivos.push(objetivo);
    assert(g[0] == geracoes[0]);
    assert(o[0] == objetivos[0]);
    assert forall|j: int| 0 <= j < g.len() - 1 implies {
        &&& (#[trigger] g[j]).len() > 0
        &&& !o[j].resposta(&mais_apto_de(g[j], op))
        &&& sucede(busca.evolucao, busca.elitismo, tamanho, op, g[j], g[j + 1])
    } by {
        assert(g[j] == geracoes[j]);
        assert(o[j] == objetivos[j]);
        if j < geracoes.len() - 1 {
            assert(g[j + 1] == geracoes[j + 1]);
        } else {
            assert(g[j + 1] == depois);
        }
    }
    assert forall|j: int, i: int|
        0 <= j < g.len() && 0 <= i < g[j].len() implies busca.populacao.avaliado(
        #[trigger] g[j][i],
    ) by {
        if j < geracoes.len() {
            assert(g[j] == geracoes[j]);
        }
    }
    assert forall|j: int| 0 <= j < g.len() implies (#[trigger] g[j]).len() <= tamanho by {
        if j < geracoes.len() {
            assert(g[j] == geracoes[j]);
        }
    }
}

/// Under elitism the fittest of what is left is not less fit than any
/// of the parents.
pub proof fn lei_elitismo<Gene>(
    pais: Seq<Individuo<Gene>>,
    filhos: Seq<Individuo<Gene>>,
    op: Operacao,
    tamanho: nat,
    x: Individuo<Gene>,
)
    requires
        tamanho >= 1,
        pais.contains(x),
    ensures
        restam(pais, filhos, true, op, tamanho).len() >= 1,
        !op.supera(x.aptidao, mais_apto_de(restam(pais, filhos, true, op, tamanho), op).aptidao),
{
    let todos = filhos + pais;
    let r = crate::populacao::ranking(todos, op);
    let d = restam(pais, filhos, true, op, tamanho);
    crate::populacao::lei_ranking_em_ordem(todos, op);
    crate::populacao::lei_ranking_permuta(todos, op);
    let w0 = choose|w: int| 0 <= w < pais.len() && pais[w] == x;
    assert(todos[filhos.len() + w0] == x);
    assert(todos.contains(x));
    vstd::seq_lib::to_multiset_contains(todos, x);
    vstd::seq_lib::to_multiset_contains(r, x);
    let w = choose|w: int| 0 <= w < r.len() && r[w] == x;
    assert(!op.supera(r[w].aptidao, r[0].aptidao)) by {
        if w > 0 {
            assert(!op.supera(r[w].aptidao, r[0].aptidao));
        }
    }
    assert(d.len() >= 1);
    assert(d[0] == r[0]);
    crate::populacao::lei_posicao_mais_apto(d, op);
    let k = posicao_mais_apto(d, op);
    assert(!op.supera(d[0].aptidao, d[k].aptidao));
}

/// The population that follows `pais` when `filhos` were bred from it.
pub fn sucessora<Gene>(
    pais: Populacao<Gene>,
    filhos: Populacao<Gene>,
    elitismo: bool,
    tamanho: usize,
) -> (r: Populacao<Gene>)
    ensures
        r.individuos@ == sobreviventes(pais, filhos, elitismo, tamanho as nat),
        r.aparentada(&filhos),
        filhos.bem_formada() && (elitismo ==> pais.bem_formada() && pais.aptidao == filhos.aptidao)
            ==> r.bem_formada(),
{
    let mut nova_pop = filhos;
    if elitismo {
        nova_pop.reter(pais);
    }
    nova_pop.manter_mais_aptos(tamanho);
    nova_pop
}

/// Whether `p` can be a generation of a search that begins with
/// `inicial`: it shares its evaluator and its notion of "fitter", its
/// individuals carry the fitness of their genomes, and they are no more
/// than the search began with.
pub open spec fn geracao_de<Gene>(inicial: Populacao<Gene>, p: Populacao<Gene>) -> bool {
    &&& p.bem_formada()
    &&& p.aparentada(&inicial)
    &&& p.individuos@.len() <= inicial.individuos@.len()
}

impl<Gene, Evol, Obj> Genetico<Gene, Evol, Obj> where Evol: Evolucao<Gene>, Obj: Objetivo<Gene> {
    /// A search without elitism that nobody watches.
    pub fn criar(pop: Populacao<Gene>, evolucao: Evol, objetivo: Obj) -> (r: Self)
        ensures
            r.populacao == pop,
            r.evolucao == evolucao,
            r.objetivo == objetivo,
            !r.elitismo,
            forall|p: Populacao<Gene>| #[trigger] r.observador.pode_observar(&p),
    {
        let ninguem: Box<dyn ObservadorEvolucao<Gene>> = Box::new(ObservadorEvolucaoVazio);
        assert(forall|p: Populacao<Gene>| #[trigger] ninguem.pode_observar(&p));
        let observador = Box::new(ninguem);
        assert(forall|p: Populacao<Gene>| #[trigger] observador.pode_observar(&p));
        Genetico {
            populacao: pop,
            evolucao: evolucao,
            objetivo: objetivo,
            observador: observador,
            elitismo: false,
        }
    }

    /// Lets `observador` watch the search, in place of whoever watched
    /// it before: the search can show the observer it now holds what
    /// `observador` can be shown.
    pub fn observador<T>(&mut self, observador: T) where T: ObservadorEvolucao<Gene> + 'static
        ensures
            forall|p: Populacao<Gene>| #[trigger]
                final(self).observador.pode_observar(&p) == observador.pode_observar(&p),
            final(self).populacao == old(self).populacao,
            final(self).evolucao == old(self).evolucao,
            final(self).objetivo == old(self).objetivo,
            final(self).elitismo == old(self).elitismo,
    {
        let caixa: Box<dyn ObservadorEvolucao<Gene>> = Box::new(Vigia { observador });
        assert(forall|p: Populacao<Gene>| #[trigger]
            caixa.pode_observar(&p) == observador.pode_observar(&p));
        let novo = Box::new(caixa);
        assert(forall|p: Populacao<Gene>| #[trigger]
            novo.pode_observar(&p) == observador.pode_observar(&p));
        self.observador = novo;
    }

    /// Runs the search and gives the genome it ends with.
    ///
    /// The fittest individual is taken out of the population and shown to
    /// the objective. While the objective is not satisfied, the
    /// individual goes back, the evolution breeds a generation, the
    /// fittest of it (see [`sobreviventes`]) become the population, as
    /// many as the search began with, and the fittest of them is taken
    /// out in turn. The genome of the individual that satisfies the
    /// objective is the result.
    ///
    /// The search ends without a result where a generation comes out
    /// empty, which with elitism none does, and where it has counted
    /// `usize::MAX` generations, which it does not come to with an
    /// objective that is satisfied sooner. The population must not be
    /// empty, and the observer must be one that can be shown any
    /// generation of the search.
    #[verifier::rlimit(60)]
    pub fn buscar_solucao(self) -> (r: Option<Gene>)
        requires
            self.populacao.individuos@.len() > 0,
            self.populacao.bem_formada(),
            forall|p: Populacao<Gene>|
                geracao_de(self.populacao, p) ==> #[trigger] self.observador.pode_observar(&p),
        ensures
            self.objetivo.resposta(
                &self.populacao.individuos@[posicao_mais_apto(
                    self.populacao.individuos@,
                    self.populacao.operacao,
                )],
            ) ==> r == Some(
                self.populacao.individuos@[posicao_mais_apto(
                    self.populacao.individuos@,
                    self.populacao.operacao,
                )].genes,
            ),
            self.elitismo && self.objetivo.finito() && self.objetivo.restante() < usize::MAX
                ==> r is Some,
            r matches Some(genes) ==> exists|geracoes: Seq<Seq<Individuo<Gene>>>, objetivos: Seq<Obj>|
                #[trigger] chega(self, geracoes, objetivos, genes),
            r is None ==> exists|geracoes: Seq<Seq<Individuo<Gene>>>, objetivos: Seq<Obj>|
                #[trigger] desiste(self, geracoes, objetivos),
    {
        let Genetico { populacao, evolucao, objetivo, observador, elitismo } = self;
        let mut pop = populacao;
        let mut objetivo = objetivo;
        let populacao_inicial = pop.individuos.len();
        observador.inicio(&pop);
        let mut ger: usize = 0;
        let ghost op = self.populacao.operacao;
        let ghost mut geracoes: Seq<Seq<Individuo<Gene>>> = seq![pop.individuos@];
        let ghost mut objetivos: Seq<Obj> = seq![objetivo];
        let mut mais_apto = pop.remover_mais_apto();
        let ghost primeiro = mais_apto;
        loop
            invariant
                forall|p: Populacao<Gene>|
                    geracao_de(self.populacao, p) ==> #[trigger] observador.pode_observar(&p),
                populacao_inicial == self.populacao.individuos@.len(),
                populacao_inicial > 0,
                elitismo == self.elitismo,
                evolucao == self.evolucao,
                op == self.populacao.operacao,
                primeiro == mais_apto_de(self.populacao.individuos@, op),
                self.objetivo.finito() ==> objetivo.finito() && ger + objetivo.restante()
                    <= self.objetivo.restante(),
                pop.bem_formada(),
                pop.aparentada(&self.populacao),
                percurso(self, geracoes, objetivos),
                geracoes.len() == ger + 1,
                geracoes.last().len() > 0,
                objetivos.last() == objetivo,
                mais_apto == mais_apto_de(geracoes.last(), op),
                pop.individuos@ == geracoes.last().remove(posicao_mais_apto(geracoes.last(), op)),
                ger > 0 ==> !self.objetivo.resposta(&primeiro),
                ger == 0 ==> objetivo == self.objetivo && mais_apto == primeiro,
                elitismo ==> !op.supera(primeiro.aptidao, mais_apto.aptidao),
            decreases usize::MAX - ger,
        {
            let ghost geracao = geracoes.last();
            if objetivo.satisfeito_por(&mais_apto) {
                let ghost achado = mais_apto.genes;
                proof {
                    assert(chega(self, geracoes, objetivos, achado));
                    assert(exists|g: Seq<Seq<Individuo<Gene>>>, o: Seq<Obj>| #[trigger]
                        chega(self, g, o, achado));
                }
                let r = Some(mais_apto.genes);
                assert(r matches Some(genes) && genes == achado);
                return r;
            }
            if ger == usize::MAX {
                proof {
                    assert(desiste(self, geracoes, objetivos));
                }
                return None;
            }
            let ghost k = posicao_mais_apto(geracao, op);
            proof {
                crate::populacao::lei_posicao_mais_apto(geracao, op);
                assert(self.populacao.avaliado(geracao[k]));
                crate::populacao::lei_extracao_reinsercao(geracao, k);
            }
            pop.reiterar(mais_apto);
            let ghost entregue = pop.individuos@;
            let nova_pop = evolucao.evoluir(&mut pop);
            let ghost pais = pop.individuos@;
            let ghost filhos = nova_pop.individuos@;
            proof {
                vstd::seq_lib::to_multiset_len(entregue);
                vstd::seq_lib::to_multiset_len(pais);
                crate::populacao::lei_ranking_em_ordem(filhos + pais, op);
                crate::populacao::lei_ranking_em_ordem(filhos, op);
            }
            pop = sucessora(pop, nova_pop, elitismo, populacao_inicial);
            ger = ger + 1;
            proof {
                let depois = pop.individuos@;
                assert(entregue == com_mais_apto_no_fim(geracao, op));
                assert(depois == restam(pais, filhos, elitismo, op, populacao_inicial as nat));
                assert(sucede(evolucao, elitismo, populacao_inicial as nat, op, geracao, depois));
                assert forall|i: int| 0 <= i < depois.len() implies self.populacao.avaliado(
                    #[trigger] depois[i],
                ) by {
                    assert(pop.avaliado(pop.individuos@[i]));
                }
                lema_percurso_cresce(self, geracoes, objetivos, objetivo, depois);
                geracoes = geracoes.push(depois);
                objetivos = objetivos.push(objetivo);
            }
            observador.geracao(ger, &pop);
            if pop.individuos.len() == 0 {
                proof {
                    assert(desiste(self, geracoes, objetivos));
                }
                return None;
            }
            proof {
                if elitismo {
                    vstd::seq_lib::to_multiset_contains(entregue, mais_apto);
                    vstd::seq_lib::to_multiset_contains(pais, mais_apto);
                    assert(entregue.last() == mais_apto);
                    assert(entregue.contains(mais_apto)) by {
                        assert(entregue[entregue.len() - 1] == mais_apto);
                    }
                    lei_elitismo(pais, filhos, op, populacao_inicial as nat, mais_apto);
                }
            }
            mais_apto = pop.remover_mais_apto();
        }
    }
}

} // verus!
