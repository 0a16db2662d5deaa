use crate::aleatorio::Aleatorio;
use crate::aleatorio::ESCALA;
use crate::evolucao::cruzamento::copia;
use crate::evolucao::Evolucao;
use crate::populacao::Individuo;
use crate::populacao::Populacao;
use std::marker::PhantomData;
use vstd::prelude::*;

verus! {

/// Makes a variant of a genome.
pub trait Mutagenico<Gene> {
    /// Whether `mutante` can come out of mutating `gene`.
    open spec fn pode_resultar(&self, gene: &Gene, mutante: &Gene) -> bool {
        true
    }

    /// A variant of `gene`, which itself stays as it is.
    fn mutar(&self, gene: &Gene, aleatorio: &mut Aleatorio) -> (mutante: Gene)
        ensures
            self.pode_resultar(gene, &mutante),
    ;
}

/// Mutates genomes that are vectors of numbers: one position gets
/// another value below the bound that `estados` holds for that position.
pub struct MutagenicoVetor {
    /// For each position, the bound that its values stay below.
    pub estados: Vec<usize>,
}

/// `gene` with `estado` at `indice`; `gene` itself where it has no such
/// position.
pub open spec fn com_estado(gene: Seq<usize>, indice: int, estado: usize) -> Seq<usize> {
    if 0 <= indice < gene.len() {
        gene.update(indice, estado)
    } else {
        gene
    }
}

/// A copy of `gene` with `estado` at `indice`.
pub fn muta_posicao(gene: &Vec<usize>, indice: usize, estado: usize) -> (mutante: Vec<usize>)
    ensures
        mutante@ == com_estado(gene@, indice as int, estado),
{
    let mut mutante = copia(gene);
    if indice < mutante.len() {
        mutante.set(indice, estado);
    }
    mutante
}

/// How many of the values below `limite` are other than `atual`.
pub open spec fn outros_estados(limite: usize, atual: usize) -> int {
    if atual < limite {
        limite - 1
    } else {
        limite as int
    }
}

/// The `sorteado`-th of the values below `limite` that are other than
/// `atual`, counted from zero.
pub open spec fn estado_sorteado(limite: usize, atual: usize, sorteado: usize) -> int {
    if atual < limite && sorteado >= atual {
        sorteado + 1
    } else {
        sorteado as int
    }
}

/// The value that a draw among the values other than the present one
/// stands for.
pub fn outro_estado(limite: usize, atual: usize, sorteado: usize) -> (estado: usize)
    requires
        sorteado < outros_estados(limite, atual),
    ensures
        estado == estado_sorteado(limite, atual, sorteado),
        estado < limite,
        estado != atual,
{
    if atual < limite && sorteado >= atual {
        sorteado + 1
    } else {
        sorteado
    }
}

/// Whether `mutante` can come out of `gene` when the position `indice`
/// is drawn: it is `gene` with another value at that position, one below
/// the position's bound; or it is `gene` itself, where `gene` has no such
/// position or the bound leaves no other value.
pub open spec fn mutado_em(
    gene: Seq<usize>,
    estados: Seq<usize>,
    mutante: Seq<usize>,
    indice: int,
) -> bool {
    if indice >= gene.len() || outros_estados(estados[indice], gene[indice]) == 0 {
        mutante == gene
    } else {
        exists|estado: usize|
            estado < estados[indice] && estado != gene[indice] && mutante == #[trigger] gene.update(
                indice,
                estado,
            )
    }
}

impl Mutagenico<Vec<usize>> for MutagenicoVetor {
    /// `mutante` is what can come out of `gene` for one of the positions
    /// that have a bound; it is `gene` where no position has one.
    open spec fn pode_resultar(&self, gene: &Vec<usize>, mutante: &Vec<usize>) -> bool {
        if self.estados@.len() == 0 {
            mutante@ == gene@
        } else {
            exists|indice: int|
                0 <= indice < self.estados@.len() && #[trigger] mutado_em(
                    gene@,
                    self.estados@,
                    mutante@,
                    indice,
                )
        }
    }

    /// Draws a position among those that have a bound and, for it, a
    /// value among those below the bound that the genome does not have
    /// there: the mutant differs from the genome at that one position.
    /// It is a copy of the genome where there is nothing to draw from.
    fn mutar(&self, gene: &Vec<usize>, aleatorio: &mut Aleatorio) -> (mutante: Vec<usize>)
        ensures
            mutante@.len() == gene@.len(),
            final(aleatorio).vicio() == old(aleatorio).vicio(),
    {
        if self.estados.len() == 0 {
            return copia(gene);
        }
        let indice = aleatorio.intervalo(0, self.estados.len());
        if indice >= gene.len() {
            let mutante = copia(gene);
            assert(mutado_em(gene@, self.estados@, mutante@, indice as int));
            return mutante;
        }
        let limite = self.estados[indice];
        let atual = gene[indice];
        let outros = if atual < limite {
            limite - 1
        } else {
            limite
        };
        if outros == 0 {
            let mutante = copia(gene);
            assert(mutado_em(gene@, self.estados@, mutante@, indice as int));
            return mutante;
        }
        let sorteado = aleatorio.intervalo(0, outros);
        let estado = outro_estado(limite, atual, sorteado);
        let mutante = muta_posicao(gene, indice, estado);
        assert(mutante@ == gene@.update(indice as int, estado));
        assert(mutado_em(gene@, self.estados@, mutante@, indice as int));
        mutante
    }
}

/// Breeds a new generation out of mutants of a population.
pub struct Mutacao<Mut, Gene> where Mut: Mutagenico<Gene> {
    mutagenico: Mut,
    chance: u64,
    phanton: PhantomData<Gene>,
}

/// The positions whose draw falls below `chance`, in their order: the
/// individuals that get a mutant when `sortes` are the chances drawn for
/// them one after the other.
pub open spec fn escolhidos(chance: u64, sortes: Seq<u64>) -> Seq<int>
    decreases sortes.len(),
{
    if sortes.len() == 0 {
        Seq::empty()
    } else if chance > sortes.last() {
        escolhidos(chance, sortes.drop_last()).push(sortes.len() - 1)
    } else {
        escolhidos(chance, sortes.drop_last())
    }
}

/// The positions chosen are positions of the draws, each with a draw
/// below the chance, and they rise. Everybody is chosen where every draw
/// is below the chance, and nobody where none is.
pub proof fn lei_escolhidos(chance: u64, sortes: Seq<u64>)
    ensures
        escolhidos(chance, sortes).len() <= sortes.len(),
        forall|j: int|
            0 <= j < escolhidos(chance, sortes).len() ==> 0 <= #[trigger] escolhidos(
                chance,
                sortes,
            )[j] < sortes.len() && chance > sortes[escolhidos(chance, sortes)[j]],
        forall|j: int, k: int|
            0 <= j < k < escolhidos(chance, sortes).len() ==> #[trigger] escolhidos(
                chance,
                sortes,
            )[j] < #[trigger] escolhidos(chance, sortes)[k],
        (forall|i: int| 0 <= i < sortes.len() ==> #[trigger] sortes[i] < chance) ==> escolhidos(
            chance,
            sortes,
        ).len() == sortes.len() && forall|j: int|
            0 <= j < sortes.len() ==> #[trigger] escolhidos(chance, sortes)[j] == j,
        (forall|i: int| 0 <= i < sortes.len() ==> #[trigger] sortes[i] >= chance) ==> escolhidos(
            chance,
            sortes,
        ).len() == 0,
    decreases sortes.len(),
{
    if sortes.len() > 0 {
        let antes = sortes.drop_last();
        lei_escolhidos(chance, antes);
        assert(forall|i: int| 0 <= i < antes.len() ==> antes[i] == sortes[i]);
        let e = escolhidos(chance, antes);
        let f = escolhidos(chance, sortes);
        assert forall|j: int| 0 <= j < f.len() implies 0 <= #[trigger] f[j] < sortes.len()
            && chance > sortes[f[j]] by {
            if j < e.len() {
                assert(f[j] == e[j]);
            }
        }
        assert forall|j: int, k: int| 0 <= j < k < f.len() implies #[trigger] f[j]
            < #[trigger] f[k] by {
            assert(f[j] == e[j]);
            if k < e.len() {
                assert(f[k] == e[k]);
            }
        }
        if forall|i: int| 0 <= i < sortes.len() ==> #[trigger] sortes[i] < chance {
            assert(sortes.last() == sortes[sortes.len() - 1]);
            assert forall|j: int| 0 <= j < sortes.len() implies #[trigger] f[j] == j by {
                if j < e.len() {
                    assert(f[j] == e[j]);
                }
            }
        }
        if forall|i: int| 0 <= i < sortes.len() ==> #[trigger] sortes[i] >= chance {
            assert(sortes.last() == sortes[sortes.len() - 1]);
        }
    }
}

/// The individuals that get a mutant when `sortes` are the chances drawn
/// for them one after the other: their positions, in order.
pub fn quem_muta(chance: u64, sortes: &Vec<u64>) -> (posicoes: Vec<usize>)
    ensures
        posicoes@.len() == escolhidos(chance, sortes@).len(),
        forall|j: int|
            0 <= j < posicoes@.len() ==> #[trigger] posicoes@[j] == escolhidos(chance, sortes@)[j],
{
    let mut posicoes: Vec<usize> = Vec::new();
    let mut i: usize = 0;
    while i < sortes.len()
        invariant
            i <= sortes@.len(),
            posicoes@.len() == escolhidos(chance, sortes@.take(i as int)).len(),
            forall|j: int|
                0 <= j < posicoes@.len() ==> #[trigger] posicoes@[j] == escolhidos(
                    chance,
                    sortes@.take(i as int),
                )[j],
        decreases sortes@.len() - i,
    {
        let ghost antes = posicoes@;
        proof {
            assert(sortes@.take(i as int + 1).drop_last() == sortes@.take(i as int));
            assert(sortes@.take(i as int + 1).last() == sortes@[i as int]);
        }
        if chance > sortes[i] {
            posicoes.push(i);
        }
        proof {
            let e = escolhidos(chance, sortes@.take(i as int));
            let f = escolhidos(chance, sortes@.take(i as int + 1));
            assert forall|j: int| 0 <= j < posicoes@.len() implies #[trigger] posicoes@[j]
                == f[j] by {
                if j < antes.len() {
                    assert(posicoes@[j] == antes[j]);
                    assert(f[j] == e[j]);
                }
            }
        }
        i += 1;
    }
    proof {
        assert(sortes@.take(sortes@.len() as int) == sortes@);
    }
    posicoes
}

/// Whether `nova` can be the mutants of `antes` when `sortes` are the
/// chances drawn: one mutant for each individual chosen, in their order.
pub open spec fn mutantes_com<Mut, Gene>(
    mutagenico: Mut,
    chance: u64,
    antes: Seq<Individuo<Gene>>,
    nova: Seq<Individuo<Gene>>,
    sortes: Seq<u64>,
) -> bool where Mut: Mutagenico<Gene> {
    &&& sortes.len() <= antes.len()
    &&& forall|i: int| 0 <= i < sortes.len() ==> #[trigger] sortes[i] < ESCALA
    &&& nova.len() == escolhidos(chance, sortes).len()
    &&& forall|j: int|
        0 <= j < nova.len() ==> mutagenico.pode_resultar(
            &antes[escolhidos(chance, sortes)[j]].genes,
            &(#[trigger] nova[j]).genes,
        )
}

impl<Mut, Gene> Mutacao<Mut, Gene> where Mut: Mutagenico<Gene> {
    /// What makes the mutants.
    pub closed spec fn mutagenico(&self) -> Mut {
        self.mutagenico
    }

    /// The chance, in millionths, that an individual gets a mutant.
    pub closed spec fn chance(&self) -> u64 {
        self.chance
    }

    pub fn criar(chance: u64, mutagenico: Mut) -> (r: Self)
        ensures
            r.chance() == chance,
            r.mutagenico() == mutagenico,
    {
        Mutacao { chance: chance, mutagenico: mutagenico, phanton: PhantomData }
    }

    /// Gives the individual at `idx` a mutant among `mutantes` where the
    /// chance drawn for it, `sorte`, is below the configured one, and
    /// leaves `mutantes` as they are where it is not.
    pub fn muta_sorteado(
        &self,
        pop: &Populacao<Gene>,
        idx: usize,
        sorte: u64,
        mutantes: &mut Populacao<Gene>,
        aleatorio: &mut Aleatorio,
    )
        requires
            idx < pop.individuos@.len(),
        ensures
            final(mutantes).aparentada(old(mutantes)),
            old(mutantes).bem_formada() ==> final(mutantes).bem_formada(),
            self.chance() <= sorte ==> final(mutantes).individuos@ == old(mutantes).individuos@,
            self.chance() > sorte ==> {
                &&& final(mutantes).individuos@.len() == old(mutantes).individuos@.len() + 1
                &&& final(mutantes).individuos@.drop_last() == old(mutantes).individuos@
                &&& self.mutagenico().pode_resultar(
                    &pop.individuos@[idx as int].genes,
                    &final(mutantes).individuos@.last().genes,
                )
            },
    {
        if self.chance > sorte {
            let mutante = self.mutagenico.mutar(&pop.individuos[idx].genes, aleatorio);
            mutantes.adicionar(mutante);
            assert(mutantes.individuos@.drop_last() == old(mutantes).individuos@);
        }
    }

    /// With a chance that no draw reaches, every individual gets its
    /// mutant; with none, nobody does.
    pub proof fn lei_mutacao_certa(
        &self,
        antes: Seq<Individuo<Gene>>,
        nova: Seq<Individuo<Gene>>,
        sortes: Seq<u64>,
    )
        requires
            sortes.len() == antes.len(),
            mutantes_com(self.mutagenico(), self.chance(), antes, nova, sortes),
        ensures
            nova.len() <= antes.len(),
            self.chance() == 0 ==> nova.len() == 0,
            self.chance() >= ESCALA ==> nova.len() == antes.len() && forall|j: int|
                0 <= j < antes.len() ==> self.mutagenico().pode_resultar(
                    &antes[j].genes,
                    &(#[trigger] nova[j]).genes,
                ),
    {
        lei_escolhidos(self.chance(), sortes);
        if self.chance() >= ESCALA {
            assert forall|j: int| 0 <= j < antes.len() implies self.mutagenico().pode_resultar(
                &antes[j].genes,
                &(#[trigger] nova[j]).genes,
            ) by {
                assert(escolhidos(self.chance(), sortes)[j] == j);
            }
        }
    }
}

impl<Mut, Gene> Evolucao<Gene> for Mutacao<Mut, Gene> where Mut: Mutagenico<Gene> {
    /// The mutants of the individuals that some draws of chances choose,
    /// one draw for each individual.
    open spec fn pode_evoluir(
        &self,
        antes: Seq<Individuo<Gene>>,
        nova: Seq<Individuo<Gene>>,
    ) -> bool {
        exists|sortes: Seq<u64>|
            sortes.len() == antes.len() && #[trigger] mutantes_com(
                self.mutagenico(),
                self.chance(),
                antes,
                nova,
                sortes,
            )
    }

    /// A chance is drawn for each individual in turn; where it is below
    /// the configured one, a mutant of the individual's genome joins the
    /// new generation. The population stays as it is. With a configured
    /// chance of `ESCALA` or more every individual gets its mutant, in
    /// the order of the individuals; with none, nobody does.
    fn evoluir(&self, pop: &mut Populacao<Gene>) -> (nova: Populacao<Gene>)
        ensures
            final(pop).individuos@ == old(pop).individuos@,
            nova.individuos@.len() <= old(pop).individuos@.len(),
            self.chance() == 0 ==> nova.individuos@.len() == 0,
            self.chance() >= ESCALA ==> nova.individuos@.len() == old(pop).individuos@.len()
                && forall|j: int|
                0 <= j < nova.individuos@.len() ==> self.mutagenico().pode_resultar(
                    &old(pop).individuos@[j].genes,
                    &(#[trigger] nova.individuos@[j]).genes,
                ),
    {
        let mut mutantes = pop.preparar_nova_geracao();
        let mut aleatorio = Aleatorio::criar();
        let qtd = pop.individuos.len();
        let ghost mut sortes: Seq<u64> = Seq::empty();
        let mut idx: usize = 0;
        while idx < qtd
            invariant
                idx <= qtd,
                qtd == pop.individuos@.len(),
                pop.individuos@ == old(pop).individuos@,
                pop.bem_formada(),
                pop.aparentada(old(pop)),
                mutantes.bem_formada(),
                mutantes.aparentada(old(pop)),
                sortes.len() == idx,
                mutantes_com(
                    self.mutagenico(),
                    self.chance(),
                    pop.individuos@,
                    mutantes.individuos@,
                    sortes,
                ),
            decreases qtd - idx,
        {
            let sorte = aleatorio.chance();
            let ghost ate_aqui = mutantes.individuos@;
            let ghost antes = sortes;
            self.muta_sorteado(pop, idx, sorte, &mut mutantes, &mut aleatorio);
            proof {
                sortes = antes.push(sorte);
                assert(sortes.drop_last() == antes);
                assert(sortes.last() == sorte);
                let e = escolhidos(self.chance(), antes);
                let f = escolhidos(self.chance(), sortes);
                assert forall|j: int|
                    0 <= j < mutantes.individuos@.len() implies self.mutagenico().pode_resultar(
                    &pop.individuos@[f[j]].genes,
                    &(#[trigger] mutantes.individuos@[j]).genes,
                ) by {
                    if j < ate_aqui.len() {
                        assert(mutantes.individuos@[j] == ate_aqui[j]);
                        assert(f[j] == e[j]);
                    }
                }
            }
            idx += 1;
        }
        proof {
            self.lei_mutacao_certa(pop.individuos@, mutantes.individuos@, sortes);
        }
        mutantes
    }
}

} // verus!
