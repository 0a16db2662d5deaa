use crate::aleatorio::Aleatorio;
use crate::aleatorio::ESCALA;
use crate::evolucao::selecao::Seletor;
use crate::evolucao::Evolucao;
use crate::populacao::Individuo;
use crate::populacao::Populacao;
use std::marker::PhantomData;
use vstd::prelude::*;

verus! {

/// Makes two genomes out of two.
pub trait Cruzador<Gene> {
    /// Whether `filhos` can come out of crossing `primeiro` with `segundo`.
    open spec fn pode_gerar(&self, primeiro: &Gene, segundo: &Gene, filhos: (Gene, Gene)) -> bool {
        true
    }

    /// Crosses `primeiro` with `segundo`.
    fn cruzar(&self, aleatorio: &mut Aleatorio, primeiro: &Gene, segundo: &Gene) -> (filhos: (
        Gene,
        Gene,
    ))
        ensures
            self.pode_gerar(primeiro, segundo, filhos),
    ;
}

/// The cut that a chance of `chance` millionths makes in a genome of
/// `qtd` genes: `chance * qtd / ESCALA`, rounded to the nearest whole
/// number, a half rounded up.
pub open spec fn corte(chance: u64, qtd: nat) -> int {
    (chance * qtd + ESCALA / 2) / (ESCALA as int)
}

/// The children of two genomes of one length for a cut at `c`: each has
/// the genes of one parent before the cut and those of the other from the
/// cut on.
pub open spec fn filhos_um_ponto<T>(a: Seq<T>, b: Seq<T>, c: int) -> (Seq<T>, Seq<T>) {
    (a.take(c) + b.skip(c), b.take(c) + a.skip(c))
}

/// The children of two genomes of one length for cuts at `c` and `d`,
/// the smaller one first: the parents with the genes between the cuts
/// exchanged.
pub open spec fn filhos_dois_pontos<T>(a: Seq<T>, b: Seq<T>, c: int, d: int) -> (Seq<T>, Seq<T>) {
    (
        a.take(c) + b.subrange(c, d) + a.skip(d),
        b.take(c) + a.subrange(c, d) + b.skip(d),
    )
}

/// A cut lies within the genome.
pub proof fn lei_corte(chance: u64, qtd: nat)
    requires
        chance < ESCALA,
    ensures
        0 <= corte(chance, qtd) <= qtd,
{
    assert(chance * qtd <= (ESCALA - 1) * qtd) by (nonlinear_arith)
        requires
            chance <= ESCALA - 1,
    ;
    assert(0 <= chance * qtd) by (nonlinear_arith);
}

/// One-point crossing loses and invents nothing: at every position the
/// two children hold the two genes that the parents hold there, and the
/// children together hold the genes of the parents together.
pub proof fn lei_cruzamento_conserva<T>(a: Seq<T>, b: Seq<T>, c: int)
    requires
        a.len() == b.len(),
        0 <= c <= a.len(),
    ensures
        filhos_um_ponto(a, b, c).0.len() == a.len(),
        filhos_um_ponto(a, b, c).1.len() == a.len(),
        forall|i: int|
            0 <= i < a.len() ==> seq![
                #[trigger] filhos_um_ponto(a, b, c).0[i],
                filhos_um_ponto(a, b, c).1[i],
            ].to_multiset() == seq![a[i], b[i]].to_multiset(),
        (filhos_um_ponto(a, b, c).0 + filhos_um_ponto(a, b, c).1).to_multiset() == (a
            + b).to_multiset(),
{
    broadcast use vstd::seq_lib::lemma_multiset_commutative;
    broadcast use vstd::multiset::group_multiset_axioms;

    let (f, g) = filhos_um_ponto(a, b, c);
    assert forall|i: int| 0 <= i < a.len() implies seq![#[trigger] f[i], g[i]].to_multiset()
        == seq![a[i], b[i]].to_multiset() by {
        if i < c {
            assert(f[i] == a[i] && g[i] == b[i]);
        } else {
            assert(f[i] == b[i] && g[i] == a[i]);
            let x = seq![b[i], a[i]];
            let y = seq![a[i], b[i]];
            assert(x == seq![b[i]] + seq![a[i]]);
            assert(y == seq![a[i]] + seq![b[i]]);
            vstd::seq_lib::lemma_seq_union_to_multiset_commutative(seq![b[i]], seq![a[i]]);
        }
    }
    assert(a == a.take(c) + a.skip(c));
    assert(b == b.take(c) + b.skip(c));
    assert((f + g).to_multiset() == a.take(c).to_multiset().add(b.skip(c).to_multiset()).add(
        b.take(c).to_multiset().add(a.skip(c).to_multiset()),
    ));
    assert((a + b).to_multiset() == a.take(c).to_multiset().add(a.skip(c).to_multiset()).add(
        b.take(c).to_multiset().add(b.skip(c).to_multiset()),
    ));
}

/// The cut for a chance and a length.
pub fn ponto_de_corte(chance: u64, qtd: usize) -> (r: usize)
    requires
        chance < ESCALA,
    ensures
        r == corte(chance, qtd as nat),
        r <= qtd,
{
    proof {
        lei_corte(chance, qtd as nat);
        assert(chance * qtd <= (ESCALA - 1) * qtd) by (nonlinear_arith)
            requires
                chance <= ESCALA - 1,
        ;
        assert(0 <= chance * qtd) by (nonlinear_arith);
    }
    let produto: u128 = (chance as u128) * (qtd as u128);
    ((produto + (ESCALA / 2) as u128) / (ESCALA as u128)) as usize
}

/// Crosses `primeiro` at `c` with as many genes of `segundo` as it has
/// itself: the genes that `segundo` has beyond them are left out.
pub fn cruza_um_ponto<T: Copy>(primeiro: &Vec<T>, segundo: &Vec<T>, c: usize) -> (filhos: (
    Vec<T>,
    Vec<T>,
))
    requires
        primeiro@.len() <= segundo@.len(),
        c <= primeiro@.len(),
    ensures
        (filhos.0@, filhos.1@) == filhos_um_ponto(
            primeiro@,
            segundo@.take(primeiro@.len() as int),
            c as int,
        ),
{
    let mut f1: Vec<T> = Vec::new();
    let mut f2: Vec<T> = Vec::new();
    let qtd = primeiro.len();
    let ghost outro = segundo@.take(qtd as int);
    let mut i: usize = 0;
    while i < qtd
        invariant
            i <= qtd,
            qtd == primeiro@.len(),
            qtd <= segundo@.len(),
            outro == segundo@.take(qtd as int),
            c <= qtd,
            f1@ == filhos_um_ponto(primeiro@, outro, c as int).0.take(i as int),
            f2@ == filhos_um_ponto(primeiro@, outro, c as int).1.take(i as int),
        decreases qtd - i,
    {
        assert(outro[i as int] == segundo@[i as int]);
        if i < c {
            f1.push(primeiro[i]);
            f2.push(segundo[i]);
        } else {
            f2.push(primeiro[i]);
            f1.push(segundo[i]);
        }
        i += 1;
    }
    (f1, f2)
}

/// Copies a genome.
pub fn copia<T: Copy>(genes: &Vec<T>) -> (r: Vec<T>)
    ensures
        r@ == genes@,
{
    let mut r: Vec<T> = Vec::new();
    let mut i: usize = 0;
    while i < genes.len()
        invariant
            i <= genes@.len(),
            r@ == genes@.take(i as int),
        decreases genes@.len() - i,
    {
        r.push(genes[i]);
        i += 1;
    }
    r
}

/// The cut that a chance of `sorte` millionths makes in an array of
/// `tamanho` genes: `sorte * tamanho / ESCALA`, rounded down.
pub open spec fn posicao_de_corte(sorte: u64, tamanho: nat) -> int {
    sorte * tamanho / (ESCALA as int)
}

/// A cut in an array lies before its end.
pub proof fn lei_posicao_de_corte(sorte: u64, tamanho: nat)
    requires
        sorte < ESCALA,
    ensures
        0 <= posicao_de_corte(sorte, tamanho) <= tamanho,
        tamanho > 0 ==> posicao_de_corte(sorte, tamanho) < tamanho,
{
    assert(0 <= sorte * tamanho <= (ESCALA - 1) * tamanho) by (nonlinear_arith)
        requires
            0 <= sorte <= ESCALA - 1,
    ;
    if tamanho > 0 {
        assert(sorte * tamanho < ESCALA * tamanho) by (nonlinear_arith)
            requires
                0 <= sorte < ESCALA,
                tamanho > 0,
        ;
        vstd::arithmetic::div_mod::lemma_div_by_multiple_is_strongly_ordered(
            sorte * tamanho,
            ESCALA * tamanho,
            tamanho as int,
            ESCALA as int,
        );
        vstd::arithmetic::div_mod::lemma_div_by_multiple(tamanho as int, ESCALA as int);
        assert(ESCALA * tamanho == tamanho * ESCALA) by (nonlinear_arith);
    }
}

/// The cut in an array of `tamanho` genes for a chance.
pub fn corta_array(sorte: u64, tamanho: usize) -> (r: usize)
    requires
        sorte < ESCALA,
    ensures
        r == posicao_de_corte(sorte, tamanho as nat),
        r <= tamanho,
{
    proof {
        lei_posicao_de_corte(sorte, tamanho as nat);
        assert(0 <= sorte * tamanho <= (ESCALA - 1) * tamanho) by (nonlinear_arith)
            requires
                0 <= sorte <= ESCALA - 1,
        ;
    }
    (((sorte as u128) * (tamanho as u128)) / (ESCALA as u128)) as usize
}

/// One-point crossing of two arrays, at the cut of the chance `sorte`.
pub fn cruza_array_um_ponto<T: Copy, const N: usize>(
    sorte: u64,
    primeiro: &[T; N],
    segundo: &[T; N],
) -> (filhos: ([T; N], [T; N]))
    requires
        sorte < ESCALA,
    ensures
        (filhos.0@, filhos.1@) == filhos_um_ponto(
            primeiro@,
            segundo@,
            posicao_de_corte(sorte, N as nat),
        ),
{
    let posicao = corta_array(sorte, N);
    let mut a = *primeiro;
    let mut b = *segundo;
    let mut i: usize = posicao;
    while i < N
        invariant
            posicao <= i <= N,
            forall|j: int| 0 <= j < posicao ==> a@[j] == primeiro@[j] && b@[j] == segundo@[j],
            forall|j: int| posicao <= j < i ==> a@[j] == segundo@[j] && b@[j] == primeiro@[j],
            forall|j: int| i <= j < N ==> a@[j] == primeiro@[j] && b@[j] == segundo@[j],
        decreases N - i,
    {
        a[i] = segundo[i];
        b[i] = primeiro[i];
        i += 1;
    }
    assert(a@ =~= filhos_um_ponto(primeiro@, segundo@, posicao as int).0);
    assert(b@ =~= filhos_um_ponto(primeiro@, segundo@, posicao as int).1);
    (a, b)
}

/// The smaller and the larger of two cuts.
pub open spec fn cortes_em_ordem(um: int, dois: int) -> (int, int) {
    if dois < um {
        (dois, um)
    } else {
        (um, dois)
    }
}

/// Two-point crossing of two arrays, at the cuts of the chances
/// `sorte_um` and `sorte_dois`, whichever of them comes first.
pub fn cruza_array_dois_pontos<T: Copy, const N: usize>(
    sorte_um: u64,
    sorte_dois: u64,
    primeiro: &[T; N],
    segundo: &[T; N],
) -> (filhos: ([T; N], [T; N]))
    requires
        sorte_um < ESCALA,
        sorte_dois < ESCALA,
    ensures
        (filhos.0@, filhos.1@) == filhos_dois_pontos(
            primeiro@,
            segundo@,
            cortes_em_ordem(
                posicao_de_corte(sorte_um, N as nat),
                posicao_de_corte(sorte_dois, N as nat),
            ).0,
            cortes_em_ordem(
                posicao_de_corte(sorte_um, N as nat),
                posicao_de_corte(sorte_dois, N as nat),
            ).1,
        ),
{
    let mut posicao_um = corta_array(sorte_um, N);
    let mut posicao_dois = corta_array(sorte_dois, N);
    if posicao_dois < posicao_um {
        let troca = posicao_um;
        posicao_um = posicao_dois;
        posicao_dois = troca;
    }
    let mut a = *primeiro;
    let mut b = *segundo;
    let mut i: usize = posicao_um;
    while i < posicao_dois
        invariant
            posicao_um <= i <= posicao_dois <= N,
            forall|j: int| 0 <= j < posicao_um ==> a@[j] == primeiro@[j] && b@[j] == segundo@[j],
            forall|j: int| posicao_um <= j < i ==> a@[j] == segundo@[j] && b@[j] == primeiro@[j],
            forall|j: int| i <= j < N ==> a@[j] == primeiro@[j] && b@[j] == segundo@[j],
        decreases posicao_dois - i,
    {
        a[i] = segundo[i];
        b[i] = primeiro[i];
        i += 1;
    }
    assert(a@ =~= filhos_dois_pontos(
        primeiro@,
        segundo@,
        posicao_um as int,
        posicao_dois as int,
    ).0);
    assert(b@ =~= filhos_dois_pontos(
        primeiro@,
        segundo@,
        posicao_um as int,
        posicao_dois as int,
    ).1);
    (a, b)
}

/// One-point crossing of genomes that are vectors.
pub struct CruzadorVetor;

impl<T: Copy> Cruzador<Vec<T>> for CruzadorVetor {
    /// The children of a one-point crossing at the cut of some chance,
    /// of `primeiro` with as many genes of `segundo` as it has itself;
    /// copies of the parents where `segundo` has fewer.
    open spec fn pode_gerar(&self, primeiro: &Vec<T>, segundo: &Vec<T>, filhos: (
        Vec<T>,
        Vec<T>,
    )) -> bool {
        if primeiro@.len() <= segundo@.len() {
            exists|chance: u64|
                chance < ESCALA && (filhos.0@, filhos.1@) == #[trigger] filhos_um_ponto(
                    primeiro@,
                    segundo@.take(primeiro@.len() as int),
                    corte(chance, primeiro@.len()),
                )
        } else {
            filhos.0@ == primeiro@ && filhos.1@ == segundo@
        }
    }

    fn cruzar(&self, aleatorio: &mut Aleatorio, primeiro: &Vec<T>, segundo: &Vec<T>) -> (filhos: (
        Vec<T>,
        Vec<T>,
    ))
        ensures
            final(aleatorio).vicio() == old(aleatorio).vicio(),
            primeiro@.len() <= segundo@.len() ==> (old(aleatorio).vicio() matches Some(v) ==> (
                filhos.0@,
                filhos.1@,
            ) == filhos_um_ponto(
                primeiro@,
                segundo@.take(primeiro@.len() as int),
                corte(v, primeiro@.len()),
            )),
    {
        if segundo.len() < primeiro.len() {
            return (copia(primeiro), copia(segundo));
        }
        let chance = aleatorio.chance();
        let mescla = ponto_de_corte(chance, primeiro.len());
        cruza_um_ponto(primeiro, segundo, mescla)
    }
}

/// Breeds a new generation by crossing pairs of a population.
pub struct Cruzamento<Gene, Sel, Cruz> where Cruz: Cruzador<Gene>, Sel: Seletor<Gene> {
    /// Chooses the pairs.
    pub seletor: Sel,
    /// Crosses a pair.
    pub cruzador: Cruz,
    /// The chance, in millionths, that a place in the population breeds.
    pub chance_cruzamento: u64,
    pub phanton_gene: PhantomData<Gene>,
}

/// Whether `f1` and `f2` can come out of crossing two individuals of `s`.
pub open spec fn filhos_de<Cruz, Gene>(
    cruzador: Cruz,
    s: Seq<Individuo<Gene>>,
    f1: Gene,
    f2: Gene,
) -> bool where
    Cruz: Cruzador<Gene>,
 {
    exists|a: Individuo<Gene>, b: Individuo<Gene>|
        s.contains(a) && s.contains(b) && #[trigger] cruzador.pode_gerar(
            &a.genes,
            &b.genes,
            (f1, f2),
        )
}

/// Takes the children of a pair into a new generation, scored, and the
/// pair back into its population, behind who is there.
pub fn acolhe_filhos<Gene>(
    pop: &mut Populacao<Gene>,
    nova_geracao: &mut Populacao<Gene>,
    par: (Individuo<Gene>, Individuo<Gene>),
    filhos: (Gene, Gene),
)
    ensures
        final(pop).individuos@ == old(pop).individuos@.push(par.0).push(par.1),
        final(pop).aparentada(old(pop)),
        old(pop).bem_formada() && old(pop).avaliado(par.0) && old(pop).avaliado(par.1)
            ==> final(pop).bem_formada(),
        final(nova_geracao).individuos@ == old(nova_geracao).individuos@.push(
            Individuo {
                genes: filhos.0,
                aptidao: old(nova_geracao).aptidao.valor(&filhos.0) as i64,
            },
        ).push(
            Individuo {
                genes: filhos.1,
                aptidao: old(nova_geracao).aptidao.valor(&filhos.1) as i64,
            },
        ),
        final(nova_geracao).aparentada(old(nova_geracao)),
        old(nova_geracao).bem_formada() ==> final(nova_geracao).bem_formada(),
{
    nova_geracao.adicionar(filhos.0);
    nova_geracao.adicionar(filhos.1);
    pop.reiterar(par.0);
    pop.reiterar(par.1);
}

impl<Gene, Sel, Cruz> Cruzamento<Gene, Sel, Cruz> where Cruz: Cruzador<Gene>, Sel: Seletor<Gene> {
    pub fn criar(seletor: Sel, cruzador: Cruz, chance_cruzamento: u64) -> (r: Self)
        ensures
            r.seletor == seletor,
            r.cruzador == cruzador,
            r.chance_cruzamento == chance_cruzamento,
    {
        Cruzamento {
            seletor: seletor,
            cruzador: cruzador,
            chance_cruzamento: chance_cruzamento,
            phanton_gene: PhantomData,
        }
    }

    /// Whether a place breeds for which the chance `sorte` is drawn, in
    /// a population of these individuals: the chance is below the
    /// configured one and a pair can be chosen.
    pub open spec fn cruza_com(&self, sorte: u64, individuos: Seq<Individuo<Gene>>) -> bool {
        self.chance_cruzamento > sorte && self.seletor.pode_selecionar(individuos.to_multiset())
    }

    /// Lets one place of the population breed, for which the chance
    /// `sorte` was drawn. Where it breeds, a pair is chosen, its two
    /// children join the new generation and the pair goes back into the
    /// population; where it does not, the new generation stays as it is.
    pub fn cruza_sorteado(
        &self,
        sorte: u64,
        pop: &mut Populacao<Gene>,
        nova_geracao: &mut Populacao<Gene>,
        aleatorio: &mut Aleatorio,
    )
        requires
            old(pop).bem_formada(),
            old(nova_geracao).bem_formada(),
        ensures
            final(pop).bem_formada(),
            final(pop).aparentada(old(pop)),
            final(pop).individuos@.to_multiset() == old(pop).individuos@.to_multiset(),
            final(pop).individuos@.len() == old(pop).individuos@.len(),
            self.chance_cruzamento <= sorte ==> final(pop).individuos@ == old(pop).individuos@,
            final(nova_geracao).bem_formada(),
            final(nova_geracao).aparentada(old(nova_geracao)),
            !self.cruza_com(sorte, old(pop).individuos@) ==> final(nova_geracao).individuos@
                == old(nova_geracao).individuos@,
            self.cruza_com(sorte, old(pop).individuos@) ==> {
                &&& final(nova_geracao).individuos@.len() == old(nova_geracao).individuos@.len() + 2
                &&& final(nova_geracao).individuos@.take(old(nova_geracao).individuos@.len() as int)
                    == old(nova_geracao).individuos@
                &&& filhos_de(
                    self.cruzador,
                    old(pop).individuos@,
                    final(nova_geracao).individuos@[old(nova_geracao).individuos@.len() as int].genes,
                    final(nova_geracao).individuos@[old(nova_geracao).individuos@.len() as int
                        + 1].genes,
                )
            },
    {
        if self.chance_cruzamento > sorte {
            let ghost antes = pop.individuos@;
            let ghost filhos_antes = nova_geracao.individuos@;
            let par = self.seletor.seleciona(pop);
            proof {
                vstd::seq_lib::to_multiset_len(antes);
                vstd::seq_lib::to_multiset_len(pop.individuos@);
            }
            match par {
                Some((primeiro, segundo)) => {
                    let (f1, f2) = self.cruzador.cruzar(aleatorio, &primeiro.genes, &segundo.genes);
                    let ghost sem_par = pop.individuos@;
                    acolhe_filhos(pop, nova_geracao, (primeiro, segundo), (f1, f2));
                    proof {
                        broadcast use vstd::seq_lib::to_multiset_build;

                        vstd::seq_lib::to_multiset_contains(antes, primeiro);
                        vstd::seq_lib::to_multiset_contains(antes, segundo);
                        assert(antes.contains(primeiro) && antes.contains(segundo));
                        assert(filhos_de(self.cruzador, antes, f1, f2));
                        assert(pop.individuos@ == sem_par.push(primeiro).push(segundo));
                        vstd::seq_lib::to_multiset_len(pop.individuos@);
                        assert(nova_geracao.individuos@.take(filhos_antes.len() as int)
                            == filhos_antes);
                    }
                },
                None => {},
            }
        }
    }
}

impl<Gene, Sel, Cruz> Evolucao<Gene> for Cruzamento<Gene, Sel, Cruz> where
    Cruz: Cruzador<Gene>,
    Sel: Seletor<Gene>,
 {
    /// Children in pairs, no more pairs than there are individuals, each
    /// pair bred from two of them. There are none where the chance is
    /// nothing or where no pair can be chosen, and as many pairs as
    /// individuals where the chance is one that no draw reaches and a
    /// pair can be chosen.
    open spec fn pode_evoluir(
        &self,
        antes: Seq<Individuo<Gene>>,
        nova: Seq<Individuo<Gene>>,
    ) -> bool {
        &&& nova.len() <= 2 * antes.len()
        &&& nova.len() % 2 == 0
        &&& forall|j: int|
            0 <= j && 2 * j + 1 < nova.len() ==> filhos_de(
                self.cruzador,
                antes,
                (#[trigger] nova[2 * j]).genes,
                nova[2 * j + 1].genes,
            )
        &&& self.chance_cruzamento == 0 ==> nova.len() == 0
        &&& !self.seletor.pode_selecionar(antes.to_multiset()) ==> nova.len() == 0
        &&& self.chance_cruzamento >= ESCALA && self.seletor.pode_selecionar(antes.to_multiset())
            ==> nova.len() == 2 * antes.len()
    }

    /// Once for each place in the population a chance is drawn and the
    /// place bred with it (see [`Cruzamento::cruza_sorteado`]).
    fn evoluir(&self, pop: &mut Populacao<Gene>) -> (nova: Populacao<Gene>)
        ensures
            final(pop).individuos@.len() == old(pop).individuos@.len(),
            self.chance_cruzamento == 0 ==> final(pop).individuos@ == old(pop).individuos@,
    {
        let mut nova_geracao = pop.preparar_nova_geracao();
        let qtd = pop.individuos.len();
        let mut aleatorio = Aleatorio::criar();
        let ghost velhos = pop.individuos@;
        let mut idx: usize = 0;
        while idx < qtd
            invariant
                idx <= qtd,
                velhos == old(pop).individuos@,
                qtd == velhos.len(),
                pop.individuos@.len() == qtd,
                pop.bem_formada(),
                pop.aparentada(old(pop)),
                pop.individuos@.to_multiset() == velhos.to_multiset(),
                nova_geracao.bem_formada(),
                nova_geracao.aparentada(old(pop)),
                nova_geracao.individuos@.len() <= 2 * idx,
                nova_geracao.individuos@.len() % 2 == 0,
                forall|j: int|
                    0 <= j && 2 * j + 1 < nova_geracao.individuos@.len() ==> filhos_de(
                        self.cruzador,
                        velhos,
                        (#[trigger] nova_geracao.individuos@[2 * j]).genes,
                        nova_geracao.individuos@[2 * j + 1].genes,
                    ),
                self.chance_cruzamento == 0 ==> nova_geracao.individuos@.len() == 0
                    && pop.individuos@ == velhos,
                !self.seletor.pode_selecionar(velhos.to_multiset())
                    ==> nova_geracao.individuos@.len() == 0,
                self.chance_cruzamento >= ESCALA && self.seletor.pode_selecionar(
                    velhos.to_multiset(),
                ) ==> nova_geracao.individuos@.len() == 2 * idx,
            decreases qtd - idx,
        {
            let sorte = aleatorio.chance();
            let ghost antes = pop.individuos@;
            let ghost filhos_antes = nova_geracao.individuos@;
            self.cruza_sorteado(sorte, pop, &mut nova_geracao, &mut aleatorio);
            proof {
                let m = filhos_antes.len() as int;
                if self.cruza_com(sorte, antes) {
                    let f1 = nova_geracao.individuos@[m].genes;
                    let f2 = nova_geracao.individuos@[m + 1].genes;
                    let (a, b) = choose|a: Individuo<Gene>, b: Individuo<Gene>|
                        antes.contains(a) && antes.contains(b) && #[trigger] self.cruzador.pode_gerar(
                            &a.genes,
                            &b.genes,
                            (f1, f2),
                        );
                    vstd::seq_lib::to_multiset_contains(antes, a);
                    vstd::seq_lib::to_multiset_contains(antes, b);
                    vstd::seq_lib::to_multiset_contains(velhos, a);
                    vstd::seq_lib::to_multiset_contains(velhos, b);
                    assert(filhos_de(self.cruzador, velhos, f1, f2));
                }
                assert forall|j: int|
                    0 <= j && 2 * j + 1 < nova_geracao.individuos@.len() implies filhos_de(
                    self.cruzador,
                    velhos,
                    (#[trigger] nova_geracao.individuos@[2 * j]).genes,
                    nova_geracao.individuos@[2 * j + 1].genes,
                ) by {
                    if 2 * j + 1 < m {
                        assert(nova_geracao.individuos@.take(m)[2 * j] == filhos_antes[2 * j]);
                        assert(nova_geracao.individuos@.take(m)[2 * j + 1] == filhos_antes[2 * j
                            + 1]);
                    } else {
                        assert(2 * j == m);
                    }
                }
            }
            idx += 1;
        }
        nova_geracao
    }
}

} // verus!
