use crate::aleatorio::Aleatorio;
use crate::aptidao::Aptidao;
use crate::evolucao::cruzamento::cruza_array_um_ponto;
use crate::evolucao::cruzamento::filhos_um_ponto;
use crate::evolucao::cruzamento::posicao_de_corte;
use crate::evolucao::cruzamento::Cruzador;
use crate::evolucao::mutacao::outro_estado;
use crate::evolucao::mutacao::Mutagenico;
use crate::populacao::Populacao;
use vstd::prelude::*;

verus! {

/// Whether the queens of the columns `i` and `j` threaten one another:
/// they stand in one row or on one diagonal. A genome holds, for each
/// column, the row of its queen.
pub open spec fn ameaca(genes: Seq<usize>, i: int, j: int) -> bool {
    ||| genes[i] == genes[j]
    ||| genes[i] + (j - i) == genes[j]
    ||| genes[i] - (j - i) == genes[j]
}

/// How many of the queens in the columns after `i` and before `j`
/// threaten the queen of column `i`.
pub open spec fn ameacas_a(genes: Seq<usize>, i: int, j: int) -> nat
    decreases j - i,
{
    if j <= i + 1 {
        0
    } else {
        ameacas_a(genes, i, j - 1) + if ameaca(genes, i, j - 1) {
            1nat
        } else {
            0nat
        }
    }
}

/// How many pairs of queens threaten one another, the first of the pair
/// standing in a column before `i`.
pub open spec fn ameacas(genes: Seq<usize>, i: int) -> nat
    decreases i,
{
    if i <= 0 {
        0
    } else {
        ameacas(genes, i - 1) + ameacas_a(genes, i - 1, genes.len() as int)
    }
}

/// No column holds more threats than there are columns after it.
pub proof fn lei_ameacas_a(genes: Seq<usize>, i: int, j: int)
    requires
        i < j,
    ensures
        ameacas_a(genes, i, j) <= j - i - 1,
    decreases j - i,
{
    if j > i + 1 {
        lei_ameacas_a(genes, i, j - 1);
    }
}

/// A board holds no more threats than it has pairs of columns.
pub proof fn lei_ameacas(genes: Seq<usize>, i: int)
    requires
        0 <= i <= genes.len(),
    ensures
        ameacas(genes, i) <= i * genes.len(),
    decreases i,
{
    if i > 0 {
        lei_ameacas(genes, i - 1);
        lei_ameacas_a(genes, i - 1, genes.len() as int);
        assert(i * genes.len() == (i - 1) * genes.len() + genes.len()) by (nonlinear_arith);
    } else {
        assert(0 * genes.len() == 0);
    }
}

/// Scores a board of eight queens: the number of pairs that threaten
/// one another, as a negative number, so that a board without threats
/// scores most.
pub struct AptidaoOitoRainhas;

impl Aptidao<[usize; 8]> for AptidaoOitoRainhas {
    open spec fn valor(&self, genes: &[usize; 8]) -> int {
        -(ameacas(genes@, 8) as int)
    }

    fn calcular_aptidao(&self, genes: &[usize; 8]) -> (r: i64) {
        let mut qtd_rainhas_ameacando: i64 = 0;
        let mut i: usize = 0;
        while i < 8
            invariant
                i <= 8,
                genes@.len() == 8,
                qtd_rainhas_ameacando == -(ameacas(genes@, i as int) as int),
                -64 <= qtd_rainhas_ameacando <= 0,
            decreases 8 - i,
        {
            let posicao_rainha_atual = genes[i];
            let mut j: usize = i + 1;
            let ghost antes = qtd_rainhas_ameacando;
            proof {
                lei_ameacas(genes@, i as int);
                lei_ameacas(genes@, i as int + 1);
            }
            while j < 8
                invariant
                    i < j <= 8,
                    genes@.len() == 8,
                    posicao_rainha_atual == genes@[i as int],
                    qtd_rainhas_ameacando == antes - ameacas_a(genes@, i as int, j as int),
                    antes == -(ameacas(genes@, i as int) as int),
                    ameacas(genes@, i as int) + ameacas_a(genes@, i as int, 8) <= 64,
                    -64 <= antes <= 0,
                decreases 8 - j,
            {
                let posicao_rainha_adversaria = genes[j];
                let distancia = j - i;
                proof {
                    lema_ameacas_crescem(genes@, i as int, j as int + 1, 8);
                }
                let ameacada = if posicao_rainha_atual == posicao_rainha_adversaria {
                    true
                } else if posicao_rainha_adversaria > posicao_rainha_atual {
                    posicao_rainha_adversaria - posicao_rainha_atual == distancia
                } else {
                    posicao_rainha_atual - posicao_rainha_adversaria == distancia
                };
                if ameacada {
                    qtd_rainhas_ameacando = qtd_rainhas_ameacando - 1;
                }
                j += 1;
            }
            i += 1;
        }
        qtd_rainhas_ameacando
    }
}

/// Up to a later column there are no fewer threats.
proof fn lema_ameacas_crescem(genes: Seq<usize>, i: int, j: int, k: int)
    requires
        i < j <= k,
    ensures
        ameacas_a(genes, i, j) <= ameacas_a(genes, i, k),
    decreases k - j,
{
    if j < k {
        lema_ameacas_crescem(genes, i, j, k - 1);
    }
}

/// Mutates and crosses boards of eight queens.
pub struct PosicoesRainhas;

impl Mutagenico<[usize; 8]> for PosicoesRainhas {
    /// The queen of one column stands in another of the rows `0..8`.
    open spec fn pode_resultar(&self, gene: &[usize; 8], mutante: &[usize; 8]) -> bool {
        exists|linha: int, coluna: usize|
            0 <= linha < 8 && coluna < 8 && coluna != gene@[linha] && mutante@
                == #[trigger] gene@.update(linha, coluna)
    }

    fn mutar(&self, genes: &[usize; 8], aleatorio: &mut Aleatorio) -> (mutante: [usize; 8])
        ensures
            final(aleatorio).vicio() == old(aleatorio).vicio(),
    {
        let linha = aleatorio.intervalo(0, 8);
        let atual = genes[linha];
        let sorteado = if atual < 8 {
            aleatorio.intervalo(0, 7)
        } else {
            aleatorio.intervalo(0, 8)
        };
        let coluna = outro_estado(8, atual, sorteado);
        let mut mutante = *genes;
        mutante[linha] = coluna;
        assert(mutante@ == genes@.update(linha as int, coluna));
        mutante
    }
}

impl Cruzador<[usize; 8]> for PosicoesRainhas {
    /// One-point crossing at a cut before the last column.
    open spec fn pode_gerar(&self, primeiro: &[usize; 8], segundo: &[usize; 8], filhos: (
        [usize; 8],
        [usize; 8],
    )) -> bool {
        exists|c: int|
            0 <= c < 8 && (filhos.0@, filhos.1@) == #[trigger] filhos_um_ponto(
                primeiro@,
                segundo@,
                c,
            )
    }

    fn cruzar(&self, aleatorio: &mut Aleatorio, primeiro: &[usize; 8], segundo: &[usize; 8]) -> (filhos:
        ([usize; 8], [usize; 8]))
        ensures
            final(aleatorio).vicio() == old(aleatorio).vicio(),
            old(aleatorio).vicio() matches Some(v) ==> (filhos.0@, filhos.1@) == filhos_um_ponto(
                primeiro@,
                segundo@,
                posicao_de_corte(v, 8),
            ),
    {
        let sorte = aleatorio.chance();
        proof {
            crate::evolucao::cruzamento::lei_posicao_de_corte(sorte, 8);
        }
        cruza_array_um_ponto(sorte, primeiro, segundo)
    }
}

/// Mutates boards of eight queens.
pub struct MutagenicoOitoRainhas;

/// Adds `qtd` boards drawn at random to a population. No queen of theirs
/// stands in the last row.
pub fn preencher_com_posicoes_aleatorias(pop: &mut Populacao<[usize; 8]>, qtd: usize)
    ensures
        final(pop).individuos@.len() == old(pop).individuos@.len() + qtd,
        final(pop).individuos@.take(old(pop).individuos@.len() as int) == old(pop).individuos@,
        forall|k: int, i: int|
            old(pop).individuos@.len() <= k < final(pop).individuos@.len() && 0 <= i < 8
                ==> #[trigger] final(pop).individuos@[k].genes@[i] < 7,
        final(pop).aparentada(old(pop)),
        old(pop).bem_formada() ==> final(pop).bem_formada(),
{
    let mut aleatorio = Aleatorio::criar();
    let ghost antes = pop.individuos@;
    let mut n: usize = 0;
    while n < qtd
        invariant
            n <= qtd,
            antes == old(pop).individuos@,
            pop.individuos@.len() == antes.len() + n,
            pop.individuos@.take(antes.len() as int) == antes,
            forall|k: int, i: int|
                antes.len() <= k < pop.individuos@.len() && 0 <= i < 8
                    ==> #[trigger] pop.individuos@[k].genes@[i] < 7,
            pop.aparentada(old(pop)),
            old(pop).bem_formada() ==> pop.bem_formada(),
        decreases qtd - n,
    {
        let mut tabuleiro = [0usize;8];
        let mut i: usize = 0;
        while i < 8
            invariant
                i <= 8,
                forall|k: int| 0 <= k < i ==> tabuleiro@[k] < 7,
            decreases 8 - i,
        {
            let linha = aleatorio.intervalo(0, 7);
            tabuleiro[i] = linha;
            i += 1;
        }
        let ghost ate_aqui = pop.individuos@;
        pop.adicionar(tabuleiro);
        proof {
            assert(pop.individuos@.take(antes.len() as int) == ate_aqui.take(antes.len() as int));
            assert forall|k: int, i: int|
                antes.len() <= k < pop.individuos@.len() && 0 <= i
                    < 8 implies #[trigger] pop.individuos@[k].genes@[i] < 7 by {
                if k < ate_aqui.len() {
                    assert(pop.individuos@[k] == ate_aqui[k]);
                }
            }
        }
        n += 1;
    }
}

} // verus!
