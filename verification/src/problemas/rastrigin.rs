use crate::aleatorio::Aleatorio;
use crate::evolucao::cruzamento::corta_array;
use crate::evolucao::cruzamento::posicao_de_corte;
use crate::evolucao::cruzamento::Cruzador;
use crate::evolucao::mutacao::Mutagenico;
use crate::populacao::CriadorIndividuos;
use crate::populacao::Operacao;
use crate::problemas::configuracao::Configuracao;
use vstd::prelude::*;

verus! {

/// The Rastrigin function of two numbers, each spelt by sixteen bits of
/// the genome: the first by the upper half, the second by the lower.
pub struct RastriginBinario;

impl RastriginBinario {
    /// Nothing in a configuration concerns this problem.
    pub fn processa(&self, _conf: &Configuracao) {
    }

    /// The greatest value is sought.
    pub fn operacao(&self) -> (r: Operacao)
        ensures
            r == Operacao::Max,
    {
        Operacao::Max
    }
}

/// The bits of `primeiro` from `tamanho` up with those of `segundo`
/// below, and the other way round; the lowest bit is at position 0.
pub open spec fn filhos_de_bits(primeiro: u32, segundo: u32, tamanho: u32) -> (u32, u32) {
    let mascara = !0u32 << tamanho;
    ((mascara & primeiro) | (!mascara & segundo), (!mascara & primeiro) | (mascara & segundo))
}

/// Crosses two genomes of bits at the position `tamanho`.
pub fn cruza_bits(primeiro: u32, segundo: u32, tamanho: u32) -> (filhos: (u32, u32))
    requires
        tamanho < 32,
    ensures
        filhos == filhos_de_bits(primeiro, segundo, tamanho),
{
    let mascara = !0u32 << tamanho;
    let f1 = (mascara & primeiro) | (!mascara & segundo);
    let f2 = (!mascara & primeiro) | (mascara & segundo);
    (f1, f2)
}

/// Crossing bits moves each bit to one child and the bit of the other
/// parent at that position to the other child.
pub proof fn lei_bits_conservados(primeiro: u32, segundo: u32, tamanho: u32)
    requires
        tamanho < 32,
    ensures
        filhos_de_bits(primeiro, segundo, tamanho).0 ^ filhos_de_bits(primeiro, segundo, tamanho).1
            == primeiro ^ segundo,
        filhos_de_bits(primeiro, segundo, tamanho).0 & filhos_de_bits(primeiro, segundo, tamanho).1
            == primeiro & segundo,
{
    let mascara = !0u32 << tamanho;
    assert(((mascara & primeiro) | (!mascara & segundo)) ^ ((!mascara & primeiro) | (mascara
        & segundo)) == primeiro ^ segundo) by (bit_vector);
    assert(((mascara & primeiro) | (!mascara & segundo)) & ((!mascara & primeiro) | (mascara
        & segundo)) == primeiro & segundo) by (bit_vector);
}

impl Cruzador<u32> for RastriginBinario {
    open spec fn pode_gerar(&self, primeiro: &u32, segundo: &u32, filhos: (u32, u32)) -> bool {
        exists|tamanho: u32|
            tamanho < 32 && filhos == #[trigger] filhos_de_bits(*primeiro, *segundo, tamanho)
    }

    fn cruzar(&self, aleatorio: &mut Aleatorio, primeiro: &u32, segundo: &u32) -> (filhos: (u32, u32))
        ensures
            final(aleatorio).vicio() == old(aleatorio).vicio(),
            old(aleatorio).vicio() matches Some(v) ==> filhos == filhos_de_bits(
                *primeiro,
                *segundo,
                posicao_de_corte(v, 32) as u32,
            ),
    {
        let sorte = aleatorio.chance();
        proof {
            crate::evolucao::cruzamento::lei_posicao_de_corte(sorte, 32);
        }
        let tamanho = corta_array(sorte, 32) as u32;
        cruza_bits(*primeiro, *segundo, tamanho)
    }
}

impl CriadorIndividuos<u32> for RastriginBinario {
    /// Any genome but the one with all bits set.
    open spec fn pode_criar(&self, genes: &u32) -> bool {
        *genes < u32::MAX
    }

    fn criar(&self, aleatorio: &mut Aleatorio) -> (genes: u32)
        ensures
            final(aleatorio).vicio() == old(aleatorio).vicio(),
    {
        aleatorio.intervalo(0, u32::MAX as usize) as u32
    }
}

impl Mutagenico<u32> for RastriginBinario {
    /// One bit is turned over.
    open spec fn pode_resultar(&self, gene: &u32, mutante: &u32) -> bool {
        exists|posicao: usize| posicao < 32 && *mutante == #[trigger] (*gene ^ (1u32 << posicao))
    }

    fn mutar(&self, gene: &u32, aleatorio: &mut Aleatorio) -> (mutante: u32)
        ensures
            final(aleatorio).vicio() == old(aleatorio).vicio(),
    {
        let posicao = aleatorio.intervalo(0, 32);
        trocar_bit(*gene, posicao)
    }
}

/// The two halves of a genome, the upper one first.
pub fn divide(genes: u32) -> (r: (u16, u16))
    ensures
        r.0 == genes / 0x10000,
        r.1 == genes % 0x10000,
{
    ((genes / 0x10000) as u16, (genes % 0x10000) as u16)
}

/// `valor` with the bit at `posicao` turned over, the lowest bit being at
/// position 0.
pub fn trocar_bit(valor: u32, posicao: usize) -> (r: u32)
    requires
        posicao < 32,
    ensures
        r == valor ^ (1u32 << posicao),
{
    valor ^ (1u32 << posicao)
}

} // verus!
