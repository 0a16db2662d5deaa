use crate::aleatorio::Aleatorio;
use crate::aleatorio::ESCALA;
use crate::evolucao::cruzamento::cruza_array_um_ponto;
use crate::evolucao::cruzamento::filhos_um_ponto;
use crate::evolucao::cruzamento::posicao_de_corte;
use crate::evolucao::cruzamento::Cruzador;
use crate::evolucao::mutacao::Mutagenico;
use crate::populacao::CriadorIndividuos;
use crate::populacao::Operacao;
use crate::problemas::configuracao::Configuracao;
use vstd::prelude::*;

verus! {

/// The number that `bits` spell, the first bit counting most.
pub open spec fn numero(bits: Seq<bool>) -> int
    decreases bits.len(),
{
    if bits.len() == 0 {
        0
    } else {
        2 * numero(bits.drop_last()) + if bits.last() {
            1int
        } else {
            0int
        }
    }
}

/// Where a ten-bit number `v` lies between -500 and 500 when `0` stands
/// for -500 and `1023` for 500, rounded towards zero.
pub open spec fn valor_mapeado(v: int) -> int {
    let t = 1000 * v - 511500;
    if t >= 0 {
        t / 1023
    } else {
        -((-t) / 1023)
    }
}

/// A number of `n` bits is below two to the power of `n`.
pub proof fn lei_numero(bits: Seq<bool>)
    ensures
        0 <= numero(bits) < vstd::arithmetic::power2::pow2(bits.len()),
    decreases bits.len(),
{
    vstd::arithmetic::power2::lemma2_to64();
    if bits.len() > 0 {
        lei_numero(bits.drop_last());
        vstd::arithmetic::power2::lemma_pow2_unfold(bits.len());
    }
}

/// A number of up to ten bits is below 1024.
pub proof fn lei_numero_dez(bits: Seq<bool>)
    requires
        bits.len() <= 10,
    ensures
        0 <= numero(bits) < 1024,
{
    lei_numero(bits);
    vstd::arithmetic::power2::lemma2_to64();
    if bits.len() < 10 {
        vstd::arithmetic::power2::lemma_pow2_strictly_increases(bits.len(), 10);
    }
}

/// Reads `valores` ten bits at a time, each ten a number between -500
/// and 500. Bits left over at the end, fewer than ten, are dropped.
pub fn map(valores: &[bool]) -> (mapeados: Vec<i32>)
    ensures
        mapeados@.len() == valores@.len() / 10,
        forall|k: int|
            0 <= k < mapeados@.len() ==> #[trigger] mapeados@[k] == valor_mapeado(
                numero(valores@.subrange(10 * k, 10 * k + 10)),
            ),
{
    let mut valores_mapeados: Vec<i32> = Vec::new();
    let mut valor: i32 = 0;
    let n = valores.len();
    let mut idx: usize = 0;
    while idx < n
        invariant
            idx <= n,
            n == valores@.len(),
            valores_mapeados@.len() == idx / 10,
            valor == numero(valores@.subrange(idx - idx % 10, idx as int)),
            forall|k: int|
                0 <= k < valores_mapeados@.len() ==> #[trigger] valores_mapeados@[k]
                    == valor_mapeado(numero(valores@.subrange(10 * k, 10 * k + 10))),
        decreases n - idx,
    {
        let ghost antes = valores@.subrange(idx - idx % 10, idx as int);
        let ghost agora = valores@.subrange(idx - idx % 10, idx as int + 1);
        proof {
            lei_numero_dez(antes);
            lei_numero_dez(agora);
            assert(agora.drop_last() == antes);
            assert(agora.last() == valores@[idx as int]);
            assert(numero(agora) == 2 * numero(antes) + if valores@[idx as int] {
                1int
            } else {
                0int
            });
        }
        valor = valor * 2;
        if valores[idx] {
            valor = valor + 1;
        }
        let resto = (idx + 1) % 10;
        if resto == 0 {
            let t: i32 = 1000 * valor - 511500;
            let valor_processado: i32 = if t >= 0 {
                t / 1023
            } else {
                -((-t) / 1023)
            };
            proof {
                let k = valores_mapeados@.len() as int;
                assert(idx - idx % 10 == 10 * k);
                assert(agora == valores@.subrange(10 * k, 10 * k + 10));
            }
            valores_mapeados.push(valor_processado);
            valor = 0;
            proof {
                assert(valores@.subrange(idx as int + 1, idx as int + 1).len() == 0);
            }
        } else {
            proof {
                assert((idx + 1) - (idx + 1) % 10 == idx - idx % 10);
            }
        }
        idx += 1;
    }
    valores_mapeados
}

/// A function with many minima, on thirty whole numbers.
pub struct MultimodalArranjo;

impl MultimodalArranjo {
    /// Nothing in a configuration concerns this problem.
    pub fn processa(&self, _conf: &Configuracao) {
    }

    /// The least value is sought.
    pub fn operacao(&self) -> (r: Operacao)
        ensures
            r == Operacao::Min,
    {
        Operacao::Min
    }
}

/// An array of thirty numbers, each drawn from `inicio..fim`.
pub fn sorteia_trinta(aleatorio: &mut Aleatorio, inicio: i32, fim: i32) -> (genes: [i32; 30])
    requires
        inicio < fim,
    ensures
        forall|i: int| 0 <= i < 30 ==> inicio <= #[trigger] genes@[i] < fim,
        final(aleatorio).vicio() == old(aleatorio).vicio(),
{
    let mut genes = [0i32;30];
    let mut idx: usize = 0;
    while idx < 30
        invariant
            idx <= 30,
            inicio < fim,
            forall|i: int| 0 <= i < idx ==> inicio <= #[trigger] genes@[i] < fim,
            aleatorio.vicio() == old(aleatorio).vicio(),
        decreases 30 - idx,
    {
        let gene = aleatorio.intervalo_inteiro(inicio, fim);
        genes[idx] = gene;
        idx += 1;
    }
    genes
}

/// A copy of `gene` with, at one position drawn at random, another
/// value, drawn from `inicio..fim`. Where that range holds one value
/// only, which the position has already, the copy is like `gene`.
pub fn muta_um_de_trinta(
    gene: &[i32; 30],
    aleatorio: &mut Aleatorio,
    inicio: i32,
    fim: i32,
) -> (mutante: [i32; 30])
    requires
        inicio < fim,
    ensures
        exists|indice: int, valor: i32|
            {
                &&& 0 <= indice < 30
                &&& inicio <= valor < fim
                &&& valor != gene@[indice] || fim - inicio == 1
                &&& mutante@ == #[trigger] gene@.update(indice, valor)
            },
        final(aleatorio).vicio() == old(aleatorio).vicio(),
{
    let mut mutante = *gene;
    let indice = aleatorio.intervalo(0, 30);
    let atual = gene[indice];
    let valor = if inicio <= atual && atual < fim {
        if fim - 1 == inicio {
            atual
        } else {
            let sorteado = aleatorio.intervalo_inteiro(inicio, fim - 1);
            if sorteado >= atual {
                sorteado + 1
            } else {
                sorteado
            }
        }
    } else {
        aleatorio.intervalo_inteiro(inicio, fim)
    };
    mutante[indice] = valor;
    assert(mutante@ == gene@.update(indice as int, valor));
    mutante
}

impl CriadorIndividuos<[i32; 30]> for MultimodalArranjo {
    /// Thirty numbers from -500 up to, but not including, 500.
    open spec fn pode_criar(&self, genes: &[i32; 30]) -> bool {
        forall|i: int| 0 <= i < 30 ==> -500 <= #[trigger] genes@[i] < 500
    }

    fn criar(&self, aleatorio: &mut Aleatorio) -> (genes: [i32; 30])
        ensures
            final(aleatorio).vicio() == old(aleatorio).vicio(),
    {
        sorteia_trinta(aleatorio, -500, 500)
    }
}

impl Cruzador<[i32; 30]> for MultimodalArranjo {
    open spec fn pode_gerar(&self, primeiro: &[i32; 30], segundo: &[i32; 30], filhos: (
        [i32; 30],
        [i32; 30],
    )) -> bool {
        exists|c: int|
            0 <= c <= 30 && (filhos.0@, filhos.1@) == #[trigger] filhos_um_ponto(
                primeiro@,
                segundo@,
                c,
            )
    }

    fn cruzar(&self, aleatorio: &mut Aleatorio, primeiro: &[i32; 30], segundo: &[i32; 30]) -> (filhos:
        ([i32; 30], [i32; 30]))
        ensures
            final(aleatorio).vicio() == old(aleatorio).vicio(),
    {
        let sorte = aleatorio.chance();
        proof {
            crate::evolucao::cruzamento::lei_posicao_de_corte(sorte, 30);
        }
        cruza_array_um_ponto(sorte, primeiro, segundo)
    }
}

impl Mutagenico<[i32; 30]> for MultimodalArranjo {
    open spec fn pode_resultar(&self, gene: &[i32; 30], mutante: &[i32; 30]) -> bool {
        exists|indice: int, valor: i32|
            0 <= indice < 30 && -100 <= valor < 100 && valor != gene@[indice] && mutante@
                == #[trigger] gene@.update(indice, valor)
    }

    fn mutar(&self, gene: &[i32; 30], aleatorio: &mut Aleatorio) -> (mutante: [i32; 30])
        ensures
            final(aleatorio).vicio() == old(aleatorio).vicio(),
    {
        muta_um_de_trinta(gene, aleatorio, -100, 100)
    }
}

/// The same function on three hundred bits, ten for each number.
pub struct MultimodalBinario;

impl MultimodalBinario {
    /// Nothing in a configuration concerns this problem.
    pub fn processa(&self, _conf: &Configuracao) {
    }

    /// The least value is sought.
    pub fn operacao(&self) -> (r: Operacao)
        ensures
            r == Operacao::Min,
    {
        Operacao::Min
    }
}

impl CriadorIndividuos<[bool; 300]> for MultimodalBinario {
    /// Three hundred bits, each set where a chance is above a half.
    fn criar(&self, aleatorio: &mut Aleatorio) -> (genes: [bool; 300])
        ensures
            final(aleatorio).vicio() == old(aleatorio).vicio(),
            old(aleatorio).vicio() matches Some(v) ==> forall|i: int|
                0 <= i < 300 ==> #[trigger] genes@[i] == (v > ESCALA / 2),
    {
        let mut genes = [false;300];
        let mut idx: usize = 0;
        while idx < 300
            invariant
                idx <= 300,
                aleatorio.vicio() == old(aleatorio).vicio(),
                old(aleatorio).vicio() matches Some(v) ==> forall|i: int|
                    0 <= i < idx ==> #[trigger] genes@[i] == (v > ESCALA / 2),
            decreases 300 - idx,
        {
            let bit = aleatorio.chance() > ESCALA / 2;
            genes[idx] = bit;
            idx += 1;
        }
        genes
    }
}

impl Cruzador<[bool; 300]> for MultimodalBinario {
    open spec fn pode_gerar(&self, primeiro: &[bool; 300], segundo: &[bool; 300], filhos: (
        [bool; 300],
        [bool; 300],
    )) -> bool {
        exists|c: int|
            0 <= c < 300 && (filhos.0@, filhos.1@) == #[trigger] filhos_um_ponto(
                primeiro@,
                segundo@,
                c,
            )
    }

    fn cruzar(
        &self,
        aleatorio: &mut Aleatorio,
        primeiro: &[bool; 300],
        segundo: &[bool; 300],
    ) -> (filhos: ([bool; 300], [bool; 300]))
        ensures
            final(aleatorio).vicio() == old(aleatorio).vicio(),
            old(aleatorio).vicio() matches Some(v) ==> (filhos.0@, filhos.1@) == filhos_um_ponto(
                primeiro@,
                segundo@,
                posicao_de_corte(v, 300),
            ),
    {
        let sorte = aleatorio.chance();
        proof {
            crate::evolucao::cruzamento::lei_posicao_de_corte(sorte, 300);
        }
        cruza_array_um_ponto(sorte, primeiro, segundo)
    }
}

impl Mutagenico<[bool; 300]> for MultimodalBinario {
    /// One bit is turned over.
    open spec fn pode_resultar(&self, gene: &[bool; 300], mutante: &[bool; 300]) -> bool {
        exists|indice: int, bit: bool|
            0 <= indice < 300 && bit != gene@[indice] && mutante@ == #[trigger] gene@.update(
                indice,
                bit,
            )
    }

    fn mutar(&self, gene: &[bool; 300], aleatorio: &mut Aleatorio) -> (mutante: [bool; 300])
        ensures
            final(aleatorio).vicio() == old(aleatorio).vicio(),
    {
        let mut mutante = *gene;
        let indice = aleatorio.intervalo(0, 300);
        let bit = !gene[indice];
        mutante[indice] = bit;
        assert(mutante@ == gene@.update(indice as int, bit));
        mutante
    }
}

} // verus!
