use crate::aleatorio::Aleatorio;
use crate::aptidao::Aptidao;
use crate::evolucao::cruzamento::cortes_em_ordem;
use crate::evolucao::cruzamento::cruza_array_dois_pontos;
use crate::evolucao::cruzamento::cruza_array_um_ponto;
use crate::evolucao::cruzamento::filhos_dois_pontos;
use crate::evolucao::cruzamento::filhos_um_ponto;
use crate::evolucao::cruzamento::posicao_de_corte;
use crate::evolucao::cruzamento::Cruzador;
use crate::evolucao::mutacao::Mutagenico;
use crate::populacao::CriadorIndividuos;
use crate::populacao::Operacao;
use crate::problemas::configuracao::textos_iguais;
use crate::problemas::configuracao::Configuracao;
use crate::problemas::multimodal::muta_um_de_trinta;
use crate::problemas::multimodal::sorteia_trinta;
use vstd::prelude::*;

verus! {

/// The sum of the squares of `genes`.
pub open spec fn soma_quadrados(genes: Seq<i32>) -> int
    decreases genes.len(),
{
    if genes.len() == 0 {
        0
    } else {
        soma_quadrados(genes.drop_last()) + genes.last() * genes.last()
    }
}

/// Four times the sum of the squares of `genes`, each moved up by a
/// half: the sum of the squares of their doubles plus one.
pub open spec fn soma_quadrados_deslocados(genes: Seq<i32>) -> int
    decreases genes.len(),
{
    if genes.len() == 0 {
        0
    } else {
        soma_quadrados_deslocados(genes.drop_last()) + (2 * genes.last() + 1) * (2 * genes.last()
            + 1)
    }
}

/// `soma` as a fitness: itself, or `i64::MAX` where it is beyond that.
pub open spec fn limitada(soma: int) -> int {
    if soma > i64::MAX {
        i64::MAX as int
    } else {
        soma
    }
}

/// The sum of the squares of thirty whole numbers.
pub struct UnimodalArranjoUm;

impl UnimodalArranjoUm {
    /// Nothing in a configuration concerns this problem.
    pub fn processa(&self, _conf: &Configuracao) {
    }

    /// The least value is sought.
    pub fn operacao(&self) -> (r: Operacao)
        ensures
            r == Operacao::Min,
    {
        Operacao::Min
    }
}

impl Aptidao<[i32; 30]> for UnimodalArranjoUm {
    open spec fn valor(&self, genes: &[i32; 30]) -> int {
        limitada(soma_quadrados(genes@))
    }

    fn calcular_aptidao(&self, genes: &[i32; 30]) -> (r: i64) {
        let mut soma: i128 = 0;
        let mut i: usize = 0;
        while i < 30
            invariant
                i <= 30,
                genes@.len() == 30,
                soma == soma_quadrados(genes@.take(i as int)),
                0 <= soma <= i * 0x4000_0000_0000_0000,
            decreases 30 - i,
        {
            let v: i128 = genes[i] as i128;
            proof {
                assert(genes@.take(i as int + 1).drop_last() == genes@.take(i as int));
                assert(genes@.take(i as int + 1).last() == genes@[i as int]);
                assert(0 <= v * v <= 0x4000_0000_0000_0000) by (nonlinear_arith)
                    requires
                        -0x8000_0000 <= v <= 0x7fff_ffff,
                ;
            }
            soma = soma + v * v;
            i += 1;
        }
        proof {
            assert(genes@.take(30) == genes@);
        }
        if soma > i64::MAX as i128 {
            i64::MAX
        } else {
            soma as i64
        }
    }
}

impl CriadorIndividuos<[i32; 30]> for UnimodalArranjoUm {
    /// Thirty numbers from -100 up to, but not including, 100.
    open spec fn pode_criar(&self, genes: &[i32; 30]) -> bool {
        forall|i: int| 0 <= i < 30 ==> -100 <= #[trigger] genes@[i] < 100
    }

    fn criar(&self, aleatorio: &mut Aleatorio) -> (genes: [i32; 30])
        ensures
            final(aleatorio).vicio() == old(aleatorio).vicio(),
    {
        sorteia_trinta(aleatorio, -100, 100)
    }
}

impl Cruzador<[i32; 30]> for UnimodalArranjoUm {
    open spec fn pode_gerar(&self, primeiro: &[i32; 30], segundo: &[i32; 30], filhos: (
        [i32; 30],
        [i32; 30],
    )) -> bool {
        exists|c: int|
            0 <= c < 30 && (filhos.0@, filhos.1@) == #[trigger] filhos_um_ponto(
                primeiro@,
                segundo@,
                c,
            )
    }

    fn cruzar(&self, aleatorio: &mut Aleatorio, primeiro: &[i32; 30], segundo: &[i32; 30]) -> (filhos:
        ([i32; 30], [i32; 30]))
        ensures
            final(aleatorio).vicio() == old(aleatorio).vicio(),
            old(aleatorio).vicio() matches Some(v) ==> (filhos.0@, filhos.1@) == filhos_um_ponto(
                primeiro@,
                segundo@,
                posicao_de_corte(v, 30),
            ),
    {
        let sorte = aleatorio.chance();
        proof {
            crate::evolucao::cruzamento::lei_posicao_de_corte(sorte, 30);
        }
        cruza_array_um_ponto(sorte, primeiro, segundo)
    }
}

impl Mutagenico<[i32; 30]> for UnimodalArranjoUm {
    open spec fn pode_resultar(&self, gene: &[i32; 30], mutante: &[i32; 30]) -> bool {
        exists|indice: int, valor: i32|
            0 <= indice < 30 && -100 <= valor < 100 && valor != gene@[indice] && mutante@
                == #[trigger] gene@.update(indice, valor)
    }

    fn mutar(&self, gene: &[i32; 30], aleatorio: &mut Aleatorio) -> (mutante: [i32; 30])
        ensures
            final(aleatorio).vicio() == old(aleatorio).vicio(),
    {
        muta_um_de_trinta(gene, aleatorio, -100, 100)
    }
}

/// The sum of the squares of thirty whole numbers, each moved up by a
/// half. Its fitness is counted in quarters, which makes it a whole
/// number.
pub struct UnimodalArranjoDois {
    cruzamento_um_ponto: bool,
}

impl UnimodalArranjoDois {
    /// Whether genomes are crossed at one point; at two if not.
    pub closed spec fn cruzamento_um_ponto(&self) -> bool {
        self.cruzamento_um_ponto
    }

    /// The problem with crossing at one point.
    pub fn criar() -> (r: Self)
        ensures
            r.cruzamento_um_ponto(),
    {
        UnimodalArranjoDois { cruzamento_um_ponto: true }
    }

    /// Takes from a configuration how genomes are crossed: at one point
    /// where it says `um-ponto`, at two where it says anything else.
    pub fn processa(&mut self, conf: &Configuracao)
        ensures
            final(self).cruzamento_um_ponto() == (vstd::utf8::encode_utf8(
                conf.modificador_cruzamento@,
            ) == vstd::utf8::encode_utf8("um-ponto"@)),
    {
        self.cruzamento_um_ponto = textos_iguais(conf.modificador_cruzamento.as_str(), "um-ponto");
    }

    /// The least value is sought.
    pub fn operacao(&self) -> (r: Operacao)
        ensures
            r == Operacao::Min,
    {
        Operacao::Min
    }
}

impl Aptidao<[i32; 30]> for UnimodalArranjoDois {
    open spec fn valor(&self, genes: &[i32; 30]) -> int {
        limitada(soma_quadrados_deslocados(genes@))
    }

    fn calcular_aptidao(&self, genes: &[i32; 30]) -> (r: i64) {
        let mut soma: i128 = 0;
        let mut i: usize = 0;
        while i < 30
            invariant
                i <= 30,
                genes@.len() == 30,
                soma == soma_quadrados_deslocados(genes@.take(i as int)),
                0 <= soma <= i * 0x1_0000_0000_0000_0000,
            decreases 30 - i,
        {
            let v: i128 = 2 * (genes[i] as i128) + 1;
            proof {
                assert(genes@.take(i as int + 1).drop_last() == genes@.take(i as int));
                assert(genes@.take(i as int + 1).last() == genes@[i as int]);
                assert(0 <= v * v <= 0x1_0000_0000_0000_0000) by (nonlinear_arith)
                    requires
                        -0x1_0000_0000 <= v <= 0x1_0000_0000,
                ;
            }
            soma = soma + v * v;
            i += 1;
        }
        proof {
            assert(genes@.take(30) == genes@);
        }
        if soma > i64::MAX as i128 {
            i64::MAX
        } else {
            soma as i64
        }
    }
}

impl CriadorIndividuos<[i32; 30]> for UnimodalArranjoDois {
    /// Thirty numbers from -100 up to, but not including, 100.
    open spec fn pode_criar(&self, genes: &[i32; 30]) -> bool {
        forall|i: int| 0 <= i < 30 ==> -100 <= #[trigger] genes@[i] < 100
    }

    fn criar(&self, aleatorio: &mut Aleatorio) -> (genes: [i32; 30])
        ensures
            final(aleatorio).vicio() == old(aleatorio).vicio(),
    {
        sorteia_trinta(aleatorio, -100, 100)
    }
}

impl Cruzador<[i32; 30]> for UnimodalArranjoDois {
    open spec fn pode_gerar(&self, primeiro: &[i32; 30], segundo: &[i32; 30], filhos: (
        [i32; 30],
        [i32; 30],
    )) -> bool {
        if self.cruzamento_um_ponto() {
            exists|c: int|
                0 <= c < 30 && (filhos.0@, filhos.1@) == #[trigger] filhos_um_ponto(
                    primeiro@,
                    segundo@,
                    c,
                )
        } else {
            exists|c: int, d: int|
                0 <= c <= d < 30 && (filhos.0@, filhos.1@) == #[trigger] filhos_dois_pontos(
                    primeiro@,
                    segundo@,
                    c,
                    d,
                )
        }
    }

    fn cruzar(&self, aleatorio: &mut Aleatorio, primeiro: &[i32; 30], segundo: &[i32; 30]) -> (filhos:
        ([i32; 30], [i32; 30]))
        ensures
            final(aleatorio).vicio() == old(aleatorio).vicio(),
    {
        if self.cruzamento_um_ponto {
            let sorte = aleatorio.chance();
            proof {
                crate::evolucao::cruzamento::lei_posicao_de_corte(sorte, 30);
            }
            cruza_array_um_ponto(sorte, primeiro, segundo)
        } else {
            let sorte_um = aleatorio.chance();
            let sorte_dois = aleatorio.chance();
            proof {
                crate::evolucao::cruzamento::lei_posicao_de_corte(sorte_um, 30);
                crate::evolucao::cruzamento::lei_posicao_de_corte(sorte_dois, 30);
            }
            let filhos = cruza_array_dois_pontos(sorte_um, sorte_dois, primeiro, segundo);
            proof {
                let cortes = cortes_em_ordem(
                    posicao_de_corte(sorte_um, 30),
                    posicao_de_corte(sorte_dois, 30),
                );
                assert((filhos.0@, filhos.1@) == filhos_dois_pontos(
                    primeiro@,
                    segundo@,
                    cortes.0,
                    cortes.1,
                ));
            }
            filhos
        }
    }
}

impl Mutagenico<[i32; 30]> for UnimodalArranjoDois {
    open spec fn pode_resultar(&self, gene: &[i32; 30], mutante: &[i32; 30]) -> bool {
        exists|indice: int, valor: i32|
            0 <= indice < 30 && -100 <= valor < 100 && valor != gene@[indice] && mutante@
                == #[trigger] gene@.update(indice, valor)
    }

    fn mutar(&self, gene: &[i32; 30], aleatorio: &mut Aleatorio) -> (mutante: [i32; 30])
        ensures
            final(aleatorio).vicio() == old(aleatorio).vicio(),
    {
        muta_um_de_trinta(gene, aleatorio, -100, 100)
    }
}

} // verus!
