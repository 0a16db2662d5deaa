use crate::aleatorio::Aleatorio;
use crate::aleatorio::ESCALA;
use crate::evolucao::selecao::Seletor;
use crate::populacao::Individuo;
use crate::populacao::Populacao;
use vstd::multiset::Multiset;
use vstd::prelude::*;

verus! {

/// Lets chance choose the pair, each individual with a share of the wheel
/// in proportion to its fitness: the larger the fitness, the larger the
/// share, whether the population maximises or minimises.
pub struct SeletorPorRoleta;

impl SeletorPorRoleta {
    pub fn criar() -> (r: Self) {
        SeletorPorRoleta
    }
}

/// The share of one individual: the chances from `faixa_inicio` up to,
/// but not including, `faixa_fim`, in millionths.
#[derive(Debug)]
pub struct Roleta {
    /// The individual's position in the population.
    pub idx: usize,
    pub faixa_inicio: u64,
    pub faixa_fim: u64,
}

impl Roleta {
    /// Whether `chance` falls into this share.
    pub open spec fn contem(&self, chance: u64) -> bool {
        self.faixa_inicio <= chance < self.faixa_fim
    }
}

/// The size of a fitness, whatever its sign.
pub open spec fn peso(aptidao: i64) -> nat {
    if aptidao < 0 {
        (-aptidao) as nat
    } else {
        aptidao as nat
    }
}

/// The sum of the sizes of the fitness values of `s`.
pub open spec fn soma_pesos<Gene>(s: Seq<Individuo<Gene>>) -> nat
    decreases s.len(),
{
    if s.len() == 0 {
        0
    } else {
        soma_pesos(s.drop_last()) + peso(s.last().aptidao)
    }
}

/// Whether no two fitness values of `s` differ in sign.
pub open spec fn mesmo_sinal<Gene>(s: Seq<Individuo<Gene>>) -> bool {
    ||| forall|i: int| 0 <= i < s.len() ==> (#[trigger] s[i]).aptidao >= 0
    ||| forall|i: int| 0 <= i < s.len() ==> (#[trigger] s[i]).aptidao <= 0
}

/// Whether a wheel can be made for `s`: the fitness values are of one
/// sign, so that each is a share of their sum, and the size of the sum
/// is more than nothing and no more than `u64::MAX`.
pub open spec fn roleta_possivel<Gene>(s: Seq<Individuo<Gene>>) -> bool {
    &&& mesmo_sinal(s)
    &&& 0 < soma_pesos(s) <= u64::MAX
}

/// Where the shares of the first `i` individuals of `s` end: their part
/// of the whole fitness, in millionths, rounded down. Among values of
/// one sign the part that the sizes give is the part that the values
/// give.
pub open spec fn limite<Gene>(s: Seq<Individuo<Gene>>, i: int) -> int {
    soma_pesos(s.take(i)) * ESCALA / (soma_pesos(s) as int)
}

/// Whether `roleta` is the wheel of `s`: one share for each individual,
/// each beginning where the one before it ends.
pub open spec fn roleta_de<Gene>(roleta: Seq<Roleta>, s: Seq<Individuo<Gene>>) -> bool {
    &&& roleta.len() == s.len()
    &&& forall|i: int|
        0 <= i < s.len() ==> {
            &&& (#[trigger] roleta[i]).idx == i
            &&& roleta[i].faixa_inicio == limite(s, i)
            &&& roleta[i].faixa_fim == limite(s, i + 1)
        }
}

/// The position of the first share of `roleta` that holds `chance`; the
/// length of `roleta` where none does.
pub open spec fn primeira_faixa(roleta: Seq<Roleta>, chance: u64) -> int
    decreases roleta.len(),
{
    if roleta.len() == 0 {
        0
    } else if roleta.first().contem(chance) {
        0
    } else {
        1 + primeira_faixa(roleta.drop_first(), chance)
    }
}

/// `primeira_faixa` is a position whose share holds the chance, if there
/// is one, and no share before it does.
pub proof fn lei_primeira_faixa(roleta: Seq<Roleta>, chance: u64)
    ensures
        0 <= primeira_faixa(roleta, chance) <= roleta.len(),
        primeira_faixa(roleta, chance) < roleta.len() ==> roleta[primeira_faixa(
            roleta,
            chance,
        )].contem(chance),
        forall|j: int|
            0 <= j < primeira_faixa(roleta, chance) ==> !(#[trigger] roleta[j]).contem(chance),
    decreases roleta.len(),
{
    if roleta.len() > 0 && !roleta.first().contem(chance) {
        let resto = roleta.drop_first();
        lei_primeira_faixa(resto, chance);
        assert(forall|j: int| 0 <= j < resto.len() ==> resto[j] == roleta[j + 1]);
        assert forall|j: int| 0 <= j < primeira_faixa(roleta, chance) implies !(
        #[trigger] roleta[j]).contem(chance) by {
            if j > 0 {
                assert(roleta[j] == resto[j - 1]);
            }
        }
    }
}

/// A part weighs no more than the whole.
pub proof fn lei_soma_cresce<Gene>(s: Seq<Individuo<Gene>>, i: int, j: int)
    requires
        0 <= i <= j <= s.len(),
    ensures
        0 <= soma_pesos(s.take(i)) <= soma_pesos(s.take(j)),
        soma_pesos(s.take(s.len() as int)) == soma_pesos(s),
    decreases j,
{
    assert(s.take(s.len() as int) == s);
    if j == 0 {
        assert(s.take(0).len() == 0);
    } else {
        assert(s.take(j).drop_last() == s.take(j - 1));
        assert(s.take(j).last() == s[j - 1]);
        if i < j {
            lei_soma_cresce(s, i, j - 1);
        } else {
            lei_soma_cresce(s, j - 1, j - 1);
        }
    }
}

/// The ends of the shares never go back: they begin at nothing and end at
/// the whole.
pub proof fn lei_limite<Gene>(s: Seq<Individuo<Gene>>, i: int, j: int)
    requires
        roleta_possivel(s),
        0 <= i <= j <= s.len(),
    ensures
        limite(s, 0) == 0,
        limite(s, s.len() as int) == ESCALA,
        0 <= limite(s, i) <= limite(s, j) <= ESCALA,
{
    let total = soma_pesos(s) as int;
    lei_soma_cresce(s, i, j);
    lei_soma_cresce(s, j, s.len() as int);
    lei_soma_cresce(s, 0, i);
    assert(s.take(0).len() == 0);
    let a = soma_pesos(s.take(i)) as int;
    let b = soma_pesos(s.take(j)) as int;
    assert(0 <= a * ESCALA <= b * ESCALA <= total * ESCALA) by (nonlinear_arith)
        requires
            0 <= a <= b <= total,
    ;
    vstd::arithmetic::div_mod::lemma_div_is_ordered(0, a * ESCALA, total);
    vstd::arithmetic::div_mod::lemma_div_is_ordered(a * ESCALA, b * ESCALA, total);
    vstd::arithmetic::div_mod::lemma_div_is_ordered(b * ESCALA, total * ESCALA, total);
    vstd::arithmetic::div_mod::lemma_div_by_multiple(ESCALA as int, total);
    assert(ESCALA * total == total * ESCALA) by (nonlinear_arith);
    assert(0int / total == 0) by (nonlinear_arith)
        requires
            total > 0,
    ;
}

/// On the wheel of a population every chance has its share.
pub proof fn lei_roleta_cobre<Gene>(roleta: Seq<Roleta>, s: Seq<Individuo<Gene>>, chance: u64)
    requires
        roleta_possivel(s),
        roleta_de(roleta, s),
        chance < ESCALA,
    ensures
        primeira_faixa(roleta, chance) < roleta.len(),
{
    lei_primeira_faixa(roleta, chance);
    let n = s.len() as int;
    lei_limite(s, 0, n);
    assert(n > 0) by {
        if n == 0 {
            assert(soma_pesos(s) == 0);
        }
    }
    if primeira_faixa(roleta, chance) == roleta.len() {
        lema_nenhuma_faixa(roleta, s, chance, n);
    }
}

/// Where none of the first `i` shares holds `chance`, they end at or
/// below it.
proof fn lema_nenhuma_faixa<Gene>(roleta: Seq<Roleta>, s: Seq<Individuo<Gene>>, chance: u64, i: int)
    requires
        roleta_possivel(s),
        roleta_de(roleta, s),
        0 <= i <= s.len(),
        forall|j: int| 0 <= j < i ==> !(#[trigger] roleta[j]).contem(chance),
    ensures
        limite(s, i) <= chance,
    decreases i,
{
    lei_limite(s, 0, i);
    if i > 0 {
        lema_nenhuma_faixa(roleta, s, chance, i - 1);
        assert(!roleta[i - 1].contem(chance));
    }
}

/// The size of a fitness.
pub fn peso_de(aptidao: i64) -> (r: u64)
    ensures
        r == peso(aptidao),
{
    if aptidao < 0 {
        (-(aptidao as i128)) as u64
    } else {
        aptidao as u64
    }
}

/// The wheel of a population. The population must allow one.
pub fn gera_roleta<Gene>(pop: &Populacao<Gene>) -> (roleta: Vec<Roleta>)
    requires
        roleta_possivel(pop.individuos@),
    ensures
        roleta_de(roleta@, pop.individuos@),
{
    let n = pop.individuos.len();
    let ghost s = pop.individuos@;
    let mut aptidao_total: u64 = 0;
    let mut i: usize = 0;
    while i < n
        invariant
            i <= n,
            n == s.len(),
            s == pop.individuos@,
            roleta_possivel(s),
            aptidao_total == soma_pesos(s.take(i as int)),
        decreases n - i,
    {
        proof {
            lei_soma_cresce(s, i as int + 1, n as int);
            assert(s.take(i as int + 1).drop_last() == s.take(i as int));
            assert(s.take(i as int + 1).last() == s[i as int]);
        }
        aptidao_total = aptidao_total + peso_de(pop.individuos[i].aptidao);
        i += 1;
    }
    proof {
        assert(s.take(n as int) == s);
    }
    let mut roleta: Vec<Roleta> = Vec::new();
    let mut inicio: u64 = 0;
    let mut acumulada: u64 = 0;
    let mut idx: usize = 0;
    proof {
        lei_limite(s, 0, 0);
        assert(s.take(0).len() == 0);
    }
    while idx < n
        invariant
            idx <= n,
            n == s.len(),
            s == pop.individuos@,
            roleta_possivel(s),
            aptidao_total == soma_pesos(s),
            acumulada == soma_pesos(s.take(idx as int)),
            inicio == limite(s, idx as int),
            roleta@.len() == idx,
            forall|j: int|
                0 <= j < idx ==> {
                    &&& (#[trigger] roleta@[j]).idx == j
                    &&& roleta@[j].faixa_inicio == limite(s, j)
                    &&& roleta@[j].faixa_fim == limite(s, j + 1)
                },
        decreases n - idx,
    {
        proof {
            lei_soma_cresce(s, idx as int + 1, n as int);
            lei_limite(s, idx as int, idx as int + 1);
            assert(s.take(idx as int + 1).drop_last() == s.take(idx as int));
            assert(s.take(idx as int + 1).last() == s[idx as int]);
        }
        acumulada = acumulada + peso_de(pop.individuos[idx].aptidao);
        assert(acumulada * ESCALA <= u64::MAX * ESCALA) by (nonlinear_arith)
            requires
                acumulada <= u64::MAX,
        ;
        let participacao: u64 = ((acumulada as u128 * ESCALA as u128) / (aptidao_total as u128)) as u64;
        roleta.push(Roleta { idx: idx, faixa_inicio: inicio, faixa_fim: participacao });
        inicio = participacao;
        idx += 1;
    }
    roleta
}

/// The individual whose share holds `chance`: the first such share
/// decides. There must be one.
pub fn recupera_posicao(roleta: &Vec<Roleta>, chance: u64) -> (r: usize)
    requires
        exists|k: int| 0 <= k < roleta@.len() && (#[trigger] roleta@[k]).contem(chance),
    ensures
        primeira_faixa(roleta@, chance) < roleta@.len(),
        r == roleta@[primeira_faixa(roleta@, chance)].idx,
{
    proof {
        lei_primeira_faixa(roleta@, chance);
    }
    let n = roleta.len();
    let mut i: usize = 0;
    loop
        invariant
            n == roleta@.len(),
            i <= primeira_faixa(roleta@, chance) < roleta@.len(),
            forall|j: int|
                0 <= j < primeira_faixa(roleta@, chance) ==> !(#[trigger] roleta@[j]).contem(
                    chance,
                ),
            roleta@[primeira_faixa(roleta@, chance)].contem(chance),
        decreases roleta@.len() - i,
    {
        if roleta[i].faixa_inicio <= chance && roleta[i].faixa_fim > chance {
            return roleta[i].idx;
        }
        assert(i != primeira_faixa(roleta@, chance));
        i += 1;
    }
}

/// The position that mates with `primeira` when chance points at
/// `segunda`: `segunda`, unless that is `primeira` itself, in which case
/// it is the position before, or the one after where `primeira` is the
/// first.
pub open spec fn parceira(primeira: int, segunda: int) -> int {
    if segunda != primeira {
        segunda
    } else if primeira == 0 {
        1
    } else {
        primeira - 1
    }
}

/// The positions of the pair that the chances `c1` and `c2` choose on a
/// wheel: the one whose share holds `c1`, and with it the one whose
/// share holds `c2`, or its neighbour where that is the same.
pub open spec fn posicoes_sorteadas(roleta: Seq<Roleta>, c1: u64, c2: u64) -> (int, int) {
    let primeira = roleta[primeira_faixa(roleta, c1)].idx as int;
    (primeira, parceira(primeira, roleta[primeira_faixa(roleta, c2)].idx as int))
}

/// Whether `i` and `j` are the positions of a pair that two chances
/// choose on the wheel of `s`.
pub open spec fn par_sorteado<Gene>(s: Seq<Individuo<Gene>>, i: int, j: int) -> bool {
    exists|roleta: Seq<Roleta>, c1: u64, c2: u64|
        roleta_de(roleta, s) && c1 < ESCALA && c2 < ESCALA && (i, j) == #[trigger] posicoes_sorteadas(
            roleta,
            c1,
            c2,
        )
}

/// The weight of a sequence is that of one of its individuals and of
/// the sequence without it.
proof fn lema_peso_sem<Gene>(s: Seq<Individuo<Gene>>, i: int)
    requires
        0 <= i < s.len(),
    ensures
        soma_pesos(s) == soma_pesos(s.remove(i)) + peso(s[i].aptidao),
    decreases s.len(),
{
    if i == s.len() - 1 {
        assert(s.remove(i) == s.drop_last());
    } else {
        let t = s.drop_last();
        lema_peso_sem(t, i);
        assert(s.remove(i).drop_last() == t.remove(i));
        assert(s.remove(i).last() == s.last());
    }
}

/// Whether a wheel can be made does not depend on the order in which
/// the individuals stand.
pub proof fn lei_pesos_permutados<Gene>(s: Seq<Individuo<Gene>>, t: Seq<Individuo<Gene>>)
    requires
        s.to_multiset() == t.to_multiset(),
    ensures
        s.len() == t.len(),
        soma_pesos(s) == soma_pesos(t),
        mesmo_sinal(s) == mesmo_sinal(t),
        roleta_possivel(s) == roleta_possivel(t),
    decreases s.len(),
{
    vstd::seq_lib::to_multiset_len(s);
    vstd::seq_lib::to_multiset_len(t);
    if s.len() > 0 {
        let x = s.last();
        assert(s.contains(x)) by {
            assert(s[s.len() - 1] == x);
        }
        vstd::seq_lib::to_multiset_contains(s, x);
        vstd::seq_lib::to_multiset_contains(t, x);
        let i = choose|i: int| 0 <= i < t.len() && t[i] == x;
        vstd::seq_lib::to_multiset_remove(s, s.len() - 1);
        vstd::seq_lib::to_multiset_remove(t, i);
        lei_pesos_permutados(s.remove(s.len() - 1), t.remove(i));
        lema_peso_sem(s, s.len() - 1);
        lema_peso_sem(t, i);
    }
    assert forall|k: int| 0 <= k < t.len() implies s.contains(#[trigger] t[k]) by {
        assert(t.contains(t[k]));
        vstd::seq_lib::to_multiset_contains(s, t[k]);
        vstd::seq_lib::to_multiset_contains(t, t[k]);
    }
    assert forall|k: int| 0 <= k < s.len() implies t.contains(#[trigger] s[k]) by {
        assert(s.contains(s[k]));
        vstd::seq_lib::to_multiset_contains(s, s[k]);
        vstd::seq_lib::to_multiset_contains(t, s[k]);
    }
    if mesmo_sinal(s) {
        if forall|k: int| 0 <= k < s.len() ==> (#[trigger] s[k]).aptidao >= 0 {
            assert forall|k: int| 0 <= k < t.len() implies (#[trigger] t[k]).aptidao >= 0 by {
                let w = choose|w: int| 0 <= w < s.len() && s[w] == t[k];
                assert(s[w].aptidao >= 0);
            }
        } else {
            assert forall|k: int| 0 <= k < t.len() implies (#[trigger] t[k]).aptidao <= 0 by {
                let w = choose|w: int| 0 <= w < s.len() && s[w] == t[k];
                assert(s[w].aptidao <= 0);
            }
        }
    }
    if mesmo_sinal(t) {
        if forall|k: int| 0 <= k < t.len() ==> (#[trigger] t[k]).aptidao >= 0 {
            assert forall|k: int| 0 <= k < s.len() implies (#[trigger] s[k]).aptidao >= 0 by {
                let w = choose|w: int| 0 <= w < t.len() && t[w] == s[k];
                assert(t[w].aptidao >= 0);
            }
        } else {
            assert forall|k: int| 0 <= k < s.len() implies (#[trigger] s[k]).aptidao <= 0 by {
                let w = choose|w: int| 0 <= w < t.len() && t[w] == s[k];
                assert(t[w].aptidao <= 0);
            }
        }
    }
}

/// The positions of the pair that two chances choose on a wheel.
pub fn posicoes_do_par(roleta: &Vec<Roleta>, chance_primeiro: u64, chance_segundo: u64) -> (par: (
    usize,
    usize,
))
    requires
        exists|k: int| 0 <= k < roleta@.len() && (#[trigger] roleta@[k]).contem(chance_primeiro),
        exists|k: int| 0 <= k < roleta@.len() && (#[trigger] roleta@[k]).contem(chance_segundo),
    ensures
        (par.0 as int, par.1 as int) == posicoes_sorteadas(
            roleta@,
            chance_primeiro,
            chance_segundo,
        ),
{
    let posicao_primeiro = recupera_posicao(roleta, chance_primeiro);
    let posicao_segundo = recupera_posicao(roleta, chance_segundo);
    if posicao_segundo != posicao_primeiro {
        (posicao_primeiro, posicao_segundo)
    } else if posicao_primeiro == 0 {
        (posicao_primeiro, 1)
    } else {
        (posicao_primeiro, posicao_primeiro - 1)
    }
}

/// `s` without the individuals at `i` and `j`.
pub open spec fn sem_par<Gene>(s: Seq<Individuo<Gene>>, i: int, j: int) -> Seq<Individuo<Gene>> {
    if i < j {
        s.remove(j).remove(i)
    } else {
        s.remove(i).remove(j)
    }
}

/// Takes the individuals at two different positions out of `pop`, the
/// one at `i` first in the pair.
pub fn remove_par<Gene>(pop: &mut Populacao<Gene>, i: usize, j: usize) -> (par: (
    Individuo<Gene>,
    Individuo<Gene>,
))
    requires
        i != j,
        i < old(pop).individuos@.len(),
        j < old(pop).individuos@.len(),
    ensures
        par.0 == old(pop).individuos@[i as int],
        par.1 == old(pop).individuos@[j as int],
        final(pop).individuos@ == sem_par(old(pop).individuos@, i as int, j as int),
        final(pop).aparentada(old(pop)),
        final(pop).individuos@.to_multiset().insert(par.0).insert(par.1)
            == old(pop).individuos@.to_multiset(),
        old(pop).bem_formada() ==> final(pop).bem_formada() && final(pop).avaliado(par.0)
            && final(pop).avaliado(par.1),
{
    let ghost antes = pop.individuos@;
    let primeiro = pop.individuos.remove(i);
    let ghost meio = pop.individuos@;
    let posicao_segundo = if i < j {
        j - 1
    } else {
        j
    };
    let segundo = pop.individuos.remove(posicao_segundo);
    proof {
        broadcast use vstd::multiset::group_multiset_axioms;

        vstd::seq_lib::to_multiset_remove(antes, i as int);
        vstd::seq_lib::to_multiset_remove(meio, posicao_segundo as int);
        vstd::seq_lib::to_multiset_contains(antes, primeiro);
        vstd::seq_lib::to_multiset_contains(meio, segundo);
        assert(antes.contains(primeiro));
        assert(meio.contains(segundo));
        assert(pop.individuos@.to_multiset().insert(primeiro).insert(segundo)
            =~= antes.to_multiset());
        if i < j {
            assert(antes.remove(i as int).remove(j as int - 1) == antes.remove(j as int).remove(
                i as int,
            ));
        }
        if old(pop).bem_formada() {
            assert(pop.avaliado(antes[i as int]));
            assert(pop.avaliado(antes[j as int]));
            assert forall|k: int| 0 <= k < pop.individuos@.len() implies pop.avaliado(
                #[trigger] pop.individuos@[k],
            ) by {
                let k1 = if k < posicao_segundo {
                    k
                } else {
                    k + 1
                };
                assert(pop.individuos@[k] == meio[k1]);
                let k2 = if k1 < i {
                    k1
                } else {
                    k1 + 1
                };
                assert(meio[k1] == antes[k2]);
            }
        }
    }
    (primeiro, segundo)
}

/// Whether a wheel can be made for `pop`.
pub fn permite_roleta<Gene>(pop: &Populacao<Gene>) -> (r: bool)
    ensures
        r == roleta_possivel(pop.individuos@),
{
    let n = pop.individuos.len();
    let ghost s = pop.individuos@;
    let mut total: u128 = 0;
    let mut positivos = false;
    let mut negativos = false;
    let ghost mut um_positivo: int = 0;
    let ghost mut um_negativo: int = 0;
    let mut i: usize = 0;
    while i < n
        invariant
            i <= n,
            n == s.len(),
            s == pop.individuos@,
            positivos ==> 0 <= um_positivo < i && s[um_positivo].aptidao > 0,
            negativos ==> 0 <= um_negativo < i && s[um_negativo].aptidao < 0,
            !positivos ==> forall|k: int| 0 <= k < i ==> (#[trigger] s[k]).aptidao <= 0,
            !negativos ==> forall|k: int| 0 <= k < i ==> (#[trigger] s[k]).aptidao >= 0,
            total == soma_pesos(s.take(i as int)),
            total <= i * 0x8000_0000_0000_0000,
        decreases n - i,
    {
        let aptidao = pop.individuos[i].aptidao;
        proof {
            assert(s.take(i as int + 1).drop_last() == s.take(i as int));
            assert(s.take(i as int + 1).last() == s[i as int]);
            if aptidao > 0 && !positivos {
                um_positivo = i as int;
            }
            if aptidao < 0 && !negativos {
                um_negativo = i as int;
            }
        }
        if aptidao > 0 {
            positivos = true;
        }
        if aptidao < 0 {
            negativos = true;
        }
        total = total + peso_de(aptidao) as u128;
        i += 1;
    }
    proof {
        assert(s.take(n as int) == s);
        if positivos && negativos {
            assert(!mesmo_sinal(s));
        }
    }
    !(positivos && negativos) && 0 < total && total <= u64::MAX as u128
}

/// The positions of a pair that chance chooses on the wheel of `pop`: two
/// different ones. The population must allow a wheel and have two
/// individuals at least.
fn encontra_par<Gene>(pop: &Populacao<Gene>) -> (par: (usize, usize))
    requires
        roleta_possivel(pop.individuos@),
        pop.individuos@.len() >= 2,
    ensures
        par.0 < pop.individuos@.len(),
        par.1 < pop.individuos@.len(),
        par.0 != par.1,
        par_sorteado(pop.individuos@, par.0 as int, par.1 as int),
{
    let roleta = gera_roleta(pop);
    let mut aleatorio = Aleatorio::criar();
    let chance_primeiro = aleatorio.chance();
    let chance_segundo = aleatorio.chance();
    proof {
        lei_roleta_cobre(roleta@, pop.individuos@, chance_primeiro);
        lei_roleta_cobre(roleta@, pop.individuos@, chance_segundo);
        lei_primeira_faixa(roleta@, chance_primeiro);
        lei_primeira_faixa(roleta@, chance_segundo);
    }
    posicoes_do_par(&roleta, chance_primeiro, chance_segundo)
}

impl<Gene> Seletor<Gene> for SeletorPorRoleta {
    /// A pair can be chosen among two individuals or more that allow a
    /// wheel.
    open spec fn pode_selecionar(&self, individuos: Multiset<Individuo<Gene>>) -> bool {
        exists|s: Seq<Individuo<Gene>>|
            s.to_multiset() == individuos && s.len() >= 2 && #[trigger] roleta_possivel(s)
    }

    /// Spins the wheel twice and takes out the two individuals it points
    /// at; where it points twice at one, that one's neighbour comes
    /// second. Nothing is chosen from fewer than two individuals, nor
    /// where the population allows no wheel.
    fn seleciona(&self, pop: &mut Populacao<Gene>) -> (par: Option<
        (Individuo<Gene>, Individuo<Gene>),
    >)
        ensures
            par is Some <==> old(pop).individuos@.len() >= 2 && roleta_possivel(
                old(pop).individuos@,
            ),
            par is None ==> final(pop).individuos@ == old(pop).individuos@,
            par matches Some((a, b)) ==> exists|i: int, j: int|
                {
                    &&& 0 <= i < old(pop).individuos@.len()
                    &&& 0 <= j < old(pop).individuos@.len()
                    &&& i != j
                    &&& a == old(pop).individuos@[i]
                    &&& b == old(pop).individuos@[j]
                    &&& final(pop).individuos@ == #[trigger] sem_par(old(pop).individuos@, i, j)
                    &&& par_sorteado(old(pop).individuos@, i, j)
                },
    {
        if pop.individuos.len() < 2 || !permite_roleta(pop) {
            proof {
                let antes = pop.individuos@;
                assert forall|s: Seq<Individuo<Gene>>|
                    s.to_multiset() == antes.to_multiset() && s.len() >= 2 implies !(
                #[trigger] roleta_possivel(s)) by {
                    lei_pesos_permutados(s, antes);
                }
            }
            return None;
        }
        assert(roleta_possivel(pop.individuos@));
        let (posicao_primeiro, posicao_segundo) = encontra_par(pop);
        let (primeiro, segundo) = remove_par(pop, posicao_primeiro, posicao_segundo);
        Some((primeiro, segundo))
    }
}

} // verus!
