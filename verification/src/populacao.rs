use crate::aleatorio::Aleatorio;
use crate::aptidao::Aptidao;
use crate::aptidao::AptidaoSimples;
use std::cmp::Ordering;
use std::rc::Rc;
use vstd::prelude::*;

verus! {

/// A genome together with the fitness it was scored with.
pub struct Individuo<T> {
    pub genes: T,
    pub aptidao: i64,
}

/// Makes the genomes a population starts from.
pub trait CriadorIndividuos<T> {
    /// Whether `genes` is a genome that this creator can make.
    open spec fn pode_criar(&self, genes: &T) -> bool {
        true
    }

    /// A new genome; `aleatorio` is there for the random choices.
    fn criar(&self, aleatorio: &mut Aleatorio) -> (genes: T)
        ensures
            self.pode_criar(&genes),
    ;
}

/// Whether a population looks for the smallest or the largest fitness.
#[derive(Clone, Copy, Debug, PartialEq, Eq, Structural)]
pub enum Operacao {
    /// Smaller fitness is fitter.
    Min,
    /// Larger fitness is fitter.
    Max,
}

/// The ordering read from the other side.
pub open spec fn inversa(o: Ordering) -> Ordering {
    match o {
        Ordering::Less => Ordering::Greater,
        Ordering::Equal => Ordering::Equal,
        Ordering::Greater => Ordering::Less,
    }
}

impl Operacao {
    /// True when fitness `a` is strictly fitter than fitness `b`.
    pub open spec fn supera(self, a: i64, b: i64) -> bool {
        match self {
            Operacao::Max => a > b,
            Operacao::Min => a < b,
        }
    }

    /// `Greater` when `a` is fitter than `b`, `Less` when `b` is fitter
    /// than `a`, `Equal` when they are the same.
    pub open spec fn ordem(self, a: i64, b: i64) -> Ordering {
        if self.supera(a, b) {
            Ordering::Greater
        } else if self.supera(b, a) {
            Ordering::Less
        } else {
            Ordering::Equal
        }
    }

    /// The one comparison of fitness values: every ranking in the crate
    /// goes through it.
    pub fn compara(&self, a: &i64, b: &i64) -> (r: Ordering)
        ensures
            r == self.ordem(*a, *b),
    {
        let (x, y): (i64, i64) = match self {
            Operacao::Max => (*a, *b),
            Operacao::Min => (*b, *a),
        };
        if x > y {
            Ordering::Greater
        } else if x < y {
            Ordering::Less
        } else {
            Ordering::Equal
        }
    }

    /// Whether `a` is strictly fitter than `b`.
    pub fn vence(&self, a: i64, b: i64) -> (r: bool)
        ensures
            r == self.supera(a, b),
    {
        match self.compara(&a, &b) {
            Ordering::Greater => true,
            _ => false,
        }
    }

    /// The fitter of two fitness values; `b` when neither is fitter.
    pub fn mais_apto(&self, a: i64, b: i64) -> (r: i64)
        ensures
            r == if self.supera(a, b) { a } else { b },
    {
        match self.compara(&a, &b) {
            Ordering::Greater => a,
            _ => b,
        }
    }

    /// The less fit of two fitness values; `b` when neither is less fit.
    pub fn menos_apto(&self, a: i64, b: i64) -> (r: i64)
        ensures
            r == if self.supera(b, a) { a } else { b },
    {
        match self.compara(&a, &b) {
            Ordering::Less => a,
            _ => b,
        }
    }
}

/// Maximising and minimising rank any two fitness values in opposite ways.
pub proof fn lei_comparacao_simetrica(a: i64, b: i64)
    ensures
        Operacao::Max.ordem(a, b) == inversa(Operacao::Min.ordem(a, b)),
        Operacao::Min.ordem(a, b) == inversa(Operacao::Max.ordem(a, b)),
{
}

/// Swapping the arguments reverses the ordering, and only equal values
/// compare `Equal`.
pub proof fn lei_comparacao_antissimetrica(op: Operacao, a: i64, b: i64)
    ensures
        op.ordem(b, a) == inversa(op.ordem(a, b)),
        op.ordem(a, b) == Ordering::Equal <==> a == b,
{
}

/// The sum of the fitness values of `s`.
pub open spec fn soma_aptidao<Gene>(s: Seq<Individuo<Gene>>) -> int
    decreases s.len(),
{
    if s.len() == 0 {
        0
    } else {
        soma_aptidao(s.drop_last()) + s.last().aptidao
    }
}

/// The sum of the squares of the fitness values of `s`.
pub open spec fn soma_quadrados_aptidao<Gene>(s: Seq<Individuo<Gene>>) -> int
    decreases s.len(),
{
    if s.len() == 0 {
        0
    } else {
        soma_quadrados_aptidao(s.drop_last()) + s.last().aptidao * s.last().aptidao
    }
}

/// How far the fitness values of `s` spread: the sum of the squares of
/// their distances from their mean, divided by one less than their
/// number, rounded towards zero.
///
/// With `n` values of sum `S` and sum of squares `Q`, the squared
/// distances from the mean `S / n` add up to `(n * Q - S * S) / n` (see
/// [`lei_dispersao`]).
pub open spec fn dispersao<Gene>(s: Seq<Individuo<Gene>>) -> int {
    let n = s.len() as int;
    quociente(
        n * soma_quadrados_aptidao(s) - soma_aptidao(s) * soma_aptidao(s),
        n * (n - 1),
    )
}

/// The sum, over the fitness values `f` of `s`, of the squares of
/// `n * f - t`.
pub open spec fn soma_distancias<Gene>(s: Seq<Individuo<Gene>>, n: int, t: int) -> int
    decreases s.len(),
{
    if s.len() == 0 {
        0
    } else {
        soma_distancias(s.drop_last(), n, t) + (n * s.last().aptidao - t) * (n * s.last().aptidao
            - t)
    }
}

/// The squares of `n * f - t` add up to `n * n * Q - 2 * n * t * S + k *
/// t * t`, for `k` values `f` of sum `S` and sum of squares `Q`.
pub proof fn lei_soma_distancias<Gene>(s: Seq<Individuo<Gene>>, n: int, t: int)
    ensures
        soma_distancias(s, n, t) == n * n * soma_quadrados_aptidao(s) - 2 * n * t * soma_aptidao(s)
            + s.len() * t * t,
    decreases s.len(),
{
    if s.len() > 0 {
        let r = s.drop_last();
        let f = s.last().aptidao as int;
        lei_soma_distancias(r, n, t);
        let q = soma_quadrados_aptidao(r);
        let a = soma_aptidao(r);
        let k = r.len() as int;
        assert((n * f - t) * (n * f - t) == n * n * (f * f) - 2 * n * t * f + t * t)
            by (nonlinear_arith);
        assert(n * n * (q + f * f) == n * n * q + n * n * (f * f)) by (nonlinear_arith);
        assert(2 * n * t * (a + f) == 2 * n * t * a + 2 * n * t * f) by (nonlinear_arith);
        assert((k + 1) * t * t == k * t * t + t * t) by (nonlinear_arith);
    }
}

/// The squares of the distances of `n` fitness values from their mean,
/// each distance taken `n` times, add up to `n * (n * Q - S * S)`: what
/// [`dispersao`] divides is their sum, taken `n` times.
pub proof fn lei_dispersao<Gene>(s: Seq<Individuo<Gene>>)
    ensures
        soma_distancias(s, s.len() as int, soma_aptidao(s)) == s.len() * (s.len()
            * soma_quadrados_aptidao(s) - soma_aptidao(s) * soma_aptidao(s)),
{
    let n = s.len() as int;
    let t = soma_aptidao(s);
    let q = soma_quadrados_aptidao(s);
    lei_soma_distancias(s, n, t);
    assert(n * n * q - 2 * n * t * t + n * t * t == n * (n * q - t * t)) by (nonlinear_arith);
}

/// More fitness values do not have a smaller sum of squares.
pub proof fn lei_soma_quadrados_cresce<Gene>(s: Seq<Individuo<Gene>>, i: int)
    requires
        0 <= i <= s.len(),
    ensures
        0 <= soma_quadrados_aptidao(s.take(i)) <= soma_quadrados_aptidao(s),
    decreases s.len() - i,
{
    if i < s.len() {
        lei_soma_quadrados_cresce(s, i + 1);
        assert(s.take(i + 1).drop_last() == s.take(i));
        let f = s.take(i + 1).last().aptidao as int;
        assert(f * f >= 0) by (nonlinear_arith);
        lema_soma_quadrados_positiva(s.take(i));
    } else {
        assert(s.take(i) == s);
        lema_soma_quadrados_positiva(s);
    }
}

/// A sum of squares is not negative.
proof fn lema_soma_quadrados_positiva<Gene>(s: Seq<Individuo<Gene>>)
    ensures
        soma_quadrados_aptidao(s) >= 0,
    decreases s.len(),
{
    if s.len() > 0 {
        lema_soma_quadrados_positiva(s.drop_last());
        let f = s.last().aptidao as int;
        assert(f * f >= 0) by (nonlinear_arith);
    }
}

/// The quotient of `a` by a positive `b`, rounded towards zero.
pub open spec fn quociente(a: int, b: int) -> int {
    if a >= 0 {
        a / b
    } else {
        -((-a) / b)
    }
}

/// Whether `aptidao` is the fitness of some individual of `s` that none
/// of `s` beats.
pub open spec fn eh_melhor_aptidao<Gene>(s: Seq<Individuo<Gene>>, op: Operacao, aptidao: i64) -> bool {
    &&& exists|k: int| 0 <= k < s.len() && (#[trigger] s[k]).aptidao == aptidao
    &&& forall|j: int| 0 <= j < s.len() ==> !op.supera((#[trigger] s[j]).aptidao, aptidao)
}

/// Whether `aptidao` is the fitness of some individual of `s` that beats
/// none of `s`.
pub open spec fn eh_pior_aptidao<Gene>(s: Seq<Individuo<Gene>>, op: Operacao, aptidao: i64) -> bool {
    &&& exists|k: int| 0 <= k < s.len() && (#[trigger] s[k]).aptidao == aptidao
    &&& forall|j: int| 0 <= j < s.len() ==> !op.supera(aptidao, (#[trigger] s[j]).aptidao)
}

/// A number divided by one of greater size is nothing.
proof fn lema_quociente_pequeno(a: int, b: int)
    requires
        -b < a < b,
    ensures
        quociente(a, b) == 0,
{
    if a >= 0 {
        vstd::arithmetic::div_mod::lemma_basic_div(a, b);
    } else {
        vstd::arithmetic::div_mod::lemma_basic_div(-a, b);
    }
}

/// `Rc::clone`: one more handle on the value that `a` shares. The new
/// handle is claimed to hold that same value.
#[verifier::external_body]
fn outra_referencia<T>(a: &Rc<T>) -> (r: Rc<T>)
    ensures
        r == *a,
{
    Rc::clone(a)
}

/// An evaluator as a population holds it. A population keeps its
/// evaluator behind a trait object; going through this type lets what is
/// known of the evaluator handed in stay known of the one kept.
pub struct Avaliador<Apt> {
    pub aptidao: Apt,
}

impl<Gene, Apt: Aptidao<Gene>> Aptidao<Gene> for Avaliador<Apt> {
    open spec fn valor(&self, genes: &Gene) -> int {
        self.aptidao.valor(genes)
    }

    fn calcular_aptidao(&self, genes: &Gene) -> (r: i64) {
        self.aptidao.calcular_aptidao(genes)
    }
}

/// Individuals that share one evaluator and one notion of "fitter".
#[verifier::reject_recursive_types(Gene)]
pub struct Populacao<Gene> {
    /// Scores the genomes of this population and of those made from it.
    pub aptidao: Rc<Box<dyn Aptidao<Gene>>>,
    pub individuos: Vec<Individuo<Gene>>,
    pub operacao: Operacao,
}

/// Whether no individual of `s` is fitter than `s[k]` and none before
/// `s[k]` is as fit: `k` is where a scan from the front finds the fittest.
pub open spec fn primeiro_mais_apto<Gene>(s: Seq<Individuo<Gene>>, op: Operacao, k: int) -> bool {
    &&& 0 <= k < s.len()
    &&& forall|j: int| 0 <= j < s.len() ==> !op.supera(#[trigger] s[j].aptidao, s[k].aptidao)
    &&& forall|j: int| 0 <= j < k ==> op.supera(s[k].aptidao, #[trigger] s[j].aptidao)
}

/// The position of the fittest individual of `s`, the earliest one where
/// several are equally fit; `0` for an empty sequence.
pub open spec fn posicao_mais_apto<Gene>(s: Seq<Individuo<Gene>>, op: Operacao) -> int
    decreases s.len(),
{
    if s.len() <= 1 {
        0
    } else {
        let k = posicao_mais_apto(s.drop_last(), op);
        if op.supera(s.last().aptidao, s[k].aptidao) {
            s.len() - 1
        } else {
            k
        }
    }
}

/// `posicao_mais_apto` is the position that `primeiro_mais_apto` describes.
pub proof fn lei_posicao_mais_apto<Gene>(s: Seq<Individuo<Gene>>, op: Operacao)
    requires
        s.len() > 0,
    ensures
        primeiro_mais_apto(s, op, posicao_mais_apto(s, op)),
    decreases s.len(),
{
    if s.len() > 1 {
        let t = s.drop_last();
        lei_posicao_mais_apto(t, op);
        assert(forall|j: int| 0 <= j < t.len() ==> t[j] == s[j]);
    }
}

/// Taking an individual out and putting it back at the end leaves the
/// same individuals, each as often as before.
pub proof fn lei_extracao_reinsercao<Gene>(s: Seq<Individuo<Gene>>, k: int)
    requires
        0 <= k < s.len(),
    ensures
        s.remove(k).push(s[k]).to_multiset() == s.to_multiset(),
{
    broadcast use vstd::seq_lib::to_multiset_build;
    broadcast use vstd::seq_lib::to_multiset_remove;
    broadcast use vstd::multiset::group_multiset_axioms;
    broadcast use vstd::seq_lib::to_multiset_contains;

    assert(s.contains(s[k]));
    assert(s.to_multiset().remove(s[k]).insert(s[k]) =~= s.to_multiset());
}

/// Where an individual of fitness `aptidao` goes into the ranking `s`:
/// behind every individual that it does not beat, counted from the end.
pub open spec fn posicao_no_ranking<Gene>(s: Seq<Individuo<Gene>>, aptidao: i64, op: Operacao) -> int
    decreases s.len(),
{
    if s.len() == 0 {
        0
    } else if op.supera(aptidao, s.last().aptidao) {
        posicao_no_ranking(s.drop_last(), aptidao, op)
    } else {
        s.len() as int
    }
}

/// The individuals of `s` from the fittest to the least fit. Equally fit
/// individuals stay in the order they had in `s`.
pub open spec fn ranking<Gene>(s: Seq<Individuo<Gene>>, op: Operacao) -> Seq<Individuo<Gene>>
    decreases s.len(),
{
    if s.len() == 0 {
        s
    } else {
        let r = ranking(s.drop_last(), op);
        r.insert(posicao_no_ranking(r, s.last().aptidao, op), s.last())
    }
}

/// Whether no individual of `s` is fitter than one before it.
pub open spec fn em_ordem<Gene>(s: Seq<Individuo<Gene>>, op: Operacao) -> bool {
    forall|i: int, j: int|
        0 <= i < j < s.len() ==> !op.supera(#[trigger] s[j].aptidao, #[trigger] s[i].aptidao)
}

/// The individuals of `s` whose fitness is `aptidao`, in their order.
pub open spec fn com_aptidao<Gene>(s: Seq<Individuo<Gene>>, aptidao: i64) -> Seq<Individuo<Gene>> {
    s.filter(|x: Individuo<Gene>| x.aptidao == aptidao)
}

/// In a ranking, the position for a new individual lies behind everyone
/// it does not beat and before everyone it beats.
pub proof fn lei_posicao_no_ranking<Gene>(s: Seq<Individuo<Gene>>, aptidao: i64, op: Operacao)
    requires
        em_ordem(s, op),
    ensures
        0 <= posicao_no_ranking(s, aptidao, op) <= s.len(),
        forall|i: int|
            0 <= i < posicao_no_ranking(s, aptidao, op) ==> !op.supera(
                aptidao,
                #[trigger] s[i].aptidao,
            ),
        forall|i: int|
            posicao_no_ranking(s, aptidao, op) <= i < s.len() ==> op.supera(
                aptidao,
                #[trigger] s[i].aptidao,
            ),
    decreases s.len(),
{
    if s.len() > 0 {
        let t = s.drop_last();
        assert(forall|i: int| 0 <= i < t.len() ==> t[i] == s[i]);
        if op.supera(aptidao, s.last().aptidao) {
            lei_posicao_no_ranking(t, aptidao, op);
        } else {
            assert forall|i: int| 0 <= i < s.len() implies !op.supera(
                aptidao,
                #[trigger] s[i].aptidao,
            ) by {
                if i < s.len() - 1 {
                    assert(!op.supera(s[s.len() - 1].aptidao, s[i].aptidao));
                }
            }
        }
    }
}

/// A ranking is in order: nobody is fitter than someone before.
pub proof fn lei_ranking_em_ordem<Gene>(s: Seq<Individuo<Gene>>, op: Operacao)
    ensures
        ranking(s, op).len() == s.len(),
        em_ordem(ranking(s, op), op),
    decreases s.len(),
{
    if s.len() > 0 {
        let r = ranking(s.drop_last(), op);
        lei_ranking_em_ordem(s.drop_last(), op);
        lei_posicao_no_ranking(r, s.last().aptidao, op);
        let p = posicao_no_ranking(r, s.last().aptidao, op);
        let d = r.insert(p, s.last());
        assert forall|i: int, j: int| 0 <= i < j < d.len() implies !op.supera(
            #[trigger] d[j].aptidao,
            #[trigger] d[i].aptidao,
        ) by {
            if j < p {
                assert(d[i] == r[i] && d[j] == r[j]);
            } else if j == p {
                assert(d[i] == r[i]);
            } else if i < p {
                assert(d[i] == r[i] && d[j] == r[j - 1]);
            } else if i == p {
                assert(d[j] == r[j - 1]);
            } else {
                assert(d[i] == r[i - 1] && d[j] == r[j - 1]);
            }
        }
    }
}

/// A ranking holds the individuals it was made from, each as often.
pub proof fn lei_ranking_permuta<Gene>(s: Seq<Individuo<Gene>>, op: Operacao)
    ensures
        ranking(s, op).to_multiset() == s.to_multiset(),
    decreases s.len(),
{
    broadcast use vstd::seq_lib::to_multiset_build;
    broadcast use vstd::seq_lib::to_multiset_insert;

    if s.len() > 0 {
        let r = ranking(s.drop_last(), op);
        lei_ranking_permuta(s.drop_last(), op);
        lei_ranking_em_ordem(s.drop_last(), op);
        lei_posicao_no_ranking(r, s.last().aptidao, op);
        assert(s.drop_last().push(s.last()) == s);
    }
}

/// Inserting an individual into a sequence adds it to those of its own
/// fitness, behind the ones before the position, and leaves the others.
proof fn lema_inserir_com_aptidao<Gene>(
    s: Seq<Individuo<Gene>>,
    p: int,
    x: Individuo<Gene>,
    aptidao: i64,
)
    requires
        0 <= p <= s.len(),
    ensures
        x.aptidao != aptidao ==> com_aptidao(s.insert(p, x), aptidao) == com_aptidao(s, aptidao),
        x.aptidao == aptidao ==> com_aptidao(s.insert(p, x), aptidao) == com_aptidao(
            s.subrange(0, p),
            aptidao,
        ).push(x) + com_aptidao(s.subrange(p, s.len() as int), aptidao),
{
    let pred = |y: Individuo<Gene>| y.aptidao == aptidao;
    let a = s.subrange(0, p);
    let b = s.subrange(p, s.len() as int);
    assert(s == a + b);
    assert(s.insert(p, x) == a.push(x) + b);
    Seq::filter_distributes_over_add(a, b, pred);
    Seq::filter_distributes_over_add(a.push(x), b, pred);
    Seq::lemma_filter_push(a, x, pred);
}

/// A sequence none of whose individuals has fitness `aptidao` has nothing
/// to show for that fitness.
proof fn lema_sem_aptidao<Gene>(s: Seq<Individuo<Gene>>, aptidao: i64)
    requires
        forall|i: int| 0 <= i < s.len() ==> (#[trigger] s[i]).aptidao != aptidao,
    ensures
        com_aptidao(s, aptidao).len() == 0,
{
    let pred = |y: Individuo<Gene>| y.aptidao == aptidao;
    s.lemma_all_neg_filter_empty(pred);
}

/// Ranking is stable: the individuals of any one fitness are in the
/// ranking in the order they had before.
pub proof fn lei_ranking_estavel<Gene>(s: Seq<Individuo<Gene>>, op: Operacao, aptidao: i64)
    ensures
        com_aptidao(ranking(s, op), aptidao) == com_aptidao(s, aptidao),
    decreases s.len(),
{
    let pred = |y: Individuo<Gene>| y.aptidao == aptidao;
    if s.len() > 0 {
        let t = s.drop_last();
        let x = s.last();
        let r = ranking(t, op);
        lei_ranking_estavel(t, op, aptidao);
        lei_ranking_em_ordem(t, op);
        lei_posicao_no_ranking(r, x.aptidao, op);
        let p = posicao_no_ranking(r, x.aptidao, op);
        lema_inserir_com_aptidao(r, p, x, aptidao);
        assert(t.push(x) == s);
        Seq::lemma_filter_push(t, x, pred);
        if x.aptidao == aptidao {
            let cauda = r.subrange(p, r.len() as int);
            assert forall|i: int| 0 <= i < cauda.len() implies (#[trigger] cauda[i]).aptidao
                != aptidao by {
                assert(cauda[i] == r[p + i]);
                assert(op.supera(aptidao, r[p + i].aptidao));
            }
            lema_sem_aptidao(cauda, aptidao);
            let frente = r.subrange(0, p);
            assert(r == frente + cauda);
            Seq::filter_distributes_over_add(frente, cauda, pred);
            assert(com_aptidao(cauda, aptidao) == Seq::<Individuo<Gene>>::empty());
            assert(com_aptidao(r, aptidao) == com_aptidao(frente, aptidao));
            assert(com_aptidao(frente, aptidao).push(x) + com_aptidao(cauda, aptidao)
                == com_aptidao(frente, aptidao).push(x));
        }
    } else {
        assert(ranking(s, op) == s);
    }
}

/// Keeping the first `k` of a ranking keeps `min(k, n)` individuals, none
/// of them less fit than one that is dropped.
pub proof fn lei_truncamento<Gene>(s: Seq<Individuo<Gene>>, op: Operacao, k: nat)
    ensures
        mais_aptos(s, op, k).len() == if k <= s.len() { k } else { s.len() },
        forall|i: int, j: int|
            0 <= i < mais_aptos(s, op, k).len() && mais_aptos(s, op, k).len() <= j < s.len()
                ==> !op.supera(
                (#[trigger] ranking(s, op)[j]).aptidao,
                (#[trigger] mais_aptos(s, op, k)[i]).aptidao,
            ),
        op == Operacao::Max ==> forall|i: int, j: int|
            0 <= i < mais_aptos(s, op, k).len() && mais_aptos(s, op, k).len() <= j < s.len()
                ==> (#[trigger] mais_aptos(s, op, k)[i]).aptidao >= (#[trigger] ranking(
                s,
                op,
            )[j]).aptidao,
        op == Operacao::Min ==> forall|i: int, j: int|
            0 <= i < mais_aptos(s, op, k).len() && mais_aptos(s, op, k).len() <= j < s.len()
                ==> (#[trigger] mais_aptos(s, op, k)[i]).aptidao <= (#[trigger] ranking(
                s,
                op,
            )[j]).aptidao,
        mais_aptos(s, op, k).to_multiset().add(
            ranking(s, op).skip(mais_aptos(s, op, k).len() as int).to_multiset(),
        ) == s.to_multiset(),
{
    lei_ranking_em_ordem(s, op);
    lei_ranking_permuta(s, op);
    let r = ranking(s, op);
    let m = mais_aptos(s, op, k);
    assert(forall|i: int| 0 <= i < m.len() ==> m[i] == r[i]);
    let n = m.len() as int;
    assert(r == r.take(n) + r.skip(n));
    vstd::seq_lib::lemma_multiset_commutative(r.take(n), r.skip(n));
}

/// The `k` fittest individuals of `s`, fittest first; all of them where
/// `s` has no more than `k`.
pub open spec fn mais_aptos<Gene>(s: Seq<Individuo<Gene>>, op: Operacao, k: nat) -> Seq<
    Individuo<Gene>,
> {
    if k <= s.len() {
        ranking(s, op).take(k as int)
    } else {
        ranking(s, op)
    }
}

/// What is kept of a well-formed population's ranking carries the fitness
/// of its genomes too.
proof fn lema_ranking_bem_formado<Gene>(pop: Populacao<Gene>, k: nat)
    requires
        pop.bem_formada(),
    ensures
        forall|i: int|
            0 <= i < mais_aptos(pop.individuos@, pop.operacao, k).len() ==> pop.avaliado(
                #[trigger] mais_aptos(pop.individuos@, pop.operacao, k)[i],
            ),
{
    let s = pop.individuos@;
    let r = ranking(s, pop.operacao);
    let m = mais_aptos(s, pop.operacao, k);
    lei_ranking_permuta(s, pop.operacao);
    lei_ranking_em_ordem(s, pop.operacao);
    assert forall|i: int| 0 <= i < m.len() implies pop.avaliado(#[trigger] m[i]) by {
        assert(m[i] == r[i]);
        assert(r.contains(r[i]));
        vstd::seq_lib::to_multiset_contains(r, r[i]);
        vstd::seq_lib::to_multiset_contains(s, r[i]);
        assert(s.contains(r[i]));
        let w = choose|w: int| 0 <= w < s.len() && s[w] == r[i];
        assert(pop.avaliado(s[w]));
    }
}

impl<Gene> Populacao<Gene> {
    /// Whether `ind` carries the fitness that this population's evaluator
    /// gives its genome.
    pub open spec fn avaliado(&self, ind: Individuo<Gene>) -> bool {
        ind.aptidao == self.aptidao.valor(&ind.genes)
    }

    /// Every individual carries the fitness of its genome.
    pub open spec fn bem_formada(&self) -> bool {
        forall|i: int| 0 <= i < self.individuos@.len() ==> self.avaliado(#[trigger] self.individuos@[i])
    }

    /// Same evaluator and same notion of "fitter".
    pub open spec fn aparentada(&self, outra: &Self) -> bool {
        self.aptidao == outra.aptidao && self.operacao == outra.operacao
    }

    /// An empty population that scores with `aptidao`.
    pub fn criar_vazia<Apt>(aptidao: Apt, operacao: Operacao) -> (r: Self) where
        Apt: Aptidao<Gene> + 'static,

        ensures
            r.individuos@.len() == 0,
            r.operacao == operacao,
            r.bem_formada(),
            forall|g: Gene| #[trigger] r.aptidao.valor(&g) == aptidao.valor(&g),
    {
        let caixa: Box<dyn Aptidao<Gene>> = Box::new(Avaliador { aptidao });
        let compartilhada = Rc::new(caixa);
        assert(forall|g: Gene| #[trigger] compartilhada.valor(&g) == aptidao.valor(&g));
        Populacao { aptidao: compartilhada, individuos: Vec::new(), operacao }
    }

    /// A population of `quantidade` individuals, whose genomes `criador`
    /// makes one after the other.
    pub fn criar<Apt, CIA>(aptidao: Apt, criador: &CIA, quantidade: usize, operacao: Operacao) -> (r:
        Self) where Apt: Aptidao<Gene> + 'static, CIA: CriadorIndividuos<Gene>
        ensures
            r.individuos@.len() == quantidade,
            r.operacao == operacao,
            r.bem_formada(),
            forall|g: Gene| #[trigger] r.aptidao.valor(&g) == aptidao.valor(&g),
            forall|i: int|
                0 <= i < quantidade ==> criador.pode_criar(&(#[trigger] r.individuos@[i]).genes),
    {
        let mut aleatorio = Aleatorio::criar();
        let mut pop = Populacao::criar_vazia(aptidao, operacao);
        let mut i: usize = 0;
        while i < quantidade
            invariant
                i <= quantidade,
                pop.individuos@.len() == i,
                pop.operacao == operacao,
                pop.bem_formada(),
                forall|g: Gene| #[trigger] pop.aptidao.valor(&g) == aptidao.valor(&g),
                forall|k: int|
                    0 <= k < i ==> criador.pode_criar(&(#[trigger] pop.individuos@[k]).genes),
            decreases quantidade - i,
        {
            let genes = criador.criar(&mut aleatorio);
            pop.adicionar(genes);
            i += 1;
        }
        pop
    }

    /// Takes the fittest individual out: the earliest one where several
    /// are equally fit. The population must not be empty.
    pub fn remover_mais_apto(&mut self) -> (r: Individuo<Gene>)
        requires
            old(self).individuos@.len() > 0,
        ensures
            primeiro_mais_apto(
                old(self).individuos@,
                old(self).operacao,
                posicao_mais_apto(old(self).individuos@, old(self).operacao),
            ),
            r == old(self).individuos@[posicao_mais_apto(
                old(self).individuos@,
                old(self).operacao,
            )],
            final(self).individuos@ == old(self).individuos@.remove(
                posicao_mais_apto(old(self).individuos@, old(self).operacao),
            ),
            final(self).aparentada(old(self)),
            old(self).bem_formada() ==> final(self).bem_formada() && final(self).avaliado(r),
    {
        let n = self.individuos.len();
        let mut idx: usize = 0;
        let mut i: usize = 1;
        while i < n
            invariant
                1 <= i <= n,
                n == self.individuos@.len(),
                idx == posicao_mais_apto(self.individuos@.subrange(0, i as int), self.operacao),
                0 <= idx < i,
            decreases n - i,
        {
            let ghost prefixo = self.individuos@.subrange(0, i as int + 1);
            assert(prefixo.drop_last() == self.individuos@.subrange(0, i as int));
            assert(prefixo.last() == self.individuos@[i as int]);
            assert(prefixo[idx as int] == self.individuos@[idx as int]);
            if self.operacao.vence(self.individuos[i].aptidao, self.individuos[idx].aptidao) {
                idx = i;
            }
            i += 1;
        }
        proof {
            assert(self.individuos@.subrange(0, n as int) == self.individuos@);
            lei_posicao_mais_apto(self.individuos@, self.operacao);
        }
        self.individuos.remove(idx)
    }

    /// Scores `genes` and adds the individual at the end.
    pub fn adicionar(&mut self, genes: Gene)
        ensures
            final(self).individuos@ == old(self).individuos@.push(
                Individuo { genes, aptidao: old(self).aptidao.valor(&genes) as i64 },
            ),
            old(self).aptidao.valor(&genes) == old(self).aptidao.valor(&genes) as i64,
            final(self).aparentada(old(self)),
            old(self).bem_formada() ==> final(self).bem_formada(),
    {
        let aptidao = self.aptidao.calcular_aptidao(&genes);
        self.individuos.push(Individuo { aptidao, genes });
    }

    /// Ranks the individuals, fittest first and equally fit ones in the
    /// order they had, and drops all but the first `quantidade`.
    pub fn manter_mais_aptos(&mut self, quantidade: usize)
        ensures
            final(self).individuos@ == mais_aptos(
                old(self).individuos@,
                old(self).operacao,
                quantidade as nat,
            ),
            final(self).aparentada(old(self)),
            old(self).bem_formada() ==> final(self).bem_formada(),
    {
        let n = self.individuos.len();
        let ghost antes = self.individuos@;
        let ghost op = self.operacao;
        let mut i: usize = 0;
        while i < n
            invariant
                i <= n,
                n == antes.len(),
                self.individuos@.len() == n,
                self.individuos@.subrange(0, i as int) == ranking(antes.subrange(0, i as int), op),
                self.individuos@.subrange(i as int, n as int) == antes.subrange(i as int, n as int),
                self.aptidao == old(self).aptidao,
                self.operacao == op,
            decreases n - i,
        {
            let ghost feito = self.individuos@.subrange(0, i as int);
            let ghost resto = self.individuos@.subrange(i as int + 1, n as int);
            assert(self.individuos@[i as int] == antes[i as int]) by {
                assert(self.individuos@.subrange(i as int, n as int)[0] == antes.subrange(
                    i as int,
                    n as int,
                )[0]);
            }
            assert(resto == antes.subrange(i as int + 1, n as int)) by {
                assert(resto == self.individuos@.subrange(i as int, n as int).subrange(
                    1,
                    n as int - i as int,
                ));
                assert(antes.subrange(i as int + 1, n as int) == antes.subrange(
                    i as int,
                    n as int,
                ).subrange(1, n as int - i as int));
            }
            let x = self.individuos.remove(i);
            assert(self.individuos@ == feito + resto);
            let mut j: usize = i;
            assert(feito.subrange(0, i as int) == feito);
            loop
                invariant_except_break
                    self.individuos@ == feito + resto,
                invariant
                    j <= i,
                    feito.len() == i,
                    posicao_no_ranking(feito, x.aptidao, op) == posicao_no_ranking(
                        feito.subrange(0, j as int),
                        x.aptidao,
                        op,
                    ),
                    self.operacao == op,
                ensures
                    self.individuos@ == feito + resto,
                    j == posicao_no_ranking(feito, x.aptidao, op),
                decreases j,
            {
                if j == 0 {
                    break ;
                }
                let ghost ate_j = feito.subrange(0, j as int);
                assert(ate_j.last() == self.individuos@[j as int - 1]);
                assert(ate_j.drop_last() == feito.subrange(0, j as int - 1));
                if !self.operacao.vence(x.aptidao, self.individuos[j - 1].aptidao) {
                    break ;
                }
                j -= 1;
            }
            self.individuos.insert(j, x);
            proof {
                let proximo = antes.subrange(0, i as int + 1);
                assert(proximo.drop_last() == antes.subrange(0, i as int));
                assert(proximo.last() == x);
                assert(self.individuos@ == feito.insert(j as int, x) + resto);
                assert(self.individuos@.subrange(0, i as int + 1) == feito.insert(j as int, x));
                assert(self.individuos@.subrange(i as int + 1, n as int) == resto);
            }
            i += 1;
        }
        proof {
            assert(antes.subrange(0, n as int) == antes);
            assert(self.individuos@.subrange(0, n as int) == self.individuos@);
            lei_ranking_em_ordem(antes, op);
            if old(self).bem_formada() {
                lema_ranking_bem_formado(*old(self), quantidade as nat);
            }
        }
        self.individuos.truncate(quantidade);
    }

    /// Puts back an individual that was taken out, at the end.
    pub fn reiterar(&mut self, ind: Individuo<Gene>)
        ensures
            final(self).individuos@ == old(self).individuos@.push(ind),
            final(self).aparentada(old(self)),
            old(self).bem_formada() && old(self).avaliado(ind) ==> final(self).bem_formada(),
    {
        self.individuos.push(ind);
    }

    /// Takes over the individuals of `outra`, behind its own.
    pub fn reter(&mut self, outra: Populacao<Gene>)
        ensures
            final(self).individuos@ == old(self).individuos@ + outra.individuos@,
            final(self).aparentada(old(self)),
            old(self).bem_formada() && outra.bem_formada() && outra.aptidao == old(self).aptidao
                ==> final(self).bem_formada(),
    {
        let mut inds = outra.individuos;
        self.individuos.append(&mut inds);
    }

    /// The mean fitness, rounded towards zero. The population must not be
    /// empty.
    pub fn aptidao_media(&self) -> (r: i64)
        requires
            self.individuos@.len() > 0,
        ensures
            r == quociente(soma_aptidao(self.individuos@), self.individuos@.len() as int),
    {
        let n = self.individuos.len();
        let mut total: i128 = 0;
        let mut i: usize = 0;
        while i < n
            invariant
                i <= n,
                n == self.individuos@.len(),
                total == soma_aptidao(self.individuos@.subrange(0, i as int)),
                -(i as int) * 0x8000_0000_0000_0000 <= total <= (i as int) * 0x7fff_ffff_ffff_ffff,
            decreases n - i,
        {
            assert(self.individuos@.subrange(0, i as int + 1).drop_last()
                == self.individuos@.subrange(0, i as int));
            total = total + self.individuos[i].aptidao as i128;
            i += 1;
        }
        assert(self.individuos@.subrange(0, n as int) == self.individuos@);
        let qtd: i128 = n as i128;
        let media: i128 = if total >= 0 {
            total / qtd
        } else {
            -((-total) / qtd)
        };
        assert(-0x8000_0000_0000_0000 <= media <= 0x7fff_ffff_ffff_ffff) by (nonlinear_arith)
            requires
                qtd >= 1,
                -qtd * 0x8000_0000_0000_0000 <= total <= qtd * 0x7fff_ffff_ffff_ffff,
                media == quociente(total as int, qtd as int),
        ;
        media as i64
    }

    /// How far the fitness values spread (see [`dispersao`]), in squares
    /// of the unit of fitness; none where `n * Q` or `S * S`, for `n`
    /// values of sum `S` and sum of squares `Q`, is beyond `i128`. The
    /// population must have two individuals at least.
    pub fn desvio_aptidao(&self) -> (r: Option<i128>)
        requires
            self.individuos@.len() >= 2,
        ensures
            r matches Some(v) ==> v == dispersao(self.individuos@),
            r is None <==> self.individuos@.len() * soma_quadrados_aptidao(self.individuos@)
                > i128::MAX || soma_aptidao(self.individuos@) * soma_aptidao(self.individuos@)
                > i128::MAX,
    {
        let n = self.individuos.len();
        let ghost s = self.individuos@;
        let mut soma: i128 = 0;
        let mut quadrados: u128 = 0;
        let mut i: usize = 0;
        while i < n
            invariant
                2 <= n,
                i <= n,
                n == s.len(),
                s == self.individuos@,
                soma == soma_aptidao(s.take(i as int)),
                quadrados == soma_quadrados_aptidao(s.take(i as int)),
                -(i as int) * 0x8000_0000_0000_0000 <= soma <= (i as int) * 0x7fff_ffff_ffff_ffff,
            decreases n - i,
        {
            let f: i128 = self.individuos[i].aptidao as i128;
            proof {
                assert(s.take(i as int + 1).drop_last() == s.take(i as int));
                assert(s.take(i as int + 1).last() == s[i as int]);
                assert(0 <= f * f <= 0x4000_0000_0000_0000_0000_0000_0000_0000)
                    by (nonlinear_arith)
                    requires
                        -0x8000_0000_0000_0000 <= f <= 0x7fff_ffff_ffff_ffff,
                ;
                lei_soma_quadrados_cresce(s, i as int + 1);
            }
            soma = soma + f;
            match quadrados.checked_add((f * f) as u128) {
                Some(q) => {
                    quadrados = q;
                },
                None => {
                    proof {
                        let q = soma_quadrados_aptidao(s);
                        assert(n * q >= q) by (nonlinear_arith)
                            requires
                                n >= 1,
                                q >= 0,
                        ;
                    }
                    return None;
                },
            }
            i += 1;
        }
        proof {
            assert(s.take(n as int) == s);
        }
        let vezes = match (n as u128).checked_mul(quadrados) {
            Some(v) => v,
            None => {
                return None;
            },
        };
        if vezes > i128::MAX as u128 {
            return None;
        }
        let quadrado_da_soma = match soma.checked_mul(soma) {
            Some(v) => v,
            None => {
                proof {
                    assert(soma * soma >= 0) by (nonlinear_arith);
                }
                return None;
            },
        };
        assert(quadrado_da_soma >= 0) by (nonlinear_arith)
            requires
                quadrado_da_soma == soma * soma,
        ;
        let numerador: i128 = vezes as i128 - quadrado_da_soma;
        let nn: u128 = n as u128;
        assert(nn * (nn - 1) <= 0xffff_ffff_ffff_ffff * 0xffff_ffff_ffff_fffe) by (nonlinear_arith)
            requires
                2 <= nn <= 0xffff_ffff_ffff_ffff,
        ;
        let denominador: u128 = nn * (nn - 1);
        assert(denominador >= 2) by (nonlinear_arith)
            requires
                denominador == nn * (nn - 1),
                nn >= 2,
        ;
        if denominador > i128::MAX as u128 {
            proof {
                lema_quociente_pequeno(numerador as int, denominador as int);
            }
            return Some(0);
        }
        let d: i128 = denominador as i128;
        let v: i128 = if numerador >= 0 {
            numerador / d
        } else {
            -((-numerador) / d)
        };
        Some(v)
    }

    /// The fitness of the fittest individual. The population must not be
    /// empty.
    pub fn melhor_aptidao(&self) -> (r: i64)
        requires
            self.individuos@.len() > 0,
        ensures
            eh_melhor_aptidao(self.individuos@, self.operacao, r),
    {
        let n = self.individuos.len();
        let mut maior: i64 = self.individuos[0].aptidao;
        let ghost mut onde: int = 0;
        let mut i: usize = 0;
        while i < n
            invariant
                i <= n,
                n == self.individuos@.len(),
                0 <= onde < n,
                self.individuos@[onde].aptidao == maior,
                forall|j: int|
                    0 <= j < i ==> !self.operacao.supera(
                        (#[trigger] self.individuos@[j]).aptidao,
                        maior,
                    ),
            decreases n - i,
        {
            let outro = self.individuos[i].aptidao;
            let novo = self.operacao.mais_apto(maior, outro);
            proof {
                if novo != maior {
                    onde = i as int;
                }
            }
            maior = novo;
            i += 1;
        }
        maior
    }

    /// The fitness of the least fit individual. The population must not
    /// be empty.
    pub fn pior_aptidao(&self) -> (r: i64)
        requires
            self.individuos@.len() > 0,
        ensures
            eh_pior_aptidao(self.individuos@, self.operacao, r),
    {
        let n = self.individuos.len();
        let mut menor: i64 = self.individuos[0].aptidao;
        let ghost mut onde: int = 0;
        let mut i: usize = 0;
        while i < n
            invariant
                i <= n,
                n == self.individuos@.len(),
                0 <= onde < n,
                self.individuos@[onde].aptidao == menor,
                forall|j: int|
                    0 <= j < i ==> !self.operacao.supera(
                        menor,
                        (#[trigger] self.individuos@[j]).aptidao,
                    ),
            decreases n - i,
        {
            let outro = self.individuos[i].aptidao;
            let novo = self.operacao.menos_apto(menor, outro);
            proof {
                if novo != menor {
                    onde = i as int;
                }
            }
            menor = novo;
            i += 1;
        }
        menor
    }

    /// An empty population with this one's evaluator, shared, and its
    /// notion of "fitter".
    pub fn preparar_nova_geracao(&self) -> (r: Self)
        ensures
            r.individuos@.len() == 0,
            r.aparentada(self),
            r.bem_formada(),
    {
        Populacao {
            aptidao: outra_referencia(&self.aptidao),
            individuos: Vec::new(),
            operacao: self.operacao,
        }
    }
}

/// A maximising or minimising population whose genomes are the numbers
/// of `entrada` and whose fitness is the number itself.
pub fn cria_populacao(entrada: &Vec<usize>, oper: Operacao) -> (r: Populacao<usize>)
    ensures
        r.operacao == oper,
        r.bem_formada(),
        r.individuos@.len() == entrada@.len(),
        forall|i: int|
            0 <= i < entrada@.len() ==> (#[trigger] r.individuos@[i]).genes == entrada@[i]
                && r.individuos@[i].aptidao == AptidaoSimples.valor(&entrada@[i]),
        forall|g: usize| #[trigger] r.aptidao.valor(&g) == AptidaoSimples.valor(&g),
{
    let mut pop = Populacao::criar_vazia(AptidaoSimples, oper);
    let mut i: usize = 0;
    while i < entrada.len()
        invariant
            i <= entrada@.len(),
            pop.operacao == oper,
            pop.bem_formada(),
            pop.individuos@.len() == i,
            forall|j: int|
                0 <= j < i ==> (#[trigger] pop.individuos@[j]).genes == entrada@[j]
                    && pop.individuos@[j].aptidao == AptidaoSimples.valor(&entrada@[j]),
            forall|g: usize| #[trigger] pop.aptidao.valor(&g) == AptidaoSimples.valor(&g),
        decreases entrada@.len() - i,
    {
        pop.adicionar(entrada[i]);
        i += 1;
    }
    pop
}

} // verus!
