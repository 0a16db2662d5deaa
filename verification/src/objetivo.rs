use crate::populacao::Individuo;
use vstd::prelude::*;

verus! {

/// Decides, generation after generation, whether the search may stop.
///
/// An objective is asked once per generation about that generation's
/// fittest individual. It may keep state: what it answers is a function
/// of that state and of the individual.
pub trait Objetivo<Gene> {
    /// What the next call answers for `individuo`. An objective that
    /// does not say leaves it open.
    open spec fn resposta(&self, individuo: &Individuo<Gene>) -> bool {
        arbitrary()
    }

    /// Whether the objective promises to be satisfied after a bounded
    /// number of calls, whatever it is asked about.
    open spec fn finito(&self) -> bool {
        false
    }

    /// For a `finito` objective: how many calls at most answer `false`
    /// before one answers `true`.
    open spec fn restante(&self) -> nat {
        0
    }

    fn satisfeito_por(&mut self, individuo: &Individuo<Gene>) -> (r: bool)
        ensures
            r == old(self).resposta(individuo),
            old(self).finito() && !r ==> final(self).finito(),
            old(self).finito() && !r ==> final(self).restante() < old(self).restante(),
    ;
}

/// An objective as a composite holds it. A composite keeps its parts
/// behind trait objects; going through this type lets what is known of
/// the objective handed in stay known of the part kept.
pub struct Meta<Obj> {
    pub objetivo: Obj,
}

impl<Gene, Obj: Objetivo<Gene>> Objetivo<Gene> for Meta<Obj> {
    open spec fn resposta(&self, individuo: &Individuo<Gene>) -> bool {
        self.objetivo.resposta(individuo)
    }

    open spec fn finito(&self) -> bool {
        self.objetivo.finito()
    }

    open spec fn restante(&self) -> nat {
        self.objetivo.restante()
    }

    fn satisfeito_por(&mut self, individuo: &Individuo<Gene>) -> (r: bool) {
        self.objetivo.satisfeito_por(individuo)
    }
}

/// One part of a composite objective. The inner box is the trait
/// object; the outer one gives it a size, which a sequence in a contract
/// asks of what it holds.
pub type Parte<Gene> = Box<Box<dyn Objetivo<Gene>>>;

/// The least `restante` among the `finito` objectives of `s`, if there is
/// a `finito` one.
pub open spec fn menor_restante<Gene>(s: Seq<Parte<Gene>>) -> Option<nat>
    decreases s.len(),
{
    if s.len() == 0 {
        None
    } else {
        let antes = menor_restante(s.drop_last());
        if !s.last().finito() {
            antes
        } else if antes matches Some(m) && m <= s.last().restante() {
            antes
        } else {
            Some(s.last().restante())
        }
    }
}

/// `menor_restante` is the `restante` of a `finito` objective of `s`, and
/// no `finito` objective of `s` has less; it is `None` only where no
/// objective of `s` is `finito`.
pub proof fn lei_menor_restante<Gene>(s: Seq<Parte<Gene>>)
    ensures
        menor_restante(s) matches Some(m) ==> {
            &&& exists|i: int| 0 <= i < s.len() && (#[trigger] s[i]).finito() && s[i].restante() == m
            &&& forall|i: int| 0 <= i < s.len() && (#[trigger] s[i]).finito() ==> m <= s[i].restante()
        },
        menor_restante(s) is None ==> forall|i: int| 0 <= i < s.len() ==> !(#[trigger] s[i]).finito(),
    decreases s.len(),
{
    if s.len() > 0 {
        let t = s.drop_last();
        lei_menor_restante(t);
        assert(forall|i: int| 0 <= i < t.len() ==> t[i] == s[i]);
        if let Some(m) = menor_restante(s) {
            if s.last().finito() && s.last().restante() == m {
                assert(s[s.len() - 1].finito() && s[s.len() - 1].restante() == m);
            } else {
                let i = choose|i: int|
                    0 <= i < t.len() && (#[trigger] t[i]).finito() && t[i].restante() == m;
                assert(s[i].finito() && s[i].restante() == m);
            }
        }
    }
}

/// Where every `finito` objective of `s` has become one of `t` with less
/// left, the least of `t` is less than the least of `s`.
proof fn lema_menor_restante_desce<Gene>(
    s: Seq<Parte<Gene>>,
    t: Seq<Parte<Gene>>,
)
    requires
        s.len() == t.len(),
        menor_restante(s) is Some,
        forall|i: int|
            0 <= i < s.len() && (#[trigger] s[i]).finito() ==> t[i].finito() && t[i].restante()
                < s[i].restante(),
    ensures
        menor_restante(t) is Some,
        menor_restante(t).unwrap() < menor_restante(s).unwrap(),
{
    lei_menor_restante(s);
    lei_menor_restante(t);
    let m = menor_restante(s).unwrap();
    let i = choose|i: int| 0 <= i < s.len() && (#[trigger] s[i]).finito() && s[i].restante() == m;
    assert(t[i].finito());
}

/// Satisfied as soon as one of its parts is. The parts are asked in the
/// order in which they were added, and none is asked after one that is
/// satisfied.
#[verifier::reject_recursive_types(Gene)]
pub struct ObjetivoMisto<Gene> {
    objetivos: Vec<Parte<Gene>>,
}

impl<Gene> ObjetivoMisto<Gene> {
    /// The parts, in the order in which they were added.
    pub closed spec fn objetivos(&self) -> Seq<Parte<Gene>> {
        self.objetivos@
    }

    /// A composite without parts: it is never satisfied.
    pub fn criar() -> (r: Self)
        ensures
            r.objetivos().len() == 0,
    {
        ObjetivoMisto { objetivos: Vec::new() }
    }

    /// Adds `objetivo` as the last part.
    pub fn adicionar<Obj>(&mut self, objetivo: Obj) where Obj: Objetivo<Gene> + 'static
        ensures
            final(self).objetivos().len() == old(self).objetivos().len() + 1,
            final(self).objetivos().drop_last() == old(self).objetivos(),
            forall|ind: Individuo<Gene>| #[trigger]
                final(self).objetivos().last().resposta(&ind) == objetivo.resposta(&ind),
            final(self).objetivos().last().finito() == objetivo.finito(),
            final(self).objetivos().last().restante() == objetivo.restante(),
    {
        let caixa: Box<dyn Objetivo<Gene>> = Box::new(Meta { objetivo });
        assert(forall|ind: Individuo<Gene>| #[trigger]
            caixa.resposta(&ind) == objetivo.resposta(&ind));
        let parte = Box::new(caixa);
        assert(forall|ind: Individuo<Gene>| #[trigger]
            parte.resposta(&ind) == objetivo.resposta(&ind));
        assert(parte.finito() == objetivo.finito() && parte.restante() == objetivo.restante());
        self.objetivos.push(parte);
        assert(self.objetivos@.drop_last() == old(self).objetivos@);
    }
}

impl<Gene> Objetivo<Gene> for ObjetivoMisto<Gene> {
    open spec fn resposta(&self, individuo: &Individuo<Gene>) -> bool {
        exists|i: int|
            0 <= i < self.objetivos().len() && (#[trigger] self.objetivos()[i]).resposta(individuo)
    }

    open spec fn finito(&self) -> bool {
        menor_restante(self.objetivos()) is Some
    }

    open spec fn restante(&self) -> nat {
        match menor_restante(self.objetivos()) {
            Some(m) => m,
            None => 0,
        }
    }

    fn satisfeito_por(&mut self, individuo: &Individuo<Gene>) -> (r: bool)
        ensures
            final(self).objetivos().len() == old(self).objetivos().len(),
            forall|j: int|
                0 <= j < old(self).objetivos().len() && (exists|k: int|
                    0 <= k < j && (#[trigger] old(self).objetivos()[k]).resposta(individuo))
                    ==> (#[trigger] final(self).objetivos()[j]) == old(self).objetivos()[j],
            forall|j: int|
                0 <= j < old(self).objetivos().len() && (#[trigger] old(self).objetivos()[j]).finito()
                    && (forall|k: int|
                    0 <= k <= j ==> !(#[trigger] old(self).objetivos()[k]).resposta(individuo))
                    ==> final(self).objetivos()[j].finito() && final(self).objetivos()[j].restante()
                    < old(self).objetivos()[j].restante(),
    {
        let n = self.objetivos.len();
        let ghost antes = self.objetivos@;
        let mut i: usize = 0;
        while i < n
            invariant
                i <= n,
                antes == old(self).objetivos@,
                self.objetivos@.len() == n,
                antes.len() == n,
                forall|j: int| 0 <= j < i ==> !(#[trigger] antes[j]).resposta(individuo),
                forall|j: int|
                    0 <= j < i && (#[trigger] antes[j]).finito()
                        ==> self.objetivos@[j].finito()
                        && self.objetivos@[j].restante() < antes[j].restante(),
                forall|j: int| i <= j < n ==> (#[trigger] self.objetivos@[j]) == antes[j],
            decreases n - i,
        {
            let ghost durante = self.objetivos@;
            let satisfeito = self.objetivos[i].satisfeito_por(individuo);
            assert(forall|j: int| 0 <= j < n && j != i ==> self.objetivos@[j] == durante[j]);
            if satisfeito {
                assert(antes[i as int].resposta(individuo));
                assert forall|j: int|
                    0 <= j < n && (exists|k: int|
                        0 <= k < j && (#[trigger] antes[k]).resposta(individuo)) implies (
                #[trigger] self.objetivos@[j]) == antes[j] by {
                    let k = choose|k: int| 0 <= k < j && (#[trigger] antes[k]).resposta(individuo);
                    assert(k >= i);
                }
                assert forall|j: int|
                    0 <= j < n && (#[trigger] antes[j]).finito() && (forall|k: int|
                        0 <= k <= j ==> !(#[trigger] antes[k]).resposta(
                            individuo,
                        )) implies self.objetivos@[j].finito() && self.objetivos@[j].restante()
                    < antes[j].restante() by {
                    if j >= i {
                        assert(!antes[i as int].resposta(individuo));
                    }
                }
                return true;
            }
            i += 1;
        }
        proof {
            if menor_restante(antes) is Some {
                lema_menor_restante_desce(antes, self.objetivos@);
            }
            assert forall|j: int|
                0 <= j < n && (exists|k: int|
                    0 <= k < j && (#[trigger] antes[k]).resposta(individuo)) implies (
            #[trigger] self.objetivos@[j]) == antes[j] by {
                let k = choose|k: int| 0 <= k < j && (#[trigger] antes[k]).resposta(individuo);
                assert(!antes[k].resposta(individuo));
            }
        }
        false
    }
}

/// Satisfied on one call only: the one that comes after `maximo` others.
pub struct NumeroMaximoIteracoes {
    maximo: usize,
    atual: usize,
}

impl NumeroMaximoIteracoes {
    /// The number of calls that are let pass.
    pub closed spec fn maximo(&self) -> usize {
        self.maximo
    }

    /// The number of calls so far. It starts again from zero when it has
    /// reached `usize::MAX`.
    pub closed spec fn atual(&self) -> usize {
        self.atual
    }

    /// The limit of `maximo` calls, none of them made yet.
    pub closed spec fn novo(maximo: usize) -> Self {
        NumeroMaximoIteracoes { maximo, atual: 0 }
    }

    /// The limit as one more call leaves it.
    pub closed spec fn seguinte(self) -> Self {
        NumeroMaximoIteracoes {
            maximo: self.maximo,
            atual: if self.atual == usize::MAX {
                0
            } else {
                (self.atual + 1) as usize
            },
        }
    }

    /// The limit as `chamadas` more calls leave it.
    pub open spec fn depois_de(self, chamadas: nat) -> Self
        decreases chamadas,
    {
        if chamadas == 0 {
            self
        } else {
            self.depois_de((chamadas - 1) as nat).seguinte()
        }
    }

    /// Whether the next call is the one that is satisfied.
    pub open spec fn no_limite(&self) -> bool {
        self.atual() == self.maximo()
    }

    pub fn criar(maximo: usize) -> (r: Self)
        ensures
            r == Self::novo(maximo),
            r.maximo() == maximo,
            r.atual() == 0,
    {
        NumeroMaximoIteracoes { maximo: maximo, atual: 0 }
    }

    /// A call leaves the limit alone and counts one call more.
    pub proof fn lei_seguinte(self)
        ensures
            self.seguinte().maximo() == self.maximo(),
            self.seguinte().atual() == if self.atual() == usize::MAX {
                0
            } else {
                self.atual() + 1
            },
    {
    }

    /// A limit of `maximo` calls answers `false` to each of the first
    /// `maximo` calls and `true` to the one after them.
    pub proof fn lei_limite_exato(maximo: usize, chamadas: nat)
        requires
            chamadas <= maximo,
        ensures
            Self::novo(maximo).depois_de(chamadas).maximo() == maximo,
            Self::novo(maximo).depois_de(chamadas).atual() == chamadas,
            Self::novo(maximo).depois_de(chamadas).no_limite() <==> chamadas == maximo,
        decreases chamadas,
    {
        if chamadas > 0 {
            Self::lei_limite_exato(maximo, (chamadas - 1) as nat);
        }
    }
}

impl<Gene> Objetivo<Gene> for NumeroMaximoIteracoes {
    open spec fn resposta(&self, individuo: &Individuo<Gene>) -> bool {
        self.no_limite()
    }

    open spec fn finito(&self) -> bool {
        self.atual() <= self.maximo()
    }

    open spec fn restante(&self) -> nat {
        (self.maximo() - self.atual()) as nat
    }

    fn satisfeito_por(&mut self, individuo: &Individuo<Gene>) -> (r: bool)
        ensures
            r == old(self).no_limite(),
            *final(self) == old(self).seguinte(),
    {
        let eq = self.maximo == self.atual;
        self.atual = self.atual.wrapping_add(1);
        eq
    }
}

/// Satisfied by a fitness strictly between two bounds.
pub struct ObjetivoIntervalo {
    max: i64,
    min: i64,
}

impl ObjetivoIntervalo {
    /// The upper bound, itself outside the interval.
    pub closed spec fn max(&self) -> i64 {
        self.max
    }

    /// The lower bound, itself outside the interval.
    pub closed spec fn min(&self) -> i64 {
        self.min
    }

    /// The fitness values strictly between `min` and `max`.
    pub fn criar(min: i64, max: i64) -> (r: Self)
        ensures
            r.min() == min,
            r.max() == max,
    {
        ObjetivoIntervalo { min: min, max: max }
    }
}

impl<Gene> Objetivo<Gene> for ObjetivoIntervalo {
    open spec fn resposta(&self, individuo: &Individuo<Gene>) -> bool {
        self.min() < individuo.aptidao < self.max()
    }

    fn satisfeito_por(&mut self, ind: &Individuo<Gene>) -> (r: bool)
        ensures
            r == (old(self).min() < ind.aptidao < old(self).max()),
            *final(self) == *old(self),
    {
        self.min < ind.aptidao && self.max > ind.aptidao
    }
}

} // verus!
