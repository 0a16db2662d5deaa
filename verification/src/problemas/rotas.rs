use crate::aleatorio::Aleatorio;
use crate::aleatorio::ESCALA;
use crate::evolucao::cruzamento::copia;
use crate::evolucao::cruzamento::Cruzador;
use crate::populacao::CriadorIndividuos;
use crate::problemas::cidade::Problema;
use std::rc::Rc;
use vstd::prelude::*;

verus! {

/// The locations that one vehicle visits, in the order of the visits.
#[derive(Debug)]
pub struct Rota {
    /// Whether the route has changed since its order was last improved.
    pub alterada: bool,
    pub cidades: Vec<usize>,
}

/// How often `cidade` is among `s`.
pub open spec fn conta(s: Seq<usize>, cidade: usize) -> nat {
    s.to_multiset().count(cidade)
}

/// How often `cidade` is visited from the visit `p` of route `r` on: by
/// the rest of that route and by the routes after it.
pub open spec fn desde(rotas: Seq<Rota>, r: int, p: int, cidade: usize) -> nat
    decreases rotas.len() - r,
{
    if r < 0 || r >= rotas.len() {
        0
    } else {
        conta(rotas[r].cidades@.skip(p), cidade) + desde(rotas, r + 1, 0, cidade)
    }
}

/// How often the routes visit `cidade`.
pub open spec fn ocorrencias(rotas: Seq<Rota>, cidade: usize) -> nat {
    desde(rotas, 0, 0, cidade)
}

/// Whether the routes visit each of the locations `0..qtd` once and no
/// other location.
pub open spec fn particao(rotas: Seq<Rota>, qtd: nat) -> bool {
    forall|cidade: usize| #[trigger]
        ocorrencias(rotas, cidade) == if cidade < qtd {
            1nat
        } else {
            0nat
        }
}

/// One visit more counts one more for the location visited and nothing
/// for the others.
pub proof fn lei_desde_passo(rotas: Seq<Rota>, r: int, p: int, cidade: usize)
    requires
        0 <= r < rotas.len(),
        0 < p <= rotas[r].cidades@.len(),
    ensures
        desde(rotas, r, p - 1, cidade) == desde(rotas, r, p, cidade) + if rotas[r].cidades@[p - 1]
            == cidade {
            1nat
        } else {
            0nat
        },
{
    broadcast use vstd::multiset::group_multiset_axioms;

    let s = rotas[r].cidades@;
    let x = s[p - 1];
    assert(s.skip(p - 1) == seq![x] + s.skip(p));
    vstd::seq_lib::lemma_multiset_commutative(seq![x], s.skip(p));
    assert(seq![x] == Seq::<usize>::empty().push(x));
    vstd::seq_lib::to_multiset_build(Seq::<usize>::empty(), x);
    Seq::<usize>::empty().to_multiset_ensures();
}

/// The end of a route is the beginning of the next.
pub proof fn lei_desde_fim(rotas: Seq<Rota>, r: int, cidade: usize)
    requires
        0 <= r < rotas.len(),
    ensures
        desde(rotas, r, rotas[r].cidades@.len() as int, cidade) == desde(rotas, r + 1, 0, cidade),
{
    let s = rotas[r].cidades@;
    assert(s.skip(s.len() as int) == Seq::<usize>::empty());
    Seq::<usize>::empty().to_multiset_ensures();
}

/// What is counted from a visit on does not depend on the visits before.
pub proof fn lei_desde_moldura(s: Seq<Rota>, t: Seq<Rota>, r: int, p: int, cidade: usize)
    requires
        s.len() == t.len(),
        0 <= r <= s.len(),
        r < s.len() ==> s[r].cidades@.skip(p) == t[r].cidades@.skip(p),
        forall|k: int| r < k < s.len() ==> (#[trigger] s[k]).cidades@ == t[k].cidades@,
    ensures
        desde(s, r, p, cidade) == desde(t, r, p, cidade),
    decreases s.len() - r,
{
    if r < s.len() {
        if r + 1 < s.len() {
            assert(s[r + 1].cidades@ == t[r + 1].cidades@);
        }
        lei_desde_moldura(s, t, r + 1, 0, cidade);
    }
}

/// Where two families of routes differ in route `k` alone, their counts
/// differ by what that route counts.
pub proof fn lei_troca_rota(s: Seq<Rota>, t: Seq<Rota>, k: int, r: int, cidade: usize)
    requires
        s.len() == t.len(),
        0 <= r <= k < s.len(),
        forall|j: int| 0 <= j < s.len() && j != k ==> (#[trigger] s[j]).cidades@ == t[j].cidades@,
    ensures
        desde(t, r, 0, cidade) + conta(s[k].cidades@, cidade) == desde(s, r, 0, cidade) + conta(
            t[k].cidades@,
            cidade,
        ),
    decreases k - r,
{
    assert(s[r].cidades@.skip(0) == s[r].cidades@);
    assert(t[r].cidades@.skip(0) == t[r].cidades@);
    if r == k {
        lei_desde_moldura(s, t, k + 1, 0, cidade);
    } else {
        lei_troca_rota(s, t, k, r + 1, cidade);
    }
}

/// From a later visit on no more is counted than from an earlier one.
pub proof fn lei_desde_cresce(rotas: Seq<Rota>, r: int, p: int, cidade: usize)
    requires
        0 <= r < rotas.len(),
        0 <= p <= rotas[r].cidades@.len(),
    ensures
        desde(rotas, r, p, cidade) <= ocorrencias(rotas, cidade),
    decreases r, p,
{
    if p > 0 {
        lei_desde_passo(rotas, r, p, cidade);
        lei_desde_cresce(rotas, r, p - 1, cidade);
    } else if r > 0 {
        lei_desde_fim(rotas, r - 1, cidade);
        lei_desde_cresce(rotas, r - 1, rotas[r - 1].cidades@.len() as int, cidade);
    }
}

/// How often `cidade` is visited from the visit `p` of route `r` on, as
/// far as it matters: not at all, once, or more than once.
pub fn conta_ate_dois(rotas: &Vec<Rota>, r: usize, p: usize, cidade: usize) -> (n: u8)
    requires
        r <= rotas@.len(),
        r < rotas@.len() ==> p <= rotas@[r as int].cidades@.len(),
    ensures
        n == if desde(rotas@, r as int, p as int, cidade) >= 2 {
            2
        } else {
            desde(rotas@, r as int, p as int, cidade) as int
        },
{
    let mut n: u8 = 0;
    let mut i: usize = r;
    let mut q: usize = p;
    while i < rotas.len()
        invariant
            r <= i <= rotas@.len(),
            i < rotas@.len() ==> q <= rotas@[i as int].cidades@.len(),
            n <= 1,
            n + desde(rotas@, i as int, q as int, cidade) == desde(
                rotas@,
                r as int,
                p as int,
                cidade,
            ),
        decreases rotas@.len() - i, rotas@[i as int].cidades@.len() - q,
    {
        if q < rotas[i].cidades.len() {
            proof {
                lei_desde_passo(rotas@, i as int, q as int + 1, cidade);
            }
            if rotas[i].cidades[q] == cidade {
                if n == 1 {
                    return 2;
                }
                n = 1;
            }
            q += 1;
        } else {
            proof {
                lei_desde_fim(rotas@, i as int, cidade);
            }
            i += 1;
            q = 0;
        }
    }
    n
}

/// Whether the routes `um` and `outro` are the routes `antes_um` and
/// `antes_outro` with some visits moved from the first to the second:
/// none is lost, no location has left the first altogether, and a route
/// is marked as changed where it was so before or where it has lost or
/// gained a visit.
pub open spec fn visitas_movidas(
    antes_um: Seq<Rota>,
    antes_outro: Seq<Rota>,
    um: Seq<Rota>,
    outro: Seq<Rota>,
) -> bool {
    &&& um.len() == antes_um.len()
    &&& outro.len() == antes_outro.len()
    &&& forall|cidade: usize| #[trigger]
        ocorrencias(um, cidade) + ocorrencias(outro, cidade) == ocorrencias(antes_um, cidade)
            + ocorrencias(antes_outro, cidade)
    &&& forall|cidade: usize| #[trigger] ocorrencias(um, cidade) <= ocorrencias(antes_um, cidade)
    &&& forall|cidade: usize|
        ocorrencias(antes_um, cidade) >= 1 ==> #[trigger] ocorrencias(um, cidade) >= 1
    &&& forall|k: int|
        0 <= k < antes_um.len() ==> (#[trigger] um[k]).cidades@.len() <= antes_um[k].cidades@.len()
            && um[k].alterada == (antes_um[k].alterada || um[k].cidades@.len()
            < antes_um[k].cidades@.len())
    &&& forall|k: int|
        0 <= k < antes_outro.len() ==> (#[trigger] outro[k]).cidades@.len()
            >= antes_outro[k].cidades@.len() && outro[k].alterada == (antes_outro[k].alterada
            || outro[k].cidades@.len() > antes_outro[k].cidades@.len())
}

/// Whether the routes `um` visit what the routes `antes` visit, route by
/// route, and are marked as they are.
pub open spec fn mesmas_rotas(antes: Seq<Rota>, um: Seq<Rota>) -> bool {
    &&& um.len() == antes.len()
    &&& forall|k: int|
        0 <= k < antes.len() ==> (#[trigger] um[k]).cidades@ == antes[k].cidades@ && um[k].alterada
            == antes[k].alterada
}

/// Moves visits from `primeiro` to `segundo` until `primeiro` visits no
/// location twice; says whether it had to move any.
///
/// Of the visits to one location, chance decides which stays. A visit
/// that leaves goes into a route of `segundo` drawn at random, at a place
/// drawn at random; both routes are marked as changed. `segundo` must
/// have a route where `primeiro` visits a location twice.
pub fn corrige_rota_duplicada(
    primeiro: &mut Vec<Rota>,
    segundo: &mut Vec<Rota>,
    alet: &mut Aleatorio,
) -> (mudou: bool)
    requires
        old(segundo)@.len() > 0 || forall|cidade: usize| #[trigger]
            ocorrencias(old(primeiro)@, cidade) <= 1,
    ensures
        visitas_movidas(old(primeiro)@, old(segundo)@, final(primeiro)@, final(segundo)@),
        forall|cidade: usize| #[trigger] ocorrencias(final(primeiro)@, cidade) <= 1,
        mudou <==> exists|cidade: usize| #[trigger] ocorrencias(old(primeiro)@, cidade) >= 2,
        !mudou ==> mesmas_rotas(old(primeiro)@, final(primeiro)@) && mesmas_rotas(
            old(segundo)@,
            final(segundo)@,
        ),
        final(alet).vicio() == old(alet).vicio(),
{
    let ghost de_inicio = primeiro@;
    let ghost outro_de_inicio = segundo@;
    let ghost mut repetida: usize = 0;
    let mut mudou = false;
    let mut r: usize = primeiro.len();
    while r > 0
        invariant
            r <= primeiro@.len(),
            outro_de_inicio.len() > 0 || forall|cidade: usize| #[trigger]
                ocorrencias(de_inicio, cidade) <= 1,
            de_inicio == old(primeiro)@,
            outro_de_inicio == old(segundo)@,
            alet.vicio() == old(alet).vicio(),
            forall|cidade: usize| #[trigger] desde(primeiro@, r as int, 0, cidade) <= 1,
            visitas_movidas(de_inicio, outro_de_inicio, primeiro@, segundo@),
            mudou ==> ocorrencias(de_inicio, repetida) >= 2,
            !mudou ==> mesmas_rotas(de_inicio, primeiro@) && mesmas_rotas(
                outro_de_inicio,
                segundo@,
            ),
        decreases r,
    {
        r -= 1;
        let mut p: usize = primeiro[r].cidades.len();
        proof {
            assert forall|cidade: usize| #[trigger]
                desde(primeiro@, r as int, p as int, cidade) <= 1 by {
                lei_desde_fim(primeiro@, r as int, cidade);
            }
        }
        while p > 0
            invariant
                r < primeiro@.len(),
                p <= primeiro@[r as int].cidades@.len(),
                outro_de_inicio.len() > 0 || forall|cidade: usize| #[trigger]
                    ocorrencias(de_inicio, cidade) <= 1,
                de_inicio == old(primeiro)@,
                outro_de_inicio == old(segundo)@,
                alet.vicio() == old(alet).vicio(),
                forall|cidade: usize| #[trigger] desde(primeiro@, r as int, p as int, cidade) <= 1,
                visitas_movidas(de_inicio, outro_de_inicio, primeiro@, segundo@),
                mudou ==> ocorrencias(de_inicio, repetida) >= 2,
                !mudou ==> mesmas_rotas(de_inicio, primeiro@) && mesmas_rotas(
                    outro_de_inicio,
                    segundo@,
                ),
            decreases p,
        {
            let cidade = primeiro[r].cidades[p - 1];
            let depois = conta_ate_dois(primeiro, r, p, cidade);
            let ao_todo = conta_ate_dois(primeiro, 0, 0, cidade);
            let sai = if ao_todo < 2 {
                false
            } else if depois >= 1 {
                true
            } else {
                alet.chance() <= ESCALA / 2
            };
            let ghost antes = primeiro@;
            let ghost outro_antes = segundo@;
            proof {
                lei_desde_passo(antes, r as int, p as int, cidade);
                lei_desde_cresce(antes, r as int, p as int - 1, cidade);
            }
            if sai {
                proof {
                    if !mudou {
                        repetida = cidade;
                    }
                    assert(ocorrencias(antes, cidade) >= 2);
                    assert(ocorrencias(antes, cidade) <= ocorrencias(de_inicio, cidade));
                    assert(segundo@.len() > 0);
                }
                mudou = true;
                primeiro[r].alterada = true;
                let cidade_movida = primeiro[r].cidades.remove(p - 1);
                let vai_para = alet.intervalo(0, segundo.len());
                segundo[vai_para].alterada = true;
                let tam = segundo[vai_para].cidades.len();
                let posicao = if tam == 0 {
                    0
                } else {
                    alet.intervalo(0, tam)
                };
                segundo[vai_para].cidades.insert(posicao, cidade_movida);
                proof {
                    broadcast use vstd::multiset::group_multiset_axioms;

                    let agora = primeiro@;
                    let outro = segundo@;
                    let rota_antes = antes[r as int].cidades@;
                    let destino_antes = outro_antes[vai_para as int].cidades@;
                    vstd::seq_lib::to_multiset_remove(rota_antes, p as int - 1);
                    vstd::seq_lib::to_multiset_contains(rota_antes, cidade);
                    assert(rota_antes.contains(cidade));
                    vstd::seq_lib::to_multiset_insert(destino_antes, posicao as int, cidade);
                    assert(agora[r as int].cidades@.skip(p as int - 1) == rota_antes.skip(
                        p as int,
                    ));
                    assert forall|c: usize| #[trigger]
                        desde(agora, r as int, p as int - 1, c) <= 1 by {
                        lei_desde_moldura(agora, antes, r as int + 1, 0, c);
                        assert(desde(agora, r as int, p as int - 1, c) == desde(
                            antes,
                            r as int,
                            p as int,
                            c,
                        ));
                    }
                    assert forall|c: usize|
                        ocorrencias(agora, c) + (if c == cidade {
                            1nat
                        } else {
                            0nat
                        }) == ocorrencias(antes, c) && ocorrencias(outro, c) == ocorrencias(
                            outro_antes,
                            c,
                        ) + (if c == cidade {
                            1nat
                        } else {
                            0nat
                        }) by {
                        lei_troca_rota(antes, agora, r as int, 0, c);
                        lei_troca_rota(outro_antes, outro, vai_para as int, 0, c);
                    }
                    assert forall|c: usize| #[trigger]
                        ocorrencias(agora, c) + ocorrencias(outro, c) == ocorrencias(de_inicio, c)
                            + ocorrencias(outro_de_inicio, c) by {
                        assert(ocorrencias(antes, c) + ocorrencias(outro_antes, c) == ocorrencias(
                            de_inicio,
                            c,
                        ) + ocorrencias(outro_de_inicio, c));
                    }
                    assert forall|c: usize| #[trigger]
                        ocorrencias(agora, c) <= ocorrencias(de_inicio, c) by {
                        assert(ocorrencias(antes, c) <= ocorrencias(de_inicio, c));
                    }
                    assert forall|c: usize| ocorrencias(de_inicio, c) >= 1 implies #[trigger] ocorrencias(
                        agora,
                        c,
                    ) >= 1 by {
                        assert(ocorrencias(antes, c) >= 1);
                    }
                    assert(ocorrencias(antes, cidade) <= ocorrencias(de_inicio, cidade));
                }
            } else {
                proof {
                    assert forall|c: usize| #[trigger]
                        desde(antes, r as int, p as int - 1, c) <= 1 by {
                        lei_desde_passo(antes, r as int, p as int, c);
                    }
                }
            }
            p -= 1;
        }
    }
    proof {
        if !mudou {
            assert forall|cidade: usize| !(#[trigger] ocorrencias(de_inicio, cidade) >= 2) by {
                lei_desde_moldura(primeiro@, de_inicio, 0, 0, cidade);
                assert(desde(primeiro@, 0, 0, cidade) <= 1);
            }
        }
    }
    mudou
}

/// One route more counts what that route counts.
pub proof fn lei_nova_rota(rotas: Seq<Rota>, rota: Rota, r: int, p: int, cidade: usize)
    requires
        0 <= r <= rotas.len(),
        r < rotas.len() ==> 0 <= p <= rotas[r].cidades@.len(),
        r == rotas.len() ==> p == 0,
    ensures
        desde(rotas.push(rota), r, p, cidade) == desde(rotas, r, p, cidade) + conta(
            rota.cidades@,
            cidade,
        ),
    decreases rotas.len() - r,
{
    let mais = rotas.push(rota);
    if r < rotas.len() {
        assert(mais[r] == rotas[r]);
        lei_nova_rota(rotas, rota, r + 1, 0, cidade);
    } else {
        assert(mais[r] == rota);
        assert(rota.cidades@.skip(0) == rota.cidades@);
        assert(desde(mais, r + 1, 0, cidade) == 0);
    }
}

/// A copy of a route.
pub fn copia_rota(rota: &Rota) -> (r: Rota)
    ensures
        r.alterada == rota.alterada,
        r.cidades@ == rota.cidades@,
{
    Rota { alterada: rota.alterada, cidades: copia(&rota.cidades) }
}

/// A copy of a family of routes.
pub fn copia_rotas(rotas: &Vec<Rota>) -> (r: Vec<Rota>)
    ensures
        r@.len() == rotas@.len(),
        forall|k: int|
            0 <= k < rotas@.len() ==> (#[trigger] r@[k]).cidades@ == rotas@[k].cidades@
                && r@[k].alterada == rotas@[k].alterada,
{
    let mut r: Vec<Rota> = Vec::new();
    let mut i: usize = 0;
    while i < rotas.len()
        invariant
            i <= rotas@.len(),
            r@.len() == i,
            forall|k: int|
                0 <= k < i ==> (#[trigger] r@[k]).cidades@ == rotas@[k].cidades@ && r@[k].alterada
                    == rotas@[k].alterada,
        decreases rotas@.len() - i,
    {
        r.push(copia_rota(&rotas[i]));
        i += 1;
    }
    r
}

/// Whether `filhos` are `primeiro` and `segundo` with the ends of their
/// routes `caminhao` exchanged from the visit `corte` on, those routes
/// marked as changed.
pub open spec fn trecho_trocado(
    primeiro: Seq<Rota>,
    segundo: Seq<Rota>,
    caminhao: int,
    corte: int,
    filhos: (Seq<Rota>, Seq<Rota>),
) -> bool {
    &&& filhos.0.len() == primeiro.len()
    &&& filhos.1.len() == segundo.len()
    &&& forall|k: int|
        0 <= k < primeiro.len() && k != caminhao ==> (#[trigger] filhos.0[k]).cidades@
            == primeiro[k].cidades@ && filhos.0[k].alterada == primeiro[k].alterada
    &&& forall|k: int|
        0 <= k < segundo.len() && k != caminhao ==> (#[trigger] filhos.1[k]).cidades@
            == segundo[k].cidades@ && filhos.1[k].alterada == segundo[k].alterada
    &&& filhos.0[caminhao].alterada
    &&& filhos.1[caminhao].alterada
    &&& filhos.0[caminhao].cidades@ == primeiro[caminhao].cidades@.take(corte)
        + segundo[caminhao].cidades@.skip(corte)
    &&& filhos.1[caminhao].cidades@ == segundo[caminhao].cidades@.take(corte)
        + primeiro[caminhao].cidades@.skip(corte)
}

/// Exchanging the ends of two routes keeps the visits of both families
/// together as they were.
pub proof fn lei_troca_conserva(
    primeiro: Seq<Rota>,
    segundo: Seq<Rota>,
    caminhao: int,
    corte: int,
    filhos: (Seq<Rota>, Seq<Rota>),
    cidade: usize,
)
    requires
        0 <= caminhao < primeiro.len(),
        caminhao < segundo.len(),
        0 <= corte <= primeiro[caminhao].cidades@.len(),
        corte <= segundo[caminhao].cidades@.len(),
        trecho_trocado(primeiro, segundo, caminhao, corte, filhos),
    ensures
        ocorrencias(filhos.0, cidade) + ocorrencias(filhos.1, cidade) == ocorrencias(
            primeiro,
            cidade,
        ) + ocorrencias(segundo, cidade),
{
    broadcast use vstd::multiset::group_multiset_axioms;

    let a = primeiro[caminhao].cidades@;
    let b = segundo[caminhao].cidades@;
    lei_troca_rota(primeiro, filhos.0, caminhao, 0, cidade);
    lei_troca_rota(segundo, filhos.1, caminhao, 0, cidade);
    assert(a == a.take(corte) + a.skip(corte));
    assert(b == b.take(corte) + b.skip(corte));
    vstd::seq_lib::lemma_multiset_commutative(a.take(corte), a.skip(corte));
    vstd::seq_lib::lemma_multiset_commutative(b.take(corte), b.skip(corte));
    vstd::seq_lib::lemma_multiset_commutative(a.take(corte), b.skip(corte));
    vstd::seq_lib::lemma_multiset_commutative(b.take(corte), a.skip(corte));
}

/// The head of `a` up to `corte` followed by the tail of `b` from `corte`.
fn emenda(a: &Vec<usize>, b: &Vec<usize>, corte: usize) -> (r: Vec<usize>)
    requires
        corte <= a@.len(),
        corte <= b@.len(),
    ensures
        r@ == a@.take(corte as int) + b@.skip(corte as int),
{
    let mut r: Vec<usize> = Vec::new();
    let mut i: usize = 0;
    while i < corte
        invariant
            i <= corte <= a@.len(),
            r@ == a@.take(i as int),
        decreases corte - i,
    {
        r.push(a[i]);
        i += 1;
    }
    let mut j: usize = corte;
    while j < b.len()
        invariant
            corte <= j <= b@.len(),
            corte <= a@.len(),
            r@ == a@.take(corte as int) + b@.subrange(corte as int, j as int),
        decreases b@.len() - j,
    {
        r.push(b[j]);
        j += 1;
    }
    assert(b@.subrange(corte as int, b@.len() as int) == b@.skip(corte as int));
    r
}

/// Copies of two families of routes with the ends of their routes
/// `caminhao` exchanged from the visit `corte` on.
pub fn troca_trecho(
    primeiro: &Vec<Rota>,
    segundo: &Vec<Rota>,
    caminhao: usize,
    corte: usize,
) -> (filhos: (Vec<Rota>, Vec<Rota>))
    requires
        caminhao < primeiro@.len(),
        caminhao < segundo@.len(),
        corte <= primeiro@[caminhao as int].cidades@.len(),
        corte <= segundo@[caminhao as int].cidades@.len(),
    ensures
        trecho_trocado(primeiro@, segundo@, caminhao as int, corte as int, (filhos.0@, filhos.1@)),
{
    let primeira_rota_filha = emenda(&primeiro[caminhao].cidades, &segundo[caminhao].cidades, corte);
    let segunda_rota_filha = emenda(&segundo[caminhao].cidades, &primeiro[caminhao].cidades, corte);
    let mut primeiro_filho = copia_rotas(primeiro);
    let mut segundo_filho = copia_rotas(segundo);
    primeiro_filho.set(caminhao, Rota { alterada: true, cidades: primeira_rota_filha });
    segundo_filho.set(caminhao, Rota { alterada: true, cidades: segunda_rota_filha });
    (primeiro_filho, segundo_filho)
}

/// Whether `depois` are the two families `antes` repaired, the first
/// against the second and then the second against the first: in neither
/// is a location visited twice any more.
pub open spec fn corrigidos(antes: (Seq<Rota>, Seq<Rota>), depois: (Seq<Rota>, Seq<Rota>)) -> bool {
    exists|meio: (Seq<Rota>, Seq<Rota>)|
        {
            &&& #[trigger] visitas_movidas(antes.0, antes.1, meio.0, meio.1)
            &&& forall|cidade: usize| #[trigger] ocorrencias(meio.0, cidade) <= 1
            &&& visitas_movidas(meio.1, meio.0, depois.1, depois.0)
            &&& forall|cidade: usize| #[trigger] ocorrencias(depois.1, cidade) <= 1
        }
}

/// Whether `filhos` can come out of crossing `primeiro` and `segundo`
/// when the route `caminhao` is drawn: they are the parents as they are
/// where one of the two routes drawn is empty, and else the parents with
/// the ends of those routes exchanged at a cut within both, repaired.
pub open spec fn cruzados_em(
    primeiro: Seq<Rota>,
    segundo: Seq<Rota>,
    filhos: (Seq<Rota>, Seq<Rota>),
    caminhao: int,
) -> bool {
    if primeiro[caminhao].cidades@.len() == 0 || segundo[caminhao].cidades@.len() == 0 {
        mesmas_rotas(primeiro, filhos.0) && mesmas_rotas(segundo, filhos.1)
    } else {
        exists|corte: int, cruzados: (Seq<Rota>, Seq<Rota>)|
            {
                &&& 0 <= corte < primeiro[caminhao].cidades@.len()
                &&& corte < segundo[caminhao].cidades@.len()
                &&& #[trigger] trecho_trocado(primeiro, segundo, caminhao, corte, cruzados)
                &&& corrigidos(cruzados, filhos)
            }
    }
}

/// Whether `filhos` can come out of crossing `primeiro` and `segundo`:
/// they are the parents as they are where `primeiro` has no route or
/// `segundo` has fewer routes, and else what comes out for one of the
/// routes of `primeiro`.
pub open spec fn cruzamento_de_rotas(
    primeiro: Seq<Rota>,
    segundo: Seq<Rota>,
    filhos: (Seq<Rota>, Seq<Rota>),
) -> bool {
    if primeiro.len() == 0 || segundo.len() < primeiro.len() {
        mesmas_rotas(primeiro, filhos.0) && mesmas_rotas(segundo, filhos.1)
    } else {
        exists|caminhao: int|
            0 <= caminhao < primeiro.len() && #[trigger] cruzados_em(
                primeiro,
                segundo,
                filhos,
                caminhao,
            )
    }
}

/// Crosses two families of routes and repairs the children.
pub struct CruzadorRotas {
    pub problema: Rc<Problema>,
}

impl Cruzador<Vec<Rota>> for CruzadorRotas {
    /// The children are what comes out of a crossing (see
    /// [`cruzamento_de_rotas`]), and they visit between them what the
    /// parents visit between them.
    open spec fn pode_gerar(&self, primeiro: &Vec<Rota>, segundo: &Vec<Rota>, filhos: (
        Vec<Rota>,
        Vec<Rota>,
    )) -> bool {
        &&& cruzamento_de_rotas(primeiro@, segundo@, (filhos.0@, filhos.1@))
        &&& forall|cidade: usize| #[trigger]
            ocorrencias(filhos.0@, cidade) + ocorrencias(filhos.1@, cidade) == ocorrencias(
                primeiro@,
                cidade,
            ) + ocorrencias(segundo@, cidade)
    }

    /// The parents exchange the ends of one route: the route and the
    /// place of the cut are drawn at random. A location that a child then
    /// visits twice is missing in the other, which gets one of the two
    /// visits. Children of parents that each visit every location once do
    /// so too.
    ///
    /// The children are copies of the parents where `primeiro` has no
    /// route, where `segundo` has fewer routes than `primeiro`, or where
    /// one of the two routes drawn is empty.
    fn cruzar(&self, aleatorio: &mut Aleatorio, primeiro: &Vec<Rota>, segundo: &Vec<Rota>) -> (filhos:
        (Vec<Rota>, Vec<Rota>))
        ensures
            filhos.0@.len() == primeiro@.len(),
            filhos.1@.len() == segundo@.len(),
            forall|qtd: nat|
                particao(primeiro@, qtd) && particao(segundo@, qtd) ==> particao(filhos.0@, qtd)
                    && particao(filhos.1@, qtd),
            final(aleatorio).vicio() == old(aleatorio).vicio(),
    {
        if primeiro.len() == 0 || segundo.len() < primeiro.len() {
            let copias = (copia_rotas(primeiro), copia_rotas(segundo));
            proof {
                lema_copias(primeiro@, segundo@, copias.0@, copias.1@);
                assert(mesmas_rotas(primeiro@, copias.0@) && mesmas_rotas(segundo@, copias.1@));
            }
            return copias;
        }
        let indice_caminhao_cruzar = aleatorio.intervalo(0, primeiro.len());
        let tamanho_primeiro = primeiro[indice_caminhao_cruzar].cidades.len();
        let tamanho_segundo = segundo[indice_caminhao_cruzar].cidades.len();
        let menor_rota = if tamanho_primeiro < tamanho_segundo {
            tamanho_primeiro
        } else {
            tamanho_segundo
        };
        if menor_rota == 0 {
            let copias = (copia_rotas(primeiro), copia_rotas(segundo));
            proof {
                lema_copias(primeiro@, segundo@, copias.0@, copias.1@);
                assert(mesmas_rotas(primeiro@, copias.0@) && mesmas_rotas(segundo@, copias.1@));
                assert(cruzados_em(
                    primeiro@,
                    segundo@,
                    (copias.0@, copias.1@),
                    indice_caminhao_cruzar as int,
                ));
            }
            return copias;
        }
        let indice_cruzar = aleatorio.intervalo(0, menor_rota);
        let (mut primeiro_filho, mut segundo_filho) = troca_trecho(
            primeiro,
            segundo,
            indice_caminhao_cruzar,
            indice_cruzar,
        );
        let ghost cruzados = (primeiro_filho@, segundo_filho@);
        corrige_rota_duplicada(&mut primeiro_filho, &mut segundo_filho, aleatorio);
        let ghost meio = (primeiro_filho@, segundo_filho@);
        corrige_rota_duplicada(&mut segundo_filho, &mut primeiro_filho, aleatorio);
        proof {
            let filhos = (primeiro_filho@, segundo_filho@);
            assert(visitas_movidas(cruzados.0, cruzados.1, meio.0, meio.1));
            assert(corrigidos(cruzados, filhos));
            assert(trecho_trocado(
                primeiro@,
                segundo@,
                indice_caminhao_cruzar as int,
                indice_cruzar as int,
                cruzados,
            ));
            assert(cruzados_em(primeiro@, segundo@, filhos, indice_caminhao_cruzar as int));
        }
        proof {
            assert forall|cidade: usize| #[trigger]
                ocorrencias(primeiro_filho@, cidade) + ocorrencias(segundo_filho@, cidade)
                    == ocorrencias(primeiro@, cidade) + ocorrencias(segundo@, cidade) by {
                lei_troca_conserva(
                    primeiro@,
                    segundo@,
                    indice_caminhao_cruzar as int,
                    indice_cruzar as int,
                    cruzados,
                    cidade,
                );
                assert(ocorrencias(meio.0, cidade) + ocorrencias(meio.1, cidade) == ocorrencias(
                    cruzados.0,
                    cidade,
                ) + ocorrencias(cruzados.1, cidade));
            }
            assert forall|qtd: nat|
                particao(primeiro@, qtd) && particao(segundo@, qtd) implies particao(
                primeiro_filho@,
                qtd,
            ) && particao(segundo_filho@, qtd) by {
                assert forall|cidade: usize|
                    ocorrencias(primeiro_filho@, cidade) == (if cidade < qtd {
                        1nat
                    } else {
                        0nat
                    }) && ocorrencias(segundo_filho@, cidade) == (if cidade < qtd {
                        1nat
                    } else {
                        0nat
                    }) by {
                    lei_troca_conserva(
                        primeiro@,
                        segundo@,
                        indice_caminhao_cruzar as int,
                        indice_cruzar as int,
                        cruzados,
                        cidade,
                    );
                    assert(ocorrencias(primeiro@, cidade) == if cidade < qtd {
                        1nat
                    } else {
                        0nat
                    });
                    assert(ocorrencias(segundo@, cidade) == if cidade < qtd {
                        1nat
                    } else {
                        0nat
                    });
                    assert(ocorrencias(meio.0, cidade) + ocorrencias(meio.1, cidade)
                        == ocorrencias(cruzados.0, cidade) + ocorrencias(cruzados.1, cidade));
                    assert(ocorrencias(meio.0, cidade) == if ocorrencias(cruzados.0, cidade) >= 1 {
                        1nat
                    } else {
                        0nat
                    });
                    assert(ocorrencias(segundo_filho@, cidade) == if ocorrencias(meio.1, cidade)
                        >= 1 {
                        1nat
                    } else {
                        0nat
                    });
                    assert(ocorrencias(segundo_filho@, cidade) + ocorrencias(
                        primeiro_filho@,
                        cidade,
                    ) == ocorrencias(meio.1, cidade) + ocorrencias(meio.0, cidade));
                }
            }
        }
        (primeiro_filho, segundo_filho)
    }
}

/// Copies visit what the routes they were made from visit.
proof fn lema_copias(primeiro: Seq<Rota>, segundo: Seq<Rota>, um: Seq<Rota>, outro: Seq<Rota>)
    requires
        um.len() == primeiro.len(),
        outro.len() == segundo.len(),
        forall|k: int| 0 <= k < primeiro.len() ==> (#[trigger] um[k]).cidades@ == primeiro[k].cidades@,
        forall|k: int|
            0 <= k < segundo.len() ==> (#[trigger] outro[k]).cidades@ == segundo[k].cidades@,
    ensures
        forall|cidade: usize| #[trigger] ocorrencias(um, cidade) == ocorrencias(primeiro, cidade),
        forall|cidade: usize| #[trigger] ocorrencias(outro, cidade) == ocorrencias(segundo, cidade),
        forall|qtd: nat| particao(primeiro, qtd) ==> particao(um, qtd),
        forall|qtd: nat| particao(segundo, qtd) ==> particao(outro, qtd),
{
    assert forall|cidade: usize| #[trigger]
        ocorrencias(um, cidade) == ocorrencias(primeiro, cidade) by {
        lei_desde_moldura(um, primeiro, 0, 0, cidade);
    }
    assert forall|cidade: usize| #[trigger]
        ocorrencias(outro, cidade) == ocorrencias(segundo, cidade) by {
        lei_desde_moldura(outro, segundo, 0, 0, cidade);
    }
}

/// Makes families of routes for a problem.
pub struct CriadorRotas {
    pub problema: Rc<Problema>,
}

/// The locations shared out evenly: the least number of visits for each
/// vehicle that lets `qtd_caminhoes` vehicles visit `qtd_cidades`
/// locations.
pub open spec fn cidades_por_caminhao(qtd_cidades: nat, qtd_caminhoes: nat) -> nat {
    if qtd_cidades % qtd_caminhoes == 0 {
        qtd_cidades / qtd_caminhoes
    } else {
        qtd_cidades / qtd_caminhoes + 1
    }
}

impl CriadorIndividuos<Vec<Rota>> for CriadorRotas {
    /// One route for each vehicle of the problem, which together visit
    /// every location once where there is a vehicle at all.
    open spec fn pode_criar(&self, rotas: &Vec<Rota>) -> bool {
        &&& rotas@.len() == self.problema.qtd_caminhoes
        &&& self.problema.qtd_caminhoes > 0 ==> particao(rotas@, self.problema.cidades@.len())
    }

    /// One route for each vehicle of the problem. The locations go to the
    /// vehicles in an order drawn at random, each vehicle taking its even
    /// share while there are locations left: every location is visited
    /// once. There are no routes where there are no vehicles.
    fn criar(&self, aleatorio: &mut Aleatorio) -> (rotas: Vec<Rota>)
        ensures
            rotas@.len() == self.problema.qtd_caminhoes,
            self.problema.qtd_caminhoes > 0 ==> particao(rotas@, self.problema.cidades@.len()),
            forall|k: int|
                0 <= k < rotas@.len() ==> (#[trigger] rotas@[k]).alterada && rotas@[k].cidades@.len()
                    <= cidades_por_caminhao(
                    self.problema.cidades@.len(),
                    self.problema.qtd_caminhoes as nat,
                ),
            final(aleatorio).vicio() == old(aleatorio).vicio(),
    {
        let n = self.problema.cidades.len();
        let qtd_caminhoes = self.problema.qtd_caminhoes;
        let mut rotas: Vec<Rota> = Vec::new();
        if qtd_caminhoes == 0 {
            return rotas;
        }
        let mut indices: Vec<usize> = Vec::new();
        let mut i: usize = 0;
        proof {
            broadcast use vstd::multiset::group_multiset_axioms;

            assert(indices@ =~= Seq::<usize>::empty());
            Seq::<usize>::empty().to_multiset_ensures();
            assert forall|cidade: usize| #[trigger] conta(indices@, cidade) == 0 by {}
        }
        while i < n
            invariant
                i <= n,
                indices@.len() == i,
                forall|cidade: usize| #[trigger]
                    conta(indices@, cidade) == if cidade < i {
                        1nat
                    } else {
                        0nat
                    },
            decreases n - i,
        {
            let ghost antes = indices@;
            indices.push(i);
            proof {
                broadcast use vstd::multiset::group_multiset_axioms;

                vstd::seq_lib::to_multiset_build(antes, i);
                assert forall|cidade: usize| #[trigger]
                    conta(indices@, cidade) == if cidade < i + 1 {
                        1nat
                    } else {
                        0nat
                    } by {
                    assert(conta(antes, cidade) == if cidade < i {
                        1nat
                    } else {
                        0nat
                    });
                }
            }
            i += 1;
        }
        let mut qtd_cidades_caminhao = n / qtd_caminhoes;
        if n % qtd_caminhoes != 0 {
            assert(n / qtd_caminhoes < n) by (nonlinear_arith)
                requires
                    qtd_caminhoes > 0,
                    n % qtd_caminhoes != 0,
            ;
            qtd_cidades_caminhao += 1;
        }
        assert(qtd_cidades_caminhao * qtd_caminhoes >= n) by (nonlinear_arith)
            requires
                qtd_caminhoes > 0,
                qtd_cidades_caminhao == cidades_por_caminhao(n as nat, qtd_caminhoes as nat),
        ;
        let mut t: usize = 0;
        proof {
            assert(desde(rotas@, 0, 0, 0) == 0);
            assert forall|cidade: usize| #[trigger] ocorrencias(rotas@, cidade) == 0 by {}
            assert(0 * qtd_cidades_caminhao == 0);
        }
        while t < qtd_caminhoes
            invariant
                t <= qtd_caminhoes,
                rotas@.len() == t,
                qtd_caminhoes == self.problema.qtd_caminhoes,
                n == self.problema.cidades@.len(),
                qtd_cidades_caminhao == cidades_por_caminhao(n as nat, qtd_caminhoes as nat),
                qtd_cidades_caminhao * qtd_caminhoes >= n,
                aleatorio.vicio() == old(aleatorio).vicio(),
                indices@.len() == 0 || indices@.len() + t * qtd_cidades_caminhao == n,
                forall|cidade: usize| #[trigger]
                    ocorrencias(rotas@, cidade) + conta(indices@, cidade) == if cidade < n {
                        1nat
                    } else {
                        0nat
                    },
                forall|k: int|
                    0 <= k < rotas@.len() ==> (#[trigger] rotas@[k]).alterada
                        && rotas@[k].cidades@.len() <= qtd_cidades_caminhao,
            decreases qtd_caminhoes - t,
        {
            let mut cidades: Vec<usize> = Vec::new();
            let ghost no_inicio = indices@.len();
            let mut j: usize = 0;
            proof {
                Seq::<usize>::empty().to_multiset_ensures();
            }
            while j < qtd_cidades_caminhao && indices.len() > 0
                invariant
                    j <= qtd_cidades_caminhao,
                    cidades@.len() == j,
                    n == self.problema.cidades@.len(),
                    aleatorio.vicio() == old(aleatorio).vicio(),
                    indices@.len() + j == no_inicio,
                    forall|cidade: usize| #[trigger]
                        ocorrencias(rotas@, cidade) + conta(cidades@, cidade) + conta(
                            indices@,
                            cidade,
                        ) == if cidade < n {
                            1nat
                        } else {
                            0nat
                        },
                decreases qtd_cidades_caminhao - j,
            {
                let qtd = indices.len();
                let idx = aleatorio.intervalo(0, qtd);
                let ghost antes = indices@;
                let ghost na_rota = cidades@;
                let cidade = indices.remove(idx);
                cidades.push(cidade);
                proof {
                    broadcast use vstd::multiset::group_multiset_axioms;

                    vstd::seq_lib::to_multiset_remove(antes, idx as int);
                    vstd::seq_lib::to_multiset_build(na_rota, cidade);
                    vstd::seq_lib::to_multiset_contains(antes, cidade);
                    assert(antes.contains(cidade));
                    assert forall|c: usize| #[trigger]
                        ocorrencias(rotas@, c) + conta(cidades@, c) + conta(indices@, c) == if c
                            < n {
                            1nat
                        } else {
                            0nat
                        } by {
                        assert(ocorrencias(rotas@, c) + conta(na_rota, c) + conta(antes, c) == if c
                            < n {
                            1nat
                        } else {
                            0nat
                        });
                    }
                }
                j += 1;
            }
            let rota = Rota { alterada: true, cidades: cidades };
            proof {
                assert forall|cidade: usize| #[trigger]
                    ocorrencias(rotas@.push(rota), cidade) + conta(indices@, cidade) == if cidade
                        < n {
                        1nat
                    } else {
                        0nat
                    } by {
                    lei_nova_rota(rotas@, rota, 0, 0, cidade);
                    assert(ocorrencias(rotas@, cidade) + conta(rota.cidades@, cidade) + conta(
                        indices@,
                        cidade,
                    ) == if cidade < n {
                        1nat
                    } else {
                        0nat
                    });
                }
                assert((t + 1) * qtd_cidades_caminhao == t * qtd_cidades_caminhao
                    + qtd_cidades_caminhao) by (nonlinear_arith);
            }
            rotas.push(rota);
            t += 1;
        }
        proof {
            assert(indices@.len() == 0) by {
                assert(t * qtd_cidades_caminhao == qtd_cidades_caminhao * qtd_caminhoes)
                    by (nonlinear_arith)
                    requires
                        t == qtd_caminhoes,
                ;
            }
            indices@.to_multiset_ensures();
            assert(indices@ =~= Seq::<usize>::empty());
            Seq::<usize>::empty().to_multiset_ensures();
            assert forall|cidade: usize| #[trigger]
                ocorrencias(rotas@, cidade) == if cidade < n {
                    1nat
                } else {
                    0nat
                } by {
                assert(ocorrencias(rotas@, cidade) + conta(indices@, cidade) == if cidade < n {
                    1nat
                } else {
                    0nat
                });
            }
        }
        rotas
    }
}

/// A location that no route visits from some visit on counts nothing
/// from there on.
pub proof fn lei_ausente(rotas: Seq<Rota>, r: int, p: int, cidade: usize)
    requires
        0 <= r <= rotas.len(),
        r < rotas.len() ==> 0 <= p <= rotas[r].cidades@.len(),
        forall|k: int, q: int|
            r <= k < rotas.len() && 0 <= q < rotas[k].cidades@.len() ==> #[trigger] rotas[k].cidades@[q]
                != cidade,
    ensures
        desde(rotas, r, p, cidade) == 0,
    decreases rotas.len() - r,
{
    if r < rotas.len() {
        let s = rotas[r].cidades@.skip(p);
        vstd::seq_lib::to_multiset_contains(s, cidade);
        if s.contains(cidade) {
            let q = choose|q: int| 0 <= q < s.len() && s[q] == cidade;
            assert(rotas[r].cidades@[p + q] == cidade);
        }
        lei_ausente(rotas, r + 1, 0, cidade);
    }
}

/// Whether the routes visit each of the locations `0..qtd` once and no
/// other location.
pub fn valida(rotas: &Vec<Rota>, qtd: usize) -> (r: bool)
    ensures
        r == particao(rotas@, qtd as nat),
{
    let mut k: usize = 0;
    while k < rotas.len()
        invariant
            k <= rotas@.len(),
            forall|i: int, q: int|
                0 <= i < k && 0 <= q < rotas@[i].cidades@.len() ==> #[trigger] rotas@[i].cidades@[q]
                    < qtd,
        decreases rotas@.len() - k,
    {
        let mut p: usize = 0;
        while p < rotas[k].cidades.len()
            invariant
                k < rotas@.len(),
                p <= rotas@[k as int].cidades@.len(),
                forall|i: int, q: int|
                    0 <= i < k && 0 <= q < rotas@[i].cidades@.len()
                        ==> #[trigger] rotas@[i].cidades@[q] < qtd,
                forall|q: int| 0 <= q < p ==> #[trigger] rotas@[k as int].cidades@[q] < qtd,
            decreases rotas@[k as int].cidades@.len() - p,
        {
            let cidade = rotas[k].cidades[p];
            if cidade >= qtd {
                proof {
                    lei_desde_passo(rotas@, k as int, p as int + 1, cidade);
                    lei_desde_cresce(rotas@, k as int, p as int, cidade);
                    assert(ocorrencias(rotas@, cidade) >= 1);
                }
                return false;
            }
            p += 1;
        }
        k += 1;
    }
    let mut cidade: usize = 0;
    while cidade < qtd
        invariant
            cidade <= qtd,
            forall|c: usize| c < cidade ==> #[trigger] ocorrencias(rotas@, c) == 1,
        decreases qtd - cidade,
    {
        if conta_ate_dois(rotas, 0, 0, cidade) != 1 {
            assert(ocorrencias(rotas@, cidade) != 1);
            return false;
        }
        cidade += 1;
    }
    proof {
        assert forall|c: usize| #[trigger]
            ocorrencias(rotas@, c) == if c < qtd {
                1nat
            } else {
                0nat
            } by {
            if c >= qtd {
                lei_ausente(rotas@, 0, 0, c);
            }
        }
    }
    true
}

} // verus!
