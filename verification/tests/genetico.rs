use genetics::aptidao::AptidaoSimples;
use genetics::evolucao::Evolucao;
use genetics::evolucao::EvolucaoMista;
use genetics::genetico::sucessora;
use genetics::genetico::Genetico;
use genetics::objetivo::NumeroMaximoIteracoes;
use genetics::objetivo::Objetivo;
use genetics::observador::ObservadorEvolucao;
use genetics::populacao::cria_populacao;
use genetics::populacao::Individuo;
use genetics::populacao::Operacao;
use genetics::populacao::Populacao;
use std::cell::RefCell;
use std::rc::Rc;

struct ObjetivoSimples {
    valor: usize,
}

impl Objetivo<usize> for ObjetivoSimples {
    fn satisfeito_por(&mut self, ind: &Individuo<usize>) -> bool {
        self.valor == ind.genes
    }
}

/// Evolution that adds one to every genome.
struct EvolucaoSimples;

impl Evolucao<usize> for EvolucaoSimples {
    fn evoluir(&self, pop: &mut Populacao<usize>) -> Populacao<usize> {
        let mut nova_pop = pop.preparar_nova_geracao();
        for ind in pop.individuos.iter() {
            nova_pop.adicionar(ind.genes + 1);
        }

        nova_pop
    }
}

struct EvolucaoTest {
    valor: usize,
}

impl Evolucao<usize> for EvolucaoTest {
    fn evoluir(&self, pop: &mut Populacao<usize>) -> Populacao<usize> {
        let mut nova_populacao = pop.preparar_nova_geracao();

        for _ in pop.individuos.iter() {
            nova_populacao.adicionar(self.valor);
        }

        nova_populacao
    }
}

/// Evolution that breeds nothing.
struct EvolucaoEsteril;

impl Evolucao<usize> for EvolucaoEsteril {
    fn evoluir(&self, pop: &mut Populacao<usize>) -> Populacao<usize> {
        pop.preparar_nova_geracao()
    }
}

/// Writes down what it is shown.
struct Anotador {
    notas: Rc<RefCell<Vec<(usize, Vec<usize>)>>>,
}

impl ObservadorEvolucao<usize> for Anotador {
    fn inicio(&self, pop: &Populacao<usize>) {
        let genes = pop.individuos.iter().map(|i| i.genes).collect();
        self.notas.borrow_mut().push((0, genes));
    }

    fn geracao(&self, geracao: usize, pop: &Populacao<usize>) {
        let genes = pop.individuos.iter().map(|i| i.genes).collect();
        self.notas.borrow_mut().push((geracao, genes));
    }
}

#[test]
fn deve_achar_objetivo() {
    let mut pop = Populacao::criar_vazia(AptidaoSimples, Operacao::Max);
    pop.adicionar(1);
    pop.adicionar(2);
    pop.adicionar(3);
    pop.adicionar(4);

    let genetico = Genetico::criar(pop, EvolucaoSimples, ObjetivoSimples { valor: 6 });

    let resultado = genetico.buscar_solucao();
    assert_eq!(Some(6), resultado);
}

#[test]
fn deve_executar_todas_evolucoes() {
    let mut ev = EvolucaoMista::criar();
    ev.adicionar(EvolucaoTest { valor: 2 });
    ev.adicionar(EvolucaoTest { valor: 3 });
    ev.adicionar(EvolucaoTest { valor: 4 });

    let mut pop = Populacao::criar_vazia(AptidaoSimples, Operacao::Max);
    pop.adicionar(1);

    let new_pop = ev.evoluir(&mut pop);
    assert_eq!(3, new_pop.individuos.len());

    assert_eq!(2, new_pop.individuos[0].genes);
    assert_eq!(3, new_pop.individuos[1].genes);
    assert_eq!(4, new_pop.individuos[2].genes);
}

#[test]
fn evolucao_mista_vazia_nao_gera_nada() {
    let ev: EvolucaoMista<usize> = EvolucaoMista::criar();
    let mut pop = cria_populacao(&vec![4, 2], Operacao::Max);
    let nova = ev.evoluir(&mut pop);
    assert_eq!(nova.individuos.len(), 0);
    assert_eq!(pop.individuos.len(), 2);
    assert_eq!(pop.individuos[0].genes, 4);
}

#[test]
fn busca_satisfeita_de_inicio_devolve_o_mais_apto() {
    let pop = cria_populacao(&vec![3, 8, 5], Operacao::Max);
    let genetico = Genetico::criar(pop, EvolucaoSimples, NumeroMaximoIteracoes::criar(0));
    assert_eq!(genetico.buscar_solucao(), Some(8));

    let pop = cria_populacao(&vec![3, 8, 5], Operacao::Min);
    let genetico = Genetico::criar(pop, EvolucaoSimples, NumeroMaximoIteracoes::criar(0));
    assert_eq!(genetico.buscar_solucao(), Some(3));
}

#[test]
fn busca_para_no_limite_de_iteracoes() {
    let pop = cria_populacao(&vec![1, 2, 3, 4], Operacao::Max);
    let genetico = Genetico::criar(pop, EvolucaoSimples, NumeroMaximoIteracoes::criar(10));
    assert_eq!(genetico.buscar_solucao(), Some(14));
}

#[test]
fn busca_sem_descendentes_termina_sem_solucao() {
    let pop = cria_populacao(&vec![1, 2, 3, 4], Operacao::Max);
    let genetico = Genetico::criar(pop, EvolucaoEsteril, NumeroMaximoIteracoes::criar(10));
    assert_eq!(genetico.buscar_solucao(), None);
}

#[test]
fn elitismo_mantem_os_pais_na_disputa() {
    let pop = cria_populacao(&vec![1, 2, 3, 4], Operacao::Max);
    let mut genetico = Genetico::criar(pop, EvolucaoEsteril, NumeroMaximoIteracoes::criar(3));
    genetico.elitismo = true;
    assert_eq!(genetico.buscar_solucao(), Some(4));

    // Minimising with elitism: adding one never helps, the best stays.
    let pop = cria_populacao(&vec![7, 5, 9], Operacao::Min);
    let mut genetico = Genetico::criar(pop, EvolucaoSimples, NumeroMaximoIteracoes::criar(4));
    genetico.elitismo = true;
    assert_eq!(genetico.buscar_solucao(), Some(5));
}

#[test]
fn observador_ve_cada_geracao() {
    let notas = Rc::new(RefCell::new(Vec::new()));
    let pop = cria_populacao(&vec![1, 4, 2], Operacao::Max);
    let mut genetico = Genetico::criar(pop, EvolucaoSimples, NumeroMaximoIteracoes::criar(2));
    genetico.observador(Anotador { notas: notas.clone() });
    assert_eq!(genetico.buscar_solucao(), Some(6));
    let vistas = notas.borrow().clone();
    assert_eq!(
        vistas,
        vec![
            (0, vec![1, 4, 2]),
            // The fittest goes back at the end before the evolution runs.
            (1, vec![5, 3, 2]),
            (2, vec![6, 4, 3]),
        ]
    );
}

#[test]
fn sucessora_trunca_e_aplica_elitismo() {
    let pais = cria_populacao(&vec![9, 1], Operacao::Max);
    let mut filhos = pais.preparar_nova_geracao();
    filhos.adicionar(5);
    filhos.adicionar(9);
    filhos.adicionar(7);
    let r = sucessora(pais, filhos, true, 3);
    let genes: Vec<usize> = r.individuos.iter().map(|i| i.genes).collect();
    // The child with 9 comes before the parent with 9: children come first.
    assert_eq!(genes, vec![9, 9, 7]);
    assert_eq!(r.individuos[0].aptidao, 9);

    let pais = cria_populacao(&vec![9, 1], Operacao::Max);
    let mut filhos = pais.preparar_nova_geracao();
    filhos.adicionar(5);
    filhos.adicionar(7);
    let r = sucessora(pais, filhos, false, 3);
    let genes: Vec<usize> = r.individuos.iter().map(|i| i.genes).collect();
    assert_eq!(genes, vec![7, 5]);
}

#[test]
fn ultimo_observador_e_o_que_ve() {
    let primeiras = Rc::new(RefCell::new(Vec::new()));
    let ultimas = Rc::new(RefCell::new(Vec::new()));
    let pop = cria_populacao(&vec![2, 1], Operacao::Max);
    let mut genetico = Genetico::criar(pop, EvolucaoSimples, NumeroMaximoIteracoes::criar(1));
    genetico.observador(Anotador { notas: primeiras.clone() });
    genetico.observador(Anotador { notas: ultimas.clone() });
    assert_eq!(genetico.buscar_solucao(), Some(3));
    assert_eq!(primeiras.borrow().len(), 0);
    assert_eq!(ultimas.borrow().clone(), vec![(0, vec![2, 1]), (1, vec![3, 2])]);
}

/// Evolution that takes one from every genome.
struct EvolucaoQuePiora;

impl Evolucao<usize> for EvolucaoQuePiora {
    fn evoluir(&self, pop: &mut Populacao<usize>) -> Populacao<usize> {
        let mut nova_pop = pop.preparar_nova_geracao();
        for ind in pop.individuos.iter() {
            nova_pop.adicionar(ind.genes - 1);
        }
        nova_pop
    }
}

#[test]
fn com_elitismo_o_melhor_nunca_piora() {
    let notas = Rc::new(RefCell::new(Vec::new()));
    let pop = cria_populacao(&vec![10, 30, 20], Operacao::Max);
    let mut genetico = Genetico::criar(pop, EvolucaoQuePiora, NumeroMaximoIteracoes::criar(5));
    genetico.elitismo = true;
    genetico.observador(Anotador { notas: notas.clone() });
    assert_eq!(genetico.buscar_solucao(), Some(30));
    let melhores: Vec<usize> =
        notas.borrow().iter().map(|(_, genes)| *genes.iter().max().unwrap()).collect();
    assert_eq!(melhores, vec![30; 6]);

    let pop = cria_populacao(&vec![10, 30, 20], Operacao::Max);
    let sem_elite = Genetico::criar(pop, EvolucaoQuePiora, NumeroMaximoIteracoes::criar(5));
    assert_eq!(sem_elite.buscar_solucao(), Some(25));
}
