use genetics::objetivo::NumeroMaximoIteracoes;
use genetics::objetivo::Objetivo;
use genetics::objetivo::ObjetivoIntervalo;
use genetics::objetivo::ObjetivoMisto;
use genetics::populacao::Individuo;
use std::cell::Cell;
use std::rc::Rc;

struct ObjetivoTeste {
    valor: bool,
    chamado: bool,
}

impl Objetivo<usize> for ObjetivoTeste {
    fn satisfeito_por(&mut self, _: &Individuo<usize>) -> bool {
        self.chamado = true;

        return self.valor;
    }
}

/// Counts its calls where the test can see them.
struct ObjetivoContado {
    valor: bool,
    chamadas: Rc<Cell<usize>>,
}

impl Objetivo<usize> for ObjetivoContado {
    fn satisfeito_por(&mut self, _: &Individuo<usize>) -> bool {
        self.chamadas.set(self.chamadas.get() + 1);
        self.valor
    }
}

#[test]
fn deve_respeitar_repeticao_maxima() {
    let mut nmi = NumeroMaximoIteracoes::criar(4);
    let mut qtd = 0;
    while !nmi.satisfeito_por(&Individuo { genes: 10, aptidao: 1 }) {
        qtd = qtd + 1;
    }
    assert_eq!(4, qtd);
}

#[test]
fn limite_so_e_satisfeito_uma_vez() {
    let mut nmi = NumeroMaximoIteracoes::criar(2);
    let ind = Individuo { genes: 0usize, aptidao: 0 };
    let respostas: Vec<bool> = (0..6).map(|_| nmi.satisfeito_por(&ind)).collect();
    assert_eq!(respostas, vec![false, false, true, false, false, false]);

    let mut imediato = NumeroMaximoIteracoes::criar(0);
    assert!(imediato.satisfeito_por(&ind));
    assert!(!imediato.satisfeito_por(&ind));
}

#[test]
fn deve_parar_primeiro_objetivo_multiplo_satisfeito() {
    let mut objetivo = ObjetivoMisto::criar();
    objetivo.adicionar(ObjetivoTeste { valor: true, chamado: false });
    objetivo.adicionar(ObjetivoTeste { valor: true, chamado: false });
    objetivo.adicionar(ObjetivoTeste { valor: true, chamado: false });

    let res = objetivo.satisfeito_por(&Individuo { genes: 10, aptidao: 1 });

    assert_eq!(true, res);
}

#[test]
fn deve_validar_objetivos_multiplos() {
    let mut objetivo = ObjetivoMisto::criar();
    objetivo.adicionar(ObjetivoTeste { valor: false, chamado: false });
    objetivo.adicionar(ObjetivoTeste { valor: false, chamado: false });
    objetivo.adicionar(ObjetivoTeste { valor: false, chamado: false });

    let res = objetivo.satisfeito_por(&Individuo { genes: 10, aptidao: 1 });
    assert_eq!(false, res);
}

#[test]
fn objetivo_misto_para_no_primeiro_satisfeito() {
    let chamadas: Vec<Rc<Cell<usize>>> = (0..3).map(|_| Rc::new(Cell::new(0))).collect();
    let mut objetivo = ObjetivoMisto::criar();
    for c in chamadas.iter() {
        objetivo.adicionar(ObjetivoContado { valor: true, chamadas: c.clone() });
    }
    assert!(objetivo.satisfeito_por(&Individuo { genes: 10, aptidao: 1 }));
    assert_eq!(chamadas[0].get(), 1);
    assert_eq!(chamadas[1].get(), 0);
    assert_eq!(chamadas[2].get(), 0);
}

#[test]
fn objetivo_misto_chama_ate_o_primeiro_satisfeito() {
    let chamadas: Vec<Rc<Cell<usize>>> = (0..4).map(|_| Rc::new(Cell::new(0))).collect();
    let valores = [false, false, true, true];
    let mut objetivo = ObjetivoMisto::criar();
    for (c, v) in chamadas.iter().zip(valores.iter()) {
        objetivo.adicionar(ObjetivoContado { valor: *v, chamadas: c.clone() });
    }
    let ind = Individuo { genes: 10, aptidao: 1 };
    assert!(objetivo.satisfeito_por(&ind));
    assert!(objetivo.satisfeito_por(&ind));
    let vistas: Vec<usize> = chamadas.iter().map(|c| c.get()).collect();
    assert_eq!(vistas, vec![2, 2, 2, 0]);
}

#[test]
fn objetivo_misto_vazio_nunca_e_satisfeito() {
    let mut objetivo: ObjetivoMisto<usize> = ObjetivoMisto::criar();
    assert!(!objetivo.satisfeito_por(&Individuo { genes: 10, aptidao: 1 }));
}

#[test]
fn objetivo_misto_com_limite_e_intervalo() {
    let mut objetivo = ObjetivoMisto::criar();
    objetivo.adicionar(NumeroMaximoIteracoes::criar(3));
    objetivo.adicionar(ObjetivoIntervalo::criar(-1, 1));
    let fora = Individuo { genes: 0usize, aptidao: 5 };
    let dentro = Individuo { genes: 0usize, aptidao: 0 };
    assert!(!objetivo.satisfeito_por(&fora));
    assert!(objetivo.satisfeito_por(&dentro));
    assert!(!objetivo.satisfeito_por(&fora));
    // The limit has now seen three calls: the fourth satisfies it.
    assert!(objetivo.satisfeito_por(&fora));
    assert!(!objetivo.satisfeito_por(&fora));
}

#[test]
fn intervalo_e_aberto_dos_dois_lados() {
    let mut objetivo = ObjetivoIntervalo::criar(-2, 3);
    let respostas: Vec<bool> = (-3..5)
        .map(|a| objetivo.satisfeito_por(&Individuo { genes: 0usize, aptidao: a }))
        .collect();
    assert_eq!(
        respostas,
        vec![false, false, true, true, true, true, false, false]
    );
}
