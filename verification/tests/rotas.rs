use genetics::aleatorio::Aleatorio;
use genetics::evolucao::cruzamento::Cruzador;
use genetics::populacao::CriadorIndividuos;
use genetics::problemas::cidade::Cidade;
use genetics::problemas::cidade::Problema;
use genetics::problemas::rotas::conta_ate_dois;
use genetics::problemas::rotas::corrige_rota_duplicada;
use genetics::problemas::rotas::troca_trecho;
use genetics::problemas::rotas::valida;
use genetics::problemas::rotas::CriadorRotas;
use genetics::problemas::rotas::CruzadorRotas;
use genetics::problemas::rotas::Rota;
use std::rc::Rc;

fn problema(qtd_cidades: usize, qtd_caminhoes: usize) -> Rc<Problema> {
    let cidades = (0..qtd_cidades)
        .map(|i| Cidade { numero: i, x: i as i32, y: 0, demanda: 0 })
        .collect();
    Rc::new(Problema { indice_deposito: 0, qtd_caminhoes, cidades })
}

fn rotas(cidades: &[&[usize]]) -> Vec<Rota> {
    cidades
        .iter()
        .map(|c| Rota { alterada: false, cidades: c.to_vec() })
        .collect()
}

fn cidades_de(rotas: &Vec<Rota>) -> Vec<Vec<usize>> {
    rotas.iter().map(|r| r.cidades.clone()).collect()
}

fn visitas(rotas: &Vec<Rota>) -> Vec<usize> {
    let mut todas: Vec<usize> = rotas.iter().flat_map(|r| r.cidades.iter().cloned()).collect();
    todas.sort();
    todas
}

#[test]
fn deve_criar_cidades() {
    // Five vehicles and ten locations.
    let problema = Problema {
        indice_deposito: 0,
        qtd_caminhoes: 5,
        cidades: vec![
            Cidade { numero: 0, x: 15, y: 17, demanda: 0 },
            Cidade { numero: 1, x: 14, y: 9, demanda: 0 },
            Cidade { numero: 2, x: 11, y: 13, demanda: 0 },
            Cidade { numero: 3, x: 16, y: 18, demanda: 0 },
            Cidade { numero: 4, x: 1, y: 12, demanda: 0 },
            Cidade { numero: 5, x: 13, y: 19, demanda: 0 },
            Cidade { numero: 6, x: 4, y: 20, demanda: 0 },
            Cidade { numero: 7, x: 17, y: 2, demanda: 0 },
            Cidade { numero: 8, x: 12, y: 6, demanda: 0 },
            Cidade { numero: 9, x: 14, y: 8, demanda: 0 },
        ],
    };

    let mut aleatorio = Aleatorio::criar();
    let criador_rotas = CriadorRotas { problema: Rc::new(problema) };
    let possivel_rota = criador_rotas.criar(&mut aleatorio);

    println!("Rota criada");
    for rota_caminhao in possivel_rota.iter() {
        for idx_cidade in rota_caminhao.cidades.iter() {
            println!("\t{}", idx_cidade);
        }
        println!("");
    }

    assert_eq!(possivel_rota.len(), 5);
    for rota_caminhao in possivel_rota {
        assert_eq!(rota_caminhao.cidades.len(), 2);
    }
}

#[test]
fn criador_visita_cada_cidade_uma_vez() {
    let mut aleatorio = Aleatorio::criar();
    for (qtd_cidades, qtd_caminhoes) in [(32, 5), (3, 5), (0, 2), (7, 1), (10, 3)] {
        let criador = CriadorRotas { problema: problema(qtd_cidades, qtd_caminhoes) };
        let criadas = criador.criar(&mut aleatorio);
        assert_eq!(criadas.len(), qtd_caminhoes);
        assert_eq!(visitas(&criadas), (0..qtd_cidades).collect::<Vec<usize>>());
        let por_caminhao = (qtd_cidades + qtd_caminhoes - 1) / qtd_caminhoes;
        for rota in criadas.iter() {
            assert!(rota.alterada);
            assert!(rota.cidades.len() <= por_caminhao);
        }
    }
    let sem_caminhoes = CriadorRotas { problema: problema(4, 0) };
    assert_eq!(sem_caminhoes.criar(&mut aleatorio).len(), 0);
}

#[test]
fn troca_de_trecho() {
    let primeiro = rotas(&[&[1, 3, 9], &[2, 4, 6], &[5, 7, 8]]);
    let segundo = rotas(&[&[2, 4, 6], &[8, 5, 7], &[1, 3, 9, 0]]);
    let (f1, f2) = troca_trecho(&primeiro, &segundo, 2, 2);
    assert_eq!(cidades_de(&f1), vec![vec![1, 3, 9], vec![2, 4, 6], vec![5, 7, 9, 0]]);
    assert_eq!(cidades_de(&f2), vec![vec![2, 4, 6], vec![8, 5, 7], vec![1, 3, 8]]);
    let alteradas: Vec<bool> = f1.iter().map(|r| r.alterada).collect();
    assert_eq!(alteradas, vec![false, false, true]);
}

#[test]
fn contagem_de_visitas() {
    let r = rotas(&[&[1, 3, 1], &[], &[1, 4]]);
    assert_eq!(conta_ate_dois(&r, 0, 0, 1), 2);
    assert_eq!(conta_ate_dois(&r, 0, 1, 1), 2);
    assert_eq!(conta_ate_dois(&r, 0, 3, 1), 1);
    assert_eq!(conta_ate_dois(&r, 2, 1, 1), 0);
    assert_eq!(conta_ate_dois(&r, 0, 0, 4), 1);
    assert_eq!(conta_ate_dois(&r, 0, 0, 7), 0);
    assert_eq!(conta_ate_dois(&r, 3, 0, 1), 0);
}

#[test]
fn correcao_move_as_visitas_repetidas() {
    for _ in 0..50 {
        let mut primeiro = rotas(&[&[1, 3, 9], &[2, 4, 6], &[5, 7, 9], &[3]]);
        let mut segundo = rotas(&[&[2, 4, 6], &[], &[1, 8]]);
        let mut aleatorio = Aleatorio::criar();
        assert!(corrige_rota_duplicada(&mut primeiro, &mut segundo, &mut aleatorio));
        assert_eq!(visitas(&primeiro), vec![1, 2, 3, 4, 5, 6, 7, 9]);
        assert_eq!(visitas(&segundo), vec![1, 2, 3, 4, 6, 8, 9]);
        assert_eq!(primeiro.len(), 4);
        assert_eq!(segundo.len(), 3);
        // What stays keeps its order.
        assert_eq!(primeiro[1].cidades, vec![2, 4, 6]);
        assert!(!primeiro[1].alterada);
        for (rota, antes) in segundo.iter().zip([3usize, 0, 2]) {
            assert_eq!(rota.alterada, rota.cidades.len() != antes);
        }
    }
}

#[test]
fn correcao_de_rotas_sem_repeticao_nao_muda_nada() {
    let mut primeiro = rotas(&[&[1, 3, 9], &[], &[5, 7]]);
    let mut segundo = rotas(&[&[1, 3]]);
    let mut aleatorio = Aleatorio::criar();
    assert!(!corrige_rota_duplicada(&mut primeiro, &mut segundo, &mut aleatorio));
    assert_eq!(cidades_de(&primeiro), vec![vec![1, 3, 9], vec![], vec![5, 7]]);
    assert_eq!(cidades_de(&segundo), vec![vec![1, 3]]);
    assert!(primeiro.iter().all(|r| !r.alterada));
    assert!(segundo.iter().all(|r| !r.alterada));
}

#[test]
fn moeda_viciada_decide_qual_visita_fica() {
    // A chance above a half keeps the later visit of the two.
    let mut primeiro = rotas(&[&[4, 1], &[1, 5]]);
    let mut segundo = rotas(&[&[]]);
    let mut aleatorio = Aleatorio::viciado(900_000);
    assert!(corrige_rota_duplicada(&mut primeiro, &mut segundo, &mut aleatorio));
    assert_eq!(cidades_de(&primeiro), vec![vec![4], vec![1, 5]]);
    assert_eq!(cidades_de(&segundo), vec![vec![1]]);

    let mut primeiro = rotas(&[&[4, 1], &[1, 5]]);
    let mut segundo = rotas(&[&[]]);
    let mut aleatorio = Aleatorio::viciado(100_000);
    assert!(corrige_rota_duplicada(&mut primeiro, &mut segundo, &mut aleatorio));
    assert_eq!(cidades_de(&primeiro), vec![vec![4, 1], vec![5]]);
    assert_eq!(cidades_de(&segundo), vec![vec![1]]);
}

#[test]
fn filhos_de_rotas_validas_sao_validos() {
    let mut aleatorio = Aleatorio::criar();
    for (qtd_cidades, qtd_caminhoes) in [(32, 5), (10, 3), (6, 6), (4, 1), (9, 2)] {
        let p = problema(qtd_cidades, qtd_caminhoes);
        let criador = CriadorRotas { problema: p.clone() };
        let cruzador = CruzadorRotas { problema: p.clone() };
        for _ in 0..40 {
            let primeiro = criador.criar(&mut aleatorio);
            let segundo = criador.criar(&mut aleatorio);
            let (f1, f2) = cruzador.cruzar(&mut aleatorio, &primeiro, &segundo);
            let todas: Vec<usize> = (0..qtd_cidades).collect();
            assert_eq!(f1.len(), qtd_caminhoes);
            assert_eq!(f2.len(), qtd_caminhoes);
            assert_eq!(visitas(&f1), todas);
            assert_eq!(visitas(&f2), todas);
        }
    }
}

#[test]
fn cruzamento_sem_rotas_devolve_copias() {
    let cruzador = CruzadorRotas { problema: problema(3, 1) };
    let mut aleatorio = Aleatorio::criar();
    let vazio: Vec<Rota> = Vec::new();
    let outro = rotas(&[&[0, 1, 2]]);
    let (f1, f2) = cruzador.cruzar(&mut aleatorio, &vazio, &outro);
    assert_eq!(f1.len(), 0);
    assert_eq!(cidades_de(&f2), vec![vec![0, 1, 2]]);
    let (f1, f2) = cruzador.cruzar(&mut aleatorio, &rotas(&[&[0], &[1, 2]]), &outro);
    assert_eq!(cidades_de(&f1), vec![vec![0], vec![1, 2]]);
    assert_eq!(cidades_de(&f2), vec![vec![0, 1, 2]]);
    // One of the routes drawn is empty.
    let (f1, f2) = cruzador.cruzar(&mut aleatorio, &rotas(&[&[]]), &outro);
    assert_eq!(cidades_de(&f1), vec![Vec::<usize>::new()]);
    assert_eq!(cidades_de(&f2), vec![vec![0, 1, 2]]);
    assert!(!f2[0].alterada);
}

#[test]
fn validade_de_rotas() {
    assert!(valida(&rotas(&[&[2, 0], &[], &[1]]), 3));
    assert!(valida(&rotas(&[]), 0));
    assert!(valida(&rotas(&[&[], &[]]), 0));
    assert!(!valida(&rotas(&[&[2, 0], &[], &[1]]), 4));
    assert!(!valida(&rotas(&[&[2, 0], &[], &[1]]), 2));
    assert!(!valida(&rotas(&[&[2, 0], &[0], &[1]]), 3));
    assert!(!valida(&rotas(&[&[2, 0, 1, 2]]), 3));
    assert!(!valida(&rotas(&[]), 1));
}

#[test]
fn correcao_sem_repeticao_nao_precisa_de_rotas_no_outro() {
    let mut primeiro = rotas(&[&[1, 3], &[2]]);
    let mut segundo: Vec<Rota> = Vec::new();
    let mut aleatorio = Aleatorio::criar();
    assert!(!corrige_rota_duplicada(&mut primeiro, &mut segundo, &mut aleatorio));
    assert_eq!(cidades_de(&primeiro), vec![vec![1, 3], vec![2]]);
    assert_eq!(segundo.len(), 0);
}

#[test]
fn pais_com_uma_rota_vazia_voltam_como_sao() {
    let cruzador = CruzadorRotas { problema: problema(0, 1) };
    let mut aleatorio = Aleatorio::criar();
    let pai = rotas(&[&[]]);
    let (f1, f2) = cruzador.cruzar(&mut aleatorio, &pai, &pai);
    for filho in [f1, f2] {
        assert_eq!(filho.len(), 1);
        assert_eq!(filho[0].cidades.len(), 0);
        assert!(!filho[0].alterada);
    }
}
