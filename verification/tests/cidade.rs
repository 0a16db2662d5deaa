use genetics::problemas::cidade::atualiza_demanda;
use genetics::problemas::cidade::interpreta_cidade;
use genetics::problemas::cidade::interpreta_demanda;
use genetics::problemas::cidade::le_inteiro;
use genetics::problemas::cidade::le_natural;
use genetics::problemas::cidade::ler_cidade;
use genetics::problemas::cidade::ler_linhas;
use genetics::problemas::cidade::AreaArquivo;
use genetics::problemas::cidade::Leitura;
use genetics::problemas::cidade::proximo_campo;
use genetics::problemas::cidade::Cidade;

fn tres_cidades() -> Vec<Cidade> {
    vec![
        Cidade { numero: 1, x: 0, y: 0, demanda: 1 },
        Cidade { numero: 3, x: 0, y: 0, demanda: 2 },
        Cidade { numero: 2, x: 0, y: 0, demanda: 3 },
    ]
}

fn natural(texto: &str) -> Option<usize> {
    le_natural(texto.as_bytes(), 0, texto.len())
}

fn inteiro(texto: &str) -> Option<i32> {
    le_inteiro(texto.as_bytes(), 0, texto.len())
}

#[test]
fn deve_atualizar_demanda() {
    let mut cidades = tres_cidades();
    atualiza_demanda(&mut cidades, &"2 30".into());
    assert_eq!(cidades[0].demanda, 1);
    assert_eq!(cidades[1].demanda, 32);
    assert_eq!(cidades[2].demanda, 3);
}

#[test]
fn deve_ler_cidade() {
    let cidade = ler_cidade(&"1 22 44".to_string()).unwrap();
    assert_eq!(cidade.numero, 1);
    assert_eq!(cidade.x, 22);
    assert_eq!(cidade.y, 44);
}

#[test]
fn cidade_com_espacos_sinais_e_campos_a_mais() {
    let cidade = ler_cidade(&" \t+7   -22\t+44  resto 9\r".to_string()).unwrap();
    assert_eq!(cidade.numero, 7);
    assert_eq!(cidade.x, -22);
    assert_eq!(cidade.y, 44);
    assert_eq!(cidade.demanda, 0);
}

#[test]
fn cidade_mal_escrita_nao_e_lida() {
    for linha in ["", "   ", "1 22", "1 22 x", "-1 22 44", "1 2.5 44", "a 22 44", "1 22 4x 4"] {
        assert!(ler_cidade(&linha.to_string()).is_none(), "{:?}", linha);
    }
    assert!(interpreta_cidade("1 2147483648 0".as_bytes()).is_none());
    assert!(interpreta_cidade("1 -2147483649 0".as_bytes()).is_none());
    let limites = interpreta_cidade("0 2147483647 -2147483648".as_bytes()).unwrap();
    assert_eq!(limites.x, i32::MAX);
    assert_eq!(limites.y, i32::MIN);
}

#[test]
fn numeros_naturais() {
    assert_eq!(natural("0"), Some(0));
    assert_eq!(natural("007"), Some(7));
    assert_eq!(natural("+15"), Some(15));
    assert_eq!(natural(&usize::MAX.to_string()), Some(usize::MAX));
    assert_eq!(natural("340282366920938463463374607431768211456"), None);
    assert_eq!(natural(&format!("{}0", usize::MAX)), None);
    assert_eq!(natural(""), None);
    assert_eq!(natural("+"), None);
    assert_eq!(natural("-3"), None);
    assert_eq!(natural("1 "), None);
    assert_eq!(natural("12a"), None);
    assert_eq!(natural("++1"), None);
}

#[test]
fn numeros_inteiros() {
    assert_eq!(inteiro("0"), Some(0));
    assert_eq!(inteiro("-0"), Some(0));
    assert_eq!(inteiro("-12"), Some(-12));
    assert_eq!(inteiro("+12"), Some(12));
    assert_eq!(inteiro("2147483647"), Some(i32::MAX));
    assert_eq!(inteiro("-2147483648"), Some(i32::MIN));
    assert_eq!(inteiro("2147483648"), None);
    assert_eq!(inteiro("-"), None);
    assert_eq!(inteiro("+-1"), None);
    assert_eq!(inteiro("1-"), None);
}

#[test]
fn campos_de_uma_linha() {
    let linha = "  ab\tcde  f ".as_bytes();
    assert_eq!(proximo_campo(linha, 0), (2, 4));
    assert_eq!(proximo_campo(linha, 4), (5, 8));
    assert_eq!(proximo_campo(linha, 8), (10, 11));
    assert_eq!(proximo_campo(linha, 11), (12, 12));
    assert_eq!(proximo_campo(linha, 3), (3, 4));
}

#[test]
fn demanda_que_nao_cabe_fica_de_fora() {
    let mut cidades = tres_cidades();
    assert!(atualiza_demanda(&mut cidades, &" 3 -5 ".to_string()));
    assert_eq!(cidades[2].demanda, -2);

    for linha in ["0 5", "4 5", "x 5", "1", "1 y", "", "1 2147483647"] {
        let mut cidades = tres_cidades();
        assert!(!atualiza_demanda(&mut cidades, &linha.to_string()), "{:?}", linha);
        assert_eq!(cidades[0].demanda, 1);
        assert_eq!(cidades[1].demanda, 2);
        assert_eq!(cidades[2].demanda, 3);
    }
    assert_eq!(interpreta_demanda("12 -7 x".as_bytes()), Some((12, -7)));
    assert_eq!(interpreta_demanda("12".as_bytes()), None);
}

fn linhas(texto: &str) -> Vec<String> {
    texto.lines().map(|l| l.to_string()).collect()
}

const DESCRICAO: &str = "NAME : pequeno
COMMENT : tres cidades
DIMENSION : 3
NODE_COORD_SECTION
 1 82 76
 2 96 44
 3 50 5
DEMAND_SECTION
1 0
2 19
3 21
2 1
DEPOT_SECTION
 2
 -1
EOF
4 1 1
lixo depois do fim";

#[test]
fn descricao_de_um_problema() {
    let problema = ler_linhas(&linhas(DESCRICAO)).unwrap();
    assert_eq!(problema.qtd_caminhoes, 5);
    assert_eq!(problema.indice_deposito, 1);
    let cidades: Vec<(usize, i32, i32, i32)> =
        problema.cidades.iter().map(|c| (c.numero, c.x, c.y, c.demanda)).collect();
    assert_eq!(cidades, vec![(1, 82, 76, 0), (2, 96, 44, 20), (3, 50, 5, 21)]);
}

#[test]
fn descricao_sem_deposito_nao_e_problema() {
    assert!(ler_linhas(&linhas("NODE_COORD_SECTION\n1 2 3\nEOF")).is_none());
    assert!(ler_linhas(&linhas("")).is_none());
    assert!(ler_linhas(&linhas("DEPOT_SECTION\n0\n-1\nEOF")).is_none());
    let so_deposito = ler_linhas(&linhas("DEPOT_SECTION\n7\n-1")).unwrap();
    assert_eq!(so_deposito.indice_deposito, 6);
    assert_eq!(so_deposito.cidades.len(), 0);
}

#[test]
fn descricao_com_linha_errada_nao_e_problema() {
    let boa = "NODE_COORD_SECTION\n1 2 3\nDEMAND_SECTION\n1 5\nDEPOT_SECTION\n1\n-1\nEOF";
    assert!(ler_linhas(&linhas(boa)).is_some());
    for (certa, errada) in [
        ("1 2 3", "1 2"),
        ("1 2 3", ""),
        ("1 5", "2 5"),
        ("1 5", "1"),
        ("1 5", "1 2147483648"),
        ("\n1\n", "\n1 1\n"),
        ("\n1\n", "\n\n"),
        ("\n1\n", "\n+\n"),
        ("\n1\n", "\n-2\n"),
    ] {
        let ruim = boa.replacen(certa, errada, 1);
        assert!(ler_linhas(&linhas(&ruim)).is_none(), "{:?}", ruim);
    }
    // A word of its own on a line is a word, whatever stands around it.
    let espacada = boa.replace("DEMAND_SECTION", " \tDEMAND_SECTION  ");
    assert!(ler_linhas(&linhas(&espacada)).is_some());
    // With more on the line it is none, and no location either.
    let cheia = boa.replace("DEMAND_SECTION", "DEMAND_SECTION :");
    assert!(ler_linhas(&linhas(&cheia)).is_none());
}

#[test]
fn leitura_linha_a_linha() {
    let mut leitura = Leitura::criar();
    assert_eq!(leitura.area, AreaArquivo::InicioLeitura);
    assert!(leitura.le_linha("qualquer coisa".as_bytes()));
    assert!(leitura.le_linha("DEPOT_SECTION".as_bytes()));
    assert_eq!(leitura.area, AreaArquivo::PosicaoCidadeDeposito);
    assert!(leitura.le_linha("12".as_bytes()));
    assert_eq!(leitura.indice_deposito, 12);
    assert!(leitura.le_linha(" -1 ".as_bytes()));
    assert_eq!(leitura.indice_deposito, 12);
    assert!(!leitura.le_linha("doze".as_bytes()));
    assert!(leitura.le_linha("NODE_COORD_SECTION".as_bytes()));
    assert_eq!(leitura.area, AreaArquivo::PosicaoCidade);
    assert!(leitura.le_linha("5 -1 -2 resto".as_bytes()));
    assert_eq!(leitura.cidades.len(), 1);
    assert!(leitura.le_linha("DEMAND_SECTION".as_bytes()));
    assert_eq!(leitura.area, AreaArquivo::DemandaCidade);
    assert!(leitura.le_linha("1 -9".as_bytes()));
    assert_eq!(leitura.cidades[0].demanda, -9);
    assert!(!leitura.terminada);
    assert!(leitura.le_linha("EOF".as_bytes()));
    assert!(leitura.terminada);
    assert!(leitura.le_linha("9 9".as_bytes()));
    assert_eq!(leitura.cidades[0].demanda, -9);
    assert_eq!(leitura.area, AreaArquivo::DemandaCidade);
}
