use genetics::aleatorio::Aleatorio;
use genetics::aptidao::Aptidao;
use genetics::evolucao::cruzamento::Cruzador;
use genetics::evolucao::mutacao::Mutagenico;
use genetics::populacao::CriadorIndividuos;
use genetics::populacao::Operacao;
use genetics::problemas::configuracao::chance_de_percentual;
use genetics::problemas::configuracao::to_int;
use genetics::problemas::configuracao::Configuracao;
use genetics::problemas::multimodal;
use genetics::problemas::multimodal::MultimodalArranjo;
use genetics::problemas::multimodal::MultimodalBinario;
use genetics::problemas::rastrigin::cruza_bits;
use genetics::problemas::rastrigin::divide;
use genetics::problemas::rastrigin::trocar_bit;
use genetics::problemas::rastrigin::RastriginBinario;
use genetics::problemas::unimodal::UnimodalArranjoDois;
use genetics::problemas::unimodal::UnimodalArranjoUm;

fn configuracao(modificador: &str) -> Configuracao {
    Configuracao {
        funcao: "unimodal_arranjo_dois".to_string(),
        chance_mutacao: 10_000,
        chance_cruzamento: 90_000,
        modificador_cruzamento: modificador.to_string(),
        geracoes: 100,
        seletor: "torneio".to_string(),
        tamanho_populacao: 100,
        debug: 0,
        print_solution: false,
        elitismo: false,
    }
}

fn crescente() -> [i32; 30] {
    let mut a = [0i32; 30];
    for i in 0..30 {
        a[i] = i as i32;
    }
    a
}

#[test]
fn deve_mapear() {
    let vals = multimodal::map(&[
        true, true, true, true, true, true, true, true, true, true, false, false, false, false,
        false, false, false, false, false, false,
    ]);
    assert_eq!(500, vals[0]);
    assert_eq!(-500, vals[1]);
}

#[test]
fn mapear_arredonda_para_zero_e_ignora_sobras() {
    let mut bits = vec![false; 35];
    // 0b1000000000 = 512 -> -500 + 512000 / 1023 = 0.48...
    bits[0] = true;
    // 0b0111111111 = 511 -> -0.48...
    for i in 11..20 {
        bits[i] = true;
    }
    // 0b0000000001 = 1 -> -499.02...
    bits[29] = true;
    bits[30] = true;
    assert_eq!(multimodal::map(&bits), vec![0, 0, -499]);
    assert_eq!(multimodal::map(&bits[..9]), Vec::<i32>::new());
    // 0b1100000000 = 768 -> 250.73...
    let mut bits = vec![false; 10];
    bits[0] = true;
    bits[1] = true;
    assert_eq!(multimodal::map(&bits), vec![250]);
}

#[test]
fn mapear_segue_a_conta_em_ponto_flutuante() {
    for v in 0..1024u32 {
        let bits: Vec<bool> = (0..10).map(|i| (v >> (9 - i)) & 1 == 1).collect();
        let esperado = (-500.0 + (v as f64 / 1023.0) * 1000.0) as i32;
        assert_eq!(multimodal::map(&bits), vec![esperado]);
    }
}

#[test]
fn troca_bit() {
    let exemp: u32 = 0b10010010001001010100100_1_01110010;
    let esper: u32 = 0b10010010001001010100100_0_01110010;

    let retorno = trocar_bit(exemp, 8);
    println!(
        "Valores de teste:\n\tEntrada: {:b}\n\t  Saida: {:b}",
        exemp, retorno
    );

    assert_eq!(retorno, esper);
}

#[test]
fn troca_dos_bits_extremos() {
    assert_eq!(trocar_bit(0, 0), 1);
    assert_eq!(trocar_bit(0, 31), 0x8000_0000);
    assert_eq!(trocar_bit(u32::MAX, 31), 0x7fff_ffff);
}

#[test]
fn cruzamento_binario() {
    let cruz = RastriginBinario;

    let pri: u32 = 0b0101010101010111_0011011101010111; // x1_y1
    let seg: u32 = 0b1101010110011101_0001111101110011; // x2_y2

    let mut aleatorio = Aleatorio::viciado(500_000);
    let (a, b) = cruz.cruzar(&mut aleatorio, &pri, &seg);

    assert_eq!(a, 0b0101010101010111_0001111101110011); // x1_y2
    assert_eq!(b, 0b1101010110011101_0011011101010111); // x2_y1
}

#[test]
fn cruzamento_de_bits_nos_extremos() {
    assert_eq!(cruza_bits(0xAAAA_AAAA, 0x5555_5555, 0), (0xAAAA_AAAA, 0x5555_5555));
    assert_eq!(cruza_bits(0xAAAA_AAAA, 0x5555_5555, 31), (0x8000_0000 | 0x5555_5555, 0x2AAA_AAAA));
    let mut nunca = Aleatorio::viciado(0);
    assert_eq!(RastriginBinario.cruzar(&mut nunca, &7, &8), (7, 8));
    let mut quase = Aleatorio::viciado(999_999);
    assert_eq!(
        RastriginBinario.cruzar(&mut quase, &0xAAAA_AAAA, &0x5555_5555),
        (0x8000_0000 | 0x5555_5555, 0x2AAA_AAAA)
    );
}

#[test]
fn rastrigin_binario_cria_muta_e_divide() {
    let mut aleatorio = Aleatorio::criar();
    for _ in 0..50 {
        let genes = RastriginBinario.criar(&mut aleatorio);
        assert!(genes < u32::MAX);
        let mutante = RastriginBinario.mutar(&genes, &mut aleatorio);
        assert_eq!((mutante ^ genes).count_ones(), 1);
    }
    assert_eq!(divide(0x1234_ABCD), (0x1234, 0xABCD));
    assert_eq!(divide(0), (0, 0));
    assert_eq!(divide(u32::MAX), (u16::MAX, u16::MAX));
    assert_eq!(RastriginBinario.operacao(), Operacao::Max);
}

#[test]
fn operacoes_dos_problemas() {
    assert_eq!(MultimodalArranjo.operacao(), Operacao::Min);
    assert_eq!(MultimodalBinario.operacao(), Operacao::Min);
    assert_eq!(UnimodalArranjoUm.operacao(), Operacao::Min);
    assert_eq!(UnimodalArranjoDois::criar().operacao(), Operacao::Min);
}

#[test]
fn aptidao_unimodal_um() {
    assert_eq!(UnimodalArranjoUm.calcular_aptidao(&[0; 30]), 0);
    assert_eq!(UnimodalArranjoUm.calcular_aptidao(&[-3; 30]), 270);
    // 0^2 + 1^2 + ... + 29^2
    assert_eq!(UnimodalArranjoUm.calcular_aptidao(&crescente()), 8555);
    assert_eq!(UnimodalArranjoUm.calcular_aptidao(&[i32::MIN; 30]), i64::MAX);
    let mut um = [0i32; 30];
    um[29] = i32::MIN;
    assert_eq!(UnimodalArranjoUm.calcular_aptidao(&um), 1 << 62);
}

#[test]
fn aptidao_unimodal_dois_em_quartos() {
    let problema = UnimodalArranjoDois::criar();
    // Thirty times (0 + 0.5)^2 is 7.5, thirty quarters.
    assert_eq!(problema.calcular_aptidao(&[0; 30]), 30);
    // -1 + 0.5 squares to the same quarter.
    assert_eq!(problema.calcular_aptidao(&[-1; 30]), 30);
    assert_eq!(problema.calcular_aptidao(&[2; 30]), 30 * 25);
    let mut um = [0i32; 30];
    um[3] = -4;
    assert_eq!(problema.calcular_aptidao(&um), 29 + 49);
    assert_eq!(problema.calcular_aptidao(&[i32::MAX; 30]), i64::MAX);
    for v in [-100i32, -7, 0, 3, 99] {
        let exato = 30.0 * (v as f64 + 0.5).abs().powi(2);
        assert_eq!(problema.calcular_aptidao(&[v; 30]) as f64 / 4.0, exato);
    }
}

#[test]
fn cruzamento_de_arranjos_em_um_ponto() {
    let a = crescente();
    let b = [-1i32; 30];
    // A chance of 0.5 cuts thirty genes at fifteen.
    let mut meio = Aleatorio::viciado(500_000);
    let (f1, f2) = UnimodalArranjoUm.cruzar(&mut meio, &a, &b);
    for i in 0..30 {
        if i < 15 {
            assert_eq!((f1[i], f2[i]), (a[i], b[i]));
        } else {
            assert_eq!((f1[i], f2[i]), (b[i], a[i]));
        }
    }
    // 0.999999 * 30 rounds down to 29: the last gene always changes sides.
    let mut quase = Aleatorio::viciado(999_999);
    let (f1, f2) = MultimodalArranjo.cruzar(&mut quase, &a, &b);
    assert_eq!(f1[28], 28);
    assert_eq!(f1[29], -1);
    assert_eq!(f2[29], 29);
    let mut nada = Aleatorio::viciado(0);
    let (f1, f2) = UnimodalArranjoDois::criar().cruzar(&mut nada, &a, &b);
    assert_eq!(f1, b);
    assert_eq!(f2, a);
}

#[test]
fn cruzamento_em_dois_pontos_com_cortes_iguais_nao_troca_nada() {
    let a = crescente();
    let b = [-1i32; 30];
    let mut problema = UnimodalArranjoDois::criar();
    problema.processa(&configuracao("dois-pontos"));
    let mut meio = Aleatorio::viciado(500_000);
    let (f1, f2) = problema.cruzar(&mut meio, &a, &b);
    assert_eq!(f1, a);
    assert_eq!(f2, b);
    problema.processa(&configuracao("um-ponto"));
    let (f1, _) = problema.cruzar(&mut meio, &a, &b);
    assert_eq!(f1[14], 14);
    assert_eq!(f1[15], -1);
    problema.processa(&configuracao("um-ponto "));
    let (f1, _) = problema.cruzar(&mut meio, &a, &b);
    assert_eq!(f1, a);
}

#[test]
fn criadores_e_mutagenicos_respeitam_as_faixas() {
    let mut aleatorio = Aleatorio::criar();
    for _ in 0..30 {
        let genes = MultimodalArranjo.criar(&mut aleatorio);
        assert!(genes.iter().all(|g| -500 <= *g && *g < 500));
        let genes = UnimodalArranjoUm.criar(&mut aleatorio);
        assert!(genes.iter().all(|g| -100 <= *g && *g < 100));
        let genes = UnimodalArranjoDois::criar().criar(&mut aleatorio);
        assert!(genes.iter().all(|g| -100 <= *g && *g < 100));
        let dentro = UnimodalArranjoUm.mutar(&[5i32; 30], &mut aleatorio);
        assert_eq!(dentro.iter().filter(|g| **g != 5).count(), 1);
        let base = [1000i32; 30];
        for mutante in [
            MultimodalArranjo.mutar(&base, &mut aleatorio),
            UnimodalArranjoUm.mutar(&base, &mut aleatorio),
            UnimodalArranjoDois::criar().mutar(&base, &mut aleatorio),
        ] {
            let mudados: Vec<&i32> = mutante.iter().filter(|g| **g != 1000).collect();
            assert_eq!(mudados.len(), 1);
            assert!(-100 <= *mudados[0] && *mudados[0] < 100);
        }
    }
}

#[test]
fn multimodal_binario_cria_cruza_e_muta() {
    let mut sempre = Aleatorio::viciado(500_001);
    assert_eq!(MultimodalBinario.criar(&mut sempre), [true; 300]);
    let mut nunca = Aleatorio::viciado(500_000);
    assert_eq!(MultimodalBinario.criar(&mut nunca), [false; 300]);
    let (f1, f2) = MultimodalBinario.cruzar(&mut nunca, &[true; 300], &[false; 300]);
    for i in 0..300 {
        assert_eq!(f1[i], i < 150);
        assert_eq!(f2[i], i >= 150);
    }
    let mutante = MultimodalBinario.mutar(&[false; 300], &mut sempre);
    assert_eq!(mutante.iter().filter(|b| **b).count(), 1);
    let mutante = MultimodalBinario.mutar(&[true; 300], &mut nunca);
    assert_eq!(mutante.iter().filter(|b| !**b).count(), 1);
}

#[test]
fn chances_em_percentual() {
    assert_eq!(chance_de_percentual(0), 0);
    assert_eq!(chance_de_percentual(1), 10_000);
    assert_eq!(chance_de_percentual(9), 90_000);
    assert_eq!(chance_de_percentual(100), 1_000_000);
    assert_eq!(chance_de_percentual(usize::MAX), u64::MAX);
}

#[test]
fn texto_para_inteiro() {
    assert_eq!(to_int("100"), Some(100));
    assert_eq!(to_int("+0"), Some(0));
    assert_eq!(to_int(" 1"), None);
    assert_eq!(to_int("dez"), None);
    assert_eq!(to_int(""), None);
    assert_eq!(to_int("٣"), None);
}
