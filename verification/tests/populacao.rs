use genetics::aptidao::AptidaoSimples;
use genetics::populacao::cria_populacao;
use genetics::populacao::CriadorIndividuos;
use genetics::populacao::Individuo;
use genetics::populacao::Operacao;
use genetics::populacao::Populacao;
use genetics::aleatorio::Aleatorio;
use std::cmp::Ordering;

fn valida_individuo_mais_apto(op: Operacao, valores: Vec<usize>, esperado: usize) {
    let mut pop = cria_populacao(&valores, op);

    let mais_apto = pop.remover_mais_apto();
    assert_eq!(esperado, mais_apto.genes);
}

fn valida_mais_apto(oper: Operacao, entrada: Vec<usize>, qtd: usize, saida: Vec<usize>) {
    let mut pop = cria_populacao(&entrada, oper);
    pop.manter_mais_aptos(qtd);
    assert_eq!(pop.individuos.len(), qtd);
    for (idx, val) in pop.individuos.iter().enumerate() {
        assert_eq!(val.genes, saida[idx]);
    }
}

fn genes_de(pop: &Populacao<usize>) -> Vec<usize> {
    pop.individuos.iter().map(|i| i.genes).collect()
}

#[test]
fn deve_pegar_aptidao_media() {
    let populacao = cria_populacao(&vec![0, 1, 2, 3, 4], Operacao::Max);
    assert_eq!(populacao.aptidao_media(), 2);
}

#[test]
fn deve_achar_melhor_aptidao() {
    let aptidoes = vec![0, 1, 2, 3, 4];
    assert_eq!(4, cria_populacao(&aptidoes, Operacao::Max).melhor_aptidao());
    assert_eq!(0, cria_populacao(&aptidoes, Operacao::Min).melhor_aptidao());
}

#[test]
fn deve_achar_pior_aptidao() {
    let aptidoes = vec![0, 1, 2, 3, 4];
    assert_eq!(0, cria_populacao(&aptidoes, Operacao::Max).pior_aptidao());
    assert_eq!(4, cria_populacao(&aptidoes, Operacao::Min).pior_aptidao());
}

#[test]
fn deve_encontrar_o_individuo_mais_apto() {
    valida_individuo_mais_apto(Operacao::Max, vec![1, 2, 3, 4], 4);
    valida_individuo_mais_apto(Operacao::Min, vec![1, 2, 3, 4], 1);
}

#[test]
fn deve_mandater_individuos_mais_aptos() {
    valida_mais_apto(Operacao::Max, vec![1, 2, 3, 4], 2, vec![4, 3]);
    valida_mais_apto(Operacao::Min, vec![1, 2, 3, 4], 2, vec![1, 2]);
}

#[test]
fn deve_comparar_correto() {
    assert_eq!(Operacao::Max.compara(&10, &8), Ordering::Greater);
    assert_eq!(Operacao::Max.compara(&8, &10), Ordering::Less);

    assert_eq!(Operacao::Min.compara(&10, &8), Ordering::Less);
    assert_eq!(Operacao::Min.compara(&8, &10), Ordering::Greater);
}

#[test]
fn comparacao_de_iguais() {
    assert_eq!(Operacao::Max.compara(&7, &7), Ordering::Equal);
    assert_eq!(Operacao::Min.compara(&-3, &-3), Ordering::Equal);
    assert!(!Operacao::Max.vence(7, 7));
    assert!(Operacao::Min.vence(-4, -3));
}

#[test]
fn maximizar_e_o_inverso_de_minimizar() {
    let valores = [i64::MIN, -5, 0, 1, 1, 9, i64::MAX];
    for a in valores.iter() {
        for b in valores.iter() {
            assert_eq!(
                Operacao::Max.compara(a, b),
                Operacao::Min.compara(a, b).reverse()
            );
        }
    }
}

#[test]
fn mais_apto_e_menos_apto() {
    assert_eq!(Operacao::Max.mais_apto(3, 8), 8);
    assert_eq!(Operacao::Max.menos_apto(3, 8), 3);
    assert_eq!(Operacao::Min.mais_apto(3, 8), 3);
    assert_eq!(Operacao::Min.menos_apto(3, 8), 8);
    assert_eq!(Operacao::Min.mais_apto(-2, -2), -2);
}

#[test]
fn empate_fica_com_o_primeiro() {
    // Genomes beyond i64::MAX all score i64::MAX, so they tie.
    let grande = usize::MAX;
    let mut pop = cria_populacao(&vec![3, grande - 1, grande, 7], Operacao::Max);
    let mais_apto = pop.remover_mais_apto();
    assert_eq!(mais_apto.genes, grande - 1);
    assert_eq!(mais_apto.aptidao, i64::MAX);
    assert_eq!(genes_de(&pop), vec![3, grande, 7]);
}

#[test]
fn extrair_e_reinserir_conserva_os_individuos() {
    let entrada = vec![5, 9, 2, 9, 1];
    let mut pop = cria_populacao(&entrada, Operacao::Max);
    let mais_apto = pop.remover_mais_apto();
    assert_eq!(mais_apto.genes, 9);
    assert_eq!(genes_de(&pop), vec![5, 2, 9, 1]);
    pop.reiterar(mais_apto);
    let mut depois = genes_de(&pop);
    assert_eq!(depois, vec![5, 2, 9, 1, 9]);
    depois.sort();
    let mut antes = entrada.clone();
    antes.sort();
    assert_eq!(antes, depois);
}

#[test]
fn truncamento_e_estavel_e_guarda_os_melhores() {
    let grande = usize::MAX;
    // The three genomes beyond i64::MAX tie and keep their order.
    let entrada = vec![1, grande, 4, grande - 2, 4, grande - 1, 0];
    let mut pop = cria_populacao(&entrada, Operacao::Max);
    pop.manter_mais_aptos(4);
    assert_eq!(genes_de(&pop), vec![grande, grande - 2, grande - 1, 4]);

    let mut pop = cria_populacao(&entrada, Operacao::Min);
    pop.manter_mais_aptos(5);
    assert_eq!(genes_de(&pop), vec![0, 1, 4, 4, grande]);
}

#[test]
fn truncamento_com_alvo_maior_que_a_populacao() {
    let mut pop = cria_populacao(&vec![2, 3, 1], Operacao::Max);
    pop.manter_mais_aptos(10);
    assert_eq!(genes_de(&pop), vec![3, 2, 1]);
    pop.manter_mais_aptos(0);
    assert_eq!(pop.individuos.len(), 0);
}

#[test]
fn truncamento_nao_deixa_ninguem_melhor_de_fora() {
    let entrada = vec![8, 1, 6, 3, 9, 2, 7, 7, 0];
    for k in 0..=entrada.len() {
        let mut pop = cria_populacao(&entrada, Operacao::Max);
        pop.manter_mais_aptos(k);
        assert_eq!(pop.individuos.len(), k);
        let mantidos = genes_de(&pop);
        let mut todos = entrada.clone();
        todos.sort();
        todos.reverse();
        assert_eq!(mantidos, todos[..k].to_vec());
    }
}

struct Contador;

impl CriadorIndividuos<usize> for Contador {
    fn criar(&self, aleatorio: &mut Aleatorio) -> usize {
        aleatorio.intervalo(10, 20)
    }
}

#[test]
fn criar_populacao_com_criador() {
    let pop = Populacao::criar(AptidaoSimples, &Contador, 25, Operacao::Min);
    assert_eq!(pop.individuos.len(), 25);
    for ind in pop.individuos.iter() {
        assert!(ind.genes >= 10 && ind.genes < 20);
        assert_eq!(ind.aptidao, ind.genes as i64);
    }
}

#[test]
fn nova_geracao_compartilha_a_avaliacao() {
    let pop = cria_populacao(&vec![1, 2], Operacao::Min);
    let mut nova = pop.preparar_nova_geracao();
    assert_eq!(nova.individuos.len(), 0);
    nova.adicionar(41);
    assert_eq!(nova.individuos[0].aptidao, 41);
    assert_eq!(nova.melhor_aptidao(), 41);
    let mut outra = pop.preparar_nova_geracao();
    outra.adicionar(5);
    nova.reter(outra);
    assert_eq!(genes_de(&nova), vec![41, 5]);
    // Minimising: the smaller fitness is the better one.
    assert_eq!(nova.melhor_aptidao(), 5);
    assert_eq!(nova.pior_aptidao(), 41);
}

#[test]
fn media_arredonda_para_zero() {
    let mut pop: Populacao<usize> = Populacao::criar_vazia(AptidaoSimples, Operacao::Max);
    pop.reiterar(Individuo { genes: 0, aptidao: -7 });
    pop.reiterar(Individuo { genes: 0, aptidao: 2 });
    // -5 / 2 rounds to -2, towards zero.
    assert_eq!(pop.aptidao_media(), -2);
    pop.reiterar(Individuo { genes: 0, aptidao: i64::MAX });
    pop.reiterar(Individuo { genes: 0, aptidao: i64::MAX });
    assert_eq!(pop.aptidao_media(), ((i64::MAX as i128 * 2 - 5) / 4) as i64);
}

#[test]
fn dispersao_das_aptidoes() {
    // Distances from the mean 2: 4 + 1 + 0 + 1 + 4 = 10, by 4, is 2.5.
    let pop = cria_populacao(&vec![0, 1, 2, 3, 4], Operacao::Max);
    assert_eq!(pop.desvio_aptidao(), Some(2));
    assert_eq!(cria_populacao(&vec![1, 2], Operacao::Max).desvio_aptidao(), Some(0));
    assert_eq!(cria_populacao(&vec![0, 10], Operacao::Min).desvio_aptidao(), Some(50));
    assert_eq!(cria_populacao(&vec![7, 7, 7], Operacao::Min).desvio_aptidao(), Some(0));
    let mut pop: Populacao<usize> = Populacao::criar_vazia(AptidaoSimples, Operacao::Max);
    pop.reiterar(Individuo { genes: 0, aptidao: -3 });
    pop.reiterar(Individuo { genes: 0, aptidao: 3 });
    pop.reiterar(Individuo { genes: 0, aptidao: 0 });
    assert_eq!(pop.desvio_aptidao(), Some(9));
    for (a, b) in [(0i64, 1i64), (-1_000_000, 1_000_000), (5, 6), (-40, 17)] {
        let mut pop: Populacao<usize> = Populacao::criar_vazia(AptidaoSimples, Operacao::Max);
        pop.reiterar(Individuo { genes: 0, aptidao: a });
        pop.reiterar(Individuo { genes: 0, aptidao: b });
        pop.reiterar(Individuo { genes: 0, aptidao: a + b });
        let media = (2 * (a + b)) as f64 / 3.0;
        let exato: f64 = [a, b, a + b].iter().map(|f| (*f as f64 - media).powi(2)).sum::<f64>() / 2.0;
        assert_eq!(pop.desvio_aptidao(), Some(exato.trunc() as i128));
    }
    // Beyond what can be counted.
    let grande = cria_populacao(&vec![usize::MAX, usize::MAX], Operacao::Max);
    assert_eq!(grande.desvio_aptidao(), None);
    let mut limite: Populacao<usize> = Populacao::criar_vazia(AptidaoSimples, Operacao::Max);
    limite.reiterar(Individuo { genes: 0, aptidao: 1 << 62 });
    limite.reiterar(Individuo { genes: 0, aptidao: -(1 << 62) });
    // Two squares of 2^124, taken twice, are 2^126; the sum is zero.
    assert_eq!(limite.desvio_aptidao(), Some(1 << 125));
}
