use genetics::aleatorio::Aleatorio;
use genetics::aptidao::Aptidao;
use genetics::evolucao::cruzamento::Cruzador;
use genetics::evolucao::mutacao::Mutagenico;
use genetics::populacao::Operacao;
use genetics::populacao::Populacao;
use genetics::problemas::oito_rainhas;
use genetics::problemas::oito_rainhas::AptidaoOitoRainhas;
use genetics::problemas::oito_rainhas::PosicoesRainhas;
use genetics::problemas::tarefas;
use genetics::problemas::tarefas::criar_tempos_aleatorios;
use genetics::problemas::tarefas::AptidaoTarefasMaquinas;

fn valida(posicoes: [usize; 8], qtd: usize) {
    let apt = AptidaoOitoRainhas;
    let ameacas = apt.calcular_aptidao(&posicoes);

    assert_eq!(-(qtd as isize), ameacas as isize);
}

#[test]
fn deve_calcular_aptidao() {
    valida([1, 1, 1, 1, 1, 1, 1, 1], 28);
    valida([0, 0, 3, 1, 5, 2, 1, 6], 5);
    valida([1, 3, 5, 7, 2, 0, 6, 4], 0);
}

#[test]
fn rainhas_nas_diagonais() {
    valida([0, 1, 2, 3, 4, 5, 6, 7], 28);
    valida([7, 6, 5, 4, 3, 2, 1, 0], 28);
    // Rows far apart: nobody threatens anybody.
    valida([0, 100, 200, 300, 400, 500, 600, 700], 0);
    valida([usize::MAX, 0, usize::MAX - 2, 9, 20, 31, 42, 53], 1);
}

#[test]
fn rainhas_mutam_e_cruzam() {
    let mut aleatorio = Aleatorio::criar();
    let base = [9usize; 8];
    for _ in 0..40 {
        let mutante = PosicoesRainhas.mutar(&base, &mut aleatorio);
        let mudados: Vec<&usize> = mutante.iter().filter(|g| **g != 9).collect();
        assert_eq!(mudados.len(), 1);
        assert!(*mudados[0] < 8);
    }
    for _ in 0..40 {
        let mutante = PosicoesRainhas.mutar(&[3; 8], &mut aleatorio);
        let mudados: Vec<&usize> = mutante.iter().filter(|g| **g != 3).collect();
        assert_eq!(mudados.len(), 1);
        assert!(*mudados[0] < 8);
    }
    let mut meio = Aleatorio::viciado(500_000);
    let (a, b) = PosicoesRainhas.cruzar(&mut meio, &[1; 8], &[2; 8]);
    assert_eq!(a, [1, 1, 1, 1, 2, 2, 2, 2]);
    assert_eq!(b, [2, 2, 2, 2, 1, 1, 1, 1]);
}

#[test]
fn tabuleiros_aleatorios() {
    let mut pop = Populacao::criar_vazia(AptidaoOitoRainhas, Operacao::Max);
    pop.adicionar([1, 3, 5, 7, 2, 0, 6, 4]);
    oito_rainhas::preencher_com_posicoes_aleatorias(&mut pop, 60);
    assert_eq!(pop.individuos.len(), 61);
    assert_eq!(pop.individuos[0].genes, [1, 3, 5, 7, 2, 0, 6, 4]);
    for ind in pop.individuos.iter().skip(1) {
        assert!(ind.genes.iter().all(|linha| *linha < 7));
        assert_eq!(ind.aptidao, AptidaoOitoRainhas.calcular_aptidao(&ind.genes));
        assert!(ind.aptidao <= 0);
    }
    assert_eq!(pop.melhor_aptidao(), 0);
}

#[test]
fn main_deve_calcular_aptidao() {
    let aptidao = AptidaoTarefasMaquinas { qtd_maquinas: 5, tempo_task: vec![1, 1, 1, 1, 1] };
    let tempo = aptidao.calcular_aptidao(&vec![0, 1, 2, 3, 4]);
    assert_eq!(tempo as isize, -1);

    let tempo = aptidao.calcular_aptidao(&vec![0, 0, 0, 0, 0]);
    assert_eq!(tempo as isize, -5);

    let tempo = aptidao.calcular_aptidao(&vec![0, 0, 0, 1, 1]);
    assert_eq!(tempo as isize, -3);
}

#[test]
fn tarefas_com_tempos_diferentes() {
    let aptidao = AptidaoTarefasMaquinas { qtd_maquinas: 3, tempo_task: vec![4, 9, 2, 7] };
    assert_eq!(aptidao.calcular_aptidao(&vec![0, 1, 0, 2]), -9);
    assert_eq!(aptidao.calcular_aptidao(&vec![2, 1, 2, 2]), -13);
    // Tasks without a time, and times without a task, count for nothing.
    assert_eq!(aptidao.calcular_aptidao(&vec![0, 0, 0, 0, 0, 0]), -22);
    assert_eq!(aptidao.calcular_aptidao(&vec![1]), -4);
    assert_eq!(aptidao.calcular_aptidao(&vec![]), 0);
    // A machine that there is not does nothing.
    assert_eq!(aptidao.calcular_aptidao(&vec![3, 0, 7, 0]), -16);
    let sem_maquinas = AptidaoTarefasMaquinas { qtd_maquinas: 0, tempo_task: vec![4] };
    assert_eq!(sem_maquinas.calcular_aptidao(&vec![0]), 0);
    let enorme = AptidaoTarefasMaquinas { qtd_maquinas: 1, tempo_task: vec![usize::MAX; 3] };
    assert_eq!(enorme.calcular_aptidao(&vec![0, 0, 0]), -i64::MAX);
}

#[test]
fn tempos_e_distribuicoes_aleatorias() {
    let tempos = criar_tempos_aleatorios(20, 20);
    assert_eq!(tempos.len(), 20);
    assert!(tempos.iter().all(|t| *t < 20));
    let aptidao = AptidaoTarefasMaquinas { qtd_maquinas: 30, tempo_task: tempos.clone() };
    let mut pop = Populacao::criar_vazia(aptidao, Operacao::Max);
    tarefas::preencher_com_posicoes_aleatorias(&mut pop, 30, 100, 20);
    assert_eq!(pop.individuos.len(), 100);
    let conferencia = AptidaoTarefasMaquinas { qtd_maquinas: 30, tempo_task: tempos };
    for ind in pop.individuos.iter() {
        assert_eq!(ind.genes.len(), 20);
        assert!(ind.genes.iter().all(|m| *m < 30));
        assert_eq!(ind.aptidao, conferencia.calcular_aptidao(&ind.genes));
    }
}
