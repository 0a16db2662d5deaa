use crate::aleatorio::Aleatorio;
use crate::aptidao::Aptidao;
use crate::populacao::Populacao;
use vstd::prelude::*;

verus! {

/// Scores a distribution of tasks over machines: the time that the
/// busiest machine takes, as a negative number, so that the distribution
/// that is done first scores most. A genome holds, for each task, the
/// machine that does it.
pub struct AptidaoTarefasMaquinas {
    pub qtd_maquinas: usize,
    /// The time that each task takes.
    pub tempo_task: Vec<usize>,
}

/// The time that `maquina` spends on the first `k` tasks. A task counts
/// where it has both a machine and a time.
pub open spec fn carga(genes: Seq<usize>, tempos: Seq<usize>, maquina: int, k: int) -> nat
    decreases k,
{
    if k <= 0 {
        0
    } else {
        carga(genes, tempos, maquina, k - 1) + if k <= genes.len() && k <= tempos.len() && genes[k
            - 1] == maquina {
            tempos[k - 1] as nat
        } else {
            0nat
        }
    }
}

/// How many tasks have both a machine and a time.
pub open spec fn qtd_tarefas(genes: Seq<usize>, tempos: Seq<usize>) -> int {
    if genes.len() <= tempos.len() {
        genes.len() as int
    } else {
        tempos.len() as int
    }
}

/// The greatest time that one of the first `m` machines spends on all
/// its tasks; zero where there is no machine.
pub open spec fn maior_carga(genes: Seq<usize>, tempos: Seq<usize>, m: int) -> nat
    decreases m,
{
    if m <= 0 {
        0
    } else {
        let antes = maior_carga(genes, tempos, m - 1);
        let esta = carga(genes, tempos, m - 1, qtd_tarefas(genes, tempos));
        if esta > antes {
            esta
        } else {
            antes
        }
    }
}

/// No machine spends more than all tasks take at the most.
pub proof fn lei_carga(genes: Seq<usize>, tempos: Seq<usize>, maquina: int, k: int)
    requires
        0 <= k,
    ensures
        carga(genes, tempos, maquina, k) <= k * usize::MAX,
    decreases k,
{
    if k > 0 {
        lei_carga(genes, tempos, maquina, k - 1);
        assert(k * usize::MAX == (k - 1) * usize::MAX + usize::MAX) by (nonlinear_arith);
    } else {
        assert(0 * usize::MAX == 0);
    }
}

impl Aptidao<Vec<usize>> for AptidaoTarefasMaquinas {
    /// The greatest load of a machine, negated; `-i64::MAX` where the
    /// load is beyond `i64::MAX`. A task given to a machine that there
    /// is not counts for nobody.
    open spec fn valor(&self, genes: &Vec<usize>) -> int {
        let maior = maior_carga(genes@, self.tempo_task@, self.qtd_maquinas as int);
        if maior > i64::MAX {
            -(i64::MAX as int)
        } else {
            -(maior as int)
        }
    }

    fn calcular_aptidao(&self, genes: &Vec<usize>) -> (r: i64) {
        let n = if genes.len() <= self.tempo_task.len() {
            genes.len()
        } else {
            self.tempo_task.len()
        };
        let mut maior_tempo: u128 = 0;
        let mut maquina: usize = 0;
        while maquina < self.qtd_maquinas
            invariant
                maquina <= self.qtd_maquinas,
                n == qtd_tarefas(genes@, self.tempo_task@),
                maior_tempo == maior_carga(genes@, self.tempo_task@, maquina as int),
            decreases self.qtd_maquinas - maquina,
        {
            let mut tempo_maquina: u128 = 0;
            let mut k: usize = 0;
            while k < n
                invariant
                    k <= n,
                    n == qtd_tarefas(genes@, self.tempo_task@),
                    tempo_maquina == carga(genes@, self.tempo_task@, maquina as int, k as int),
                decreases n - k,
            {
                proof {
                    lei_carga(genes@, self.tempo_task@, maquina as int, k as int);
                    lei_carga(genes@, self.tempo_task@, maquina as int, k as int + 1);
                    assert((k + 1) * usize::MAX <= usize::MAX * usize::MAX) by (nonlinear_arith)
                        requires
                            k + 1 <= usize::MAX,
                    ;
                    assert(usize::MAX * usize::MAX <= 0xffff_ffff_ffff_ffff
                        * 0xffff_ffff_ffff_ffff) by (nonlinear_arith)
                        requires
                            usize::MAX <= 0xffff_ffff_ffff_ffff,
                    ;
                }
                if genes[k] == maquina {
                    tempo_maquina = tempo_maquina + self.tempo_task[k] as u128;
                }
                k += 1;
            }
            if tempo_maquina > maior_tempo {
                maior_tempo = tempo_maquina;
            }
            maquina += 1;
        }
        if maior_tempo > i64::MAX as u128 {
            -i64::MAX
        } else {
            -(maior_tempo as i64)
        }
    }
}

/// The times of `qtd_tarefas` tasks, each drawn from `0..tempo_maximo`.
pub fn criar_tempos_aleatorios(qtd_tarefas: usize, tempo_maximo: usize) -> (tempos: Vec<usize>)
    requires
        tempo_maximo > 0,
    ensures
        tempos@.len() == qtd_tarefas,
        forall|i: int| 0 <= i < qtd_tarefas ==> #[trigger] tempos@[i] < tempo_maximo,
{
    let mut aleatorio = Aleatorio::criar();
    let mut tempos: Vec<usize> = Vec::new();
    let mut i: usize = 0;
    while i < qtd_tarefas
        invariant
            i <= qtd_tarefas,
            tempo_maximo > 0,
            tempos@.len() == i,
            forall|j: int| 0 <= j < i ==> #[trigger] tempos@[j] < tempo_maximo,
        decreases qtd_tarefas - i,
    {
        let tempo = aleatorio.intervalo(0, tempo_maximo);
        tempos.push(tempo);
        i += 1;
    }
    tempos
}

/// Adds to a population `qtd_amostras` distributions of `qtd_tarefas`
/// tasks over `qtd_maquinas` machines, drawn at random.
pub fn preencher_com_posicoes_aleatorias(
    pop: &mut Populacao<Vec<usize>>,
    qtd_maquinas: usize,
    qtd_amostras: usize,
    qtd_tarefas: usize,
)
    requires
        qtd_maquinas > 0,
    ensures
        final(pop).individuos@.len() == old(pop).individuos@.len() + qtd_amostras,
        final(pop).individuos@.take(old(pop).individuos@.len() as int) == old(pop).individuos@,
        forall|k: int|
            old(pop).individuos@.len() <= k < final(pop).individuos@.len() ==> (
            #[trigger] final(pop).individuos@[k]).genes@.len() == qtd_tarefas && forall|i: int|
                0 <= i < qtd_tarefas ==> #[trigger] final(pop).individuos@[k].genes@[i]
                    < qtd_maquinas,
        final(pop).aparentada(old(pop)),
        old(pop).bem_formada() ==> final(pop).bem_formada(),
{
    let mut aleatorio = Aleatorio::criar();
    let ghost antes = pop.individuos@;
    let mut n: usize = 0;
    while n < qtd_amostras
        invariant
            n <= qtd_amostras,
            qtd_maquinas > 0,
            antes == old(pop).individuos@,
            pop.individuos@.len() == antes.len() + n,
            pop.individuos@.take(antes.len() as int) == antes,
            forall|k: int|
                antes.len() <= k < pop.individuos@.len() ==> (#[trigger] pop.individuos@[k]).genes@.len()
                    == qtd_tarefas && forall|i: int|
                    0 <= i < qtd_tarefas ==> #[trigger] pop.individuos@[k].genes@[i]
                        < qtd_maquinas,
            pop.aparentada(old(pop)),
            old(pop).bem_formada() ==> pop.bem_formada(),
        decreases qtd_amostras - n,
    {
        let mut amostra: Vec<usize> = Vec::with_capacity(qtd_tarefas);
        let mut i: usize = 0;
        while i < qtd_tarefas
            invariant
                i <= qtd_tarefas,
                qtd_maquinas > 0,
                amostra@.len() == i,
                forall|j: int| 0 <= j < i ==> #[trigger] amostra@[j] < qtd_maquinas,
            decreases qtd_tarefas - i,
        {
            let maquina = aleatorio.intervalo(0, qtd_maquinas);
            amostra.push(maquina);
            i += 1;
        }
        let ghost ate_aqui = pop.individuos@;
        let ghost nova = amostra@;
        pop.adicionar(amostra);
        proof {
            assert(pop.individuos@.take(antes.len() as int) == ate_aqui.take(antes.len() as int));
            assert forall|k: int| antes.len() <= k < pop.individuos@.len() implies (
            #[trigger] pop.individuos@[k]).genes@.len() == qtd_tarefas && forall|i: int|
                0 <= i < qtd_tarefas ==> #[trigger] pop.individuos@[k].genes@[i]
                    < qtd_maquinas by {
                if k < ate_aqui.len() {
                    assert(pop.individuos@[k] == ate_aqui[k]);
                } else {
                    assert(pop.individuos@[k].genes@ == nova);
                }
            }
        }
        n += 1;
    }
}

} // verus!
