use crate::aleatorio::ESCALA;
use crate::problemas::cidade::le_natural;
use crate::problemas::cidade::natural;
use vstd::prelude::*;

verus! {

/// How a search is to be run.
#[derive(Debug)]
pub struct Configuracao {
    /// The name of the function to search on.
    pub funcao: String,
    /// The chance of a mutation, in millionths.
    pub chance_mutacao: u64,
    /// The chance of a crossing, in millionths.
    pub chance_cruzamento: u64,
    /// `um-ponto` or `dois-pontos`.
    pub modificador_cruzamento: String,
    /// After how many generations the search gives up.
    pub geracoes: usize,
    /// `torneio` or `roleta`.
    pub seletor: String,
    pub tamanho_populacao: usize,
    /// How much the search tells of what it does: nothing at zero.
    pub debug: u64,
    pub print_solution: bool,
    pub elitismo: bool,
}

/// A chance given in hundredths, in millionths; a chance too large to be
/// written in millionths is `u64::MAX` millionths.
pub open spec fn em_milionesimos(percentual: usize) -> u64 {
    if percentual * (ESCALA / 100) <= u64::MAX {
        (percentual * (ESCALA / 100)) as u64
    } else {
        u64::MAX
    }
}

/// Turns a chance in hundredths into one in millionths.
pub fn chance_de_percentual(percentual: usize) -> (r: u64)
    ensures
        r == em_milionesimos(percentual),
{
    let fator: u128 = (ESCALA / 100) as u128;
    assert(fator == 10_000);
    let produto: u128 = percentual as u128 * fator;
    if produto <= u64::MAX as u128 {
        produto as u64
    } else {
        u64::MAX
    }
}

/// Whether two runs of bytes are the same.
pub fn bytes_iguais(a: &[u8], b: &[u8]) -> (r: bool)
    ensures
        r == (a@ == b@),
{
    if a.len() != b.len() {
        return false;
    }
    let mut i: usize = 0;
    while i < a.len()
        invariant
            i <= a@.len(),
            a@.len() == b@.len(),
            a@.take(i as int) == b@.take(i as int),
        decreases a@.len() - i,
    {
        if a[i] != b[i] {
            return false;
        }
        proof {
            assert(a@.take(i as int + 1) == a@.take(i as int).push(a@[i as int]));
            assert(b@.take(i as int + 1) == b@.take(i as int).push(b@[i as int]));
        }
        i += 1;
    }
    proof {
        assert(a@.take(a@.len() as int) == a@);
        assert(b@.take(b@.len() as int) == b@);
    }
    true
}

/// Whether two texts are written with the same bytes.
pub fn textos_iguais(a: &str, b: &str) -> (r: bool)
    ensures
        r == (vstd::utf8::encode_utf8(a@) == vstd::utf8::encode_utf8(b@)),
{
    bytes_iguais(a.as_bytes(), b.as_bytes())
}

/// The natural number that a text spells, the whole of it: digits, maybe
/// behind a plus sign.
pub fn to_int(valor: &str) -> (r: Option<usize>)
    ensures
        r == natural(vstd::utf8::encode_utf8(valor@)),
{
    let bytes = valor.as_bytes();
    proof {
        assert(bytes@.subrange(0, bytes@.len() as int) == bytes@);
    }
    le_natural(bytes, 0, bytes.len())
}

} // verus!
