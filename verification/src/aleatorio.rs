use rand::Rng;
use rand::ThreadRng;
use vstd::prelude::*;

verus! {

/// `rand::ThreadRng`: a handle on the calling thread's generator.
/// Nothing is known of what is inside.
#[verifier::external_type_specification]
#[verifier::external_body]
pub struct ExThreadRng(ThreadRng);

/// A chance is a whole number of millionths: `0` never happens and
/// `ESCALA` would always happen. A draw lies in `0..ESCALA`.
pub const ESCALA: u64 = 1_000_000;

/// `rand::thread_rng`: the calling thread's generator, seeded by the
/// system. Nothing is claimed of the numbers it will give.
#[verifier::external_body]
fn gerador_da_thread() -> ThreadRng {
    rand::thread_rng()
}

/// `rand::Rng::gen_range` on `u64`: some value of the half-open range
/// `inicio..fim`. The range must not be empty, or the call panics.
#[verifier::external_body]
fn sorteia(rand: &mut ThreadRng, inicio: u64, fim: u64) -> (r: u64)
    requires
        inicio < fim,
    ensures
        inicio <= r < fim,
{
    rand.gen_range(inicio, fim)
}

/// The source of every random choice in the crate. Built with
/// [`Aleatorio::viciado`] its chances are fixed, which makes runs that
/// depend on chances alone repeatable; ranges stay random.
pub struct Aleatorio {
    rand: ThreadRng,
    vicio: Option<u64>,
}

impl Aleatorio {
    /// The fixed chance, if there is one.
    pub closed spec fn vicio(&self) -> Option<u64> {
        match self.vicio {
            Some(v) => Some((v % ESCALA) as u64),
            None => None,
        }
    }

    /// A source that draws its chances at random.
    pub fn criar() -> (r: Self)
        ensures
            r.vicio() is None,
    {
        Aleatorio { rand: gerador_da_thread(), vicio: None }
    }

    /// A source whose every chance is `valor` millionths.
    pub fn viciado(valor: u64) -> (r: Self)
        requires
            valor < ESCALA,
        ensures
            r.vicio() == Some(valor),
    {
        Aleatorio { rand: gerador_da_thread(), vicio: Some(valor) }
    }

    /// A value of `inicio..fim`, the end excluded.
    pub fn intervalo(&mut self, inicio: usize, fim: usize) -> (r: usize)
        requires
            inicio < fim,
        ensures
            inicio <= r < fim,
            final(self).vicio() == old(self).vicio(),
    {
        let r = sorteia(&mut self.rand, inicio as u64, fim as u64);
        r as usize
    }

    /// A value of `inicio..fim`, the end excluded, for signed bounds.
    pub fn intervalo_inteiro(&mut self, inicio: i32, fim: i32) -> (r: i32)
        requires
            inicio < fim,
        ensures
            inicio <= r < fim,
            final(self).vicio() == old(self).vicio(),
    {
        let passo = sorteia(&mut self.rand, 0, largura(inicio, fim));
        desloca(inicio, passo)
    }

    /// A chance in millionths: the fixed one if there is one, else a draw
    /// from `0..ESCALA`.
    pub fn chance(&mut self) -> (r: u64)
        ensures
            r < ESCALA,
            old(self).vicio() matches Some(v) ==> r == v,
            final(self).vicio() == old(self).vicio(),
    {
        match self.vicio {
            Some(v) => v % ESCALA,
            None => sorteia(&mut self.rand, 0, ESCALA),
        }
    }
}

/// How many values the range `inicio..fim` has.
pub fn largura(inicio: i32, fim: i32) -> (r: u64)
    requires
        inicio < fim,
    ensures
        r == fim - inicio,
{
    (fim as i64 - inicio as i64) as u64
}

/// The value that lies `passo` above `inicio`.
pub fn desloca(inicio: i32, passo: u64) -> (r: i32)
    requires
        inicio + passo <= i32::MAX,
    ensures
        r == inicio + passo,
{
    (inicio as i64 + passo as i64) as i32
}

} // verus!
