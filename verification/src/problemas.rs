//! Problems to search solutions for.

/// Routing problems and their locations.
pub mod cidade;
/// How a search is configured.
pub mod configuracao;
/// Routes of vehicles that together visit every location once.
pub mod rotas;
/// Functions with many minima, on whole numbers and on bits.
pub mod multimodal;
/// Eight queens that must not threaten one another.
pub mod oito_rainhas;
/// The Rastrigin function on a genome of bits.
pub mod rastrigin;
/// Tasks to be shared among machines.
pub mod tarefas;
/// Functions with one minimum.
pub mod unimodal;
