//! Building blocks for genetic algorithms: a population of scored
//! individuals, operators that breed new generations, objectives that
//! decide when to stop, and the search loop that ties them together.
//!
//! Fitness values are signed integers; problems with real-valued scores
//! scale them to a fixed unit before handing them over.

/// The source of random choices.
pub mod aleatorio;
/// Fitness evaluation.
pub mod aptidao;
/// Individuals, populations and the comparison that ranks them.
pub mod populacao;
/// Problems to search solutions for.
pub mod problemas;
/// Evolutions: how a new generation is bred.
pub mod evolucao;
/// The search itself.
pub mod genetico;
/// Objectives: when a search may stop.
pub mod objetivo;
/// Observers of a search.
pub mod observador;
