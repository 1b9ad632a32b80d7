//! A generative grid-rewriting engine in the MarkovJunior style.
//!
//! A [`Grid`] of symbols is rewritten by [`Rule`]s, each a [`Pattern`] of a
//! `find` and a `replace` array enumerated under a [`Symmetry`] set of
//! rotations.  Rules are composed into a [`Rules`] tree whose nodes (`One`,
//! `All`, `Markov`, `Sequence`, `Steps`) each give one meaning to a step of
//! the interpreter; the driver calls [`Rules::apply`] until it returns false.

pub mod error;
pub mod grid;
pub mod matcher;
pub mod nodes;
pub mod palette;
pub mod pattern;
pub mod rng;
pub mod rotation;
pub mod rule;

pub use error::ConstructionError;
pub use grid::Grid;
pub use matcher::Match;
pub use matcher::MatchView;
pub use matcher::Symmetry;
pub use nodes::Rules;
pub use nodes::run_to_exhaustion;
pub use palette::alphabet_color;
pub use pattern::Pattern;
pub use pattern::PatternView;
pub use rng::Rng;
pub use rotation::Rotation;
pub use rule::Rule;
pub use rule::RuleView;
