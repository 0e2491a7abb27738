//! The Poseidon permutation over the scalar field of the Pallas curve.
//!
//! - `field`: field elements, held as canonical bytes, with arithmetic by `pasta_curves`.
//! - `params`: supported arities, strengths and hash-domain policies; round
//!   schedule and domain tags.
//! - `matrix`, `algebra`: vectors and matrices over the field, and the ring
//!   facts about them.
//! - `constants`: the constants model of one configuration.
//! - `poseidon`: the permutation engine.
//! - `sparse`: the sparse decomposition of the mixing layer.
//! - `compress`: folded partial-round constants, which let the engine run
//!   its partial rounds through the decomposition.
//! - `codec`: a byte encoding of the constants model.
//! - `lemmas`: laws relating the engine's operations.

pub mod algebra;
pub mod codec;
pub mod compress;
pub mod constants;
pub mod field;
pub mod lemmas;
pub mod matrix;
pub mod params;
pub mod poseidon;
pub mod sparse;
