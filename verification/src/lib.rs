//! In-memory catalog of audio products and audio categories.
//!
//! Two collections — products and categories — are held in independent
//! stores keyed by monotonically assigned integer identifiers.  Category
//! records embed a denormalized snapshot of their member products, and the
//! synchronizer keeps that snapshot in agreement with the product
//! collection as either side is mutated.

pub mod ids;
pub mod models;
pub mod store;
pub mod sync;
pub mod laws;
