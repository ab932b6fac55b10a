//! Production-cycle grids: units split into eight weekly periods of seven
//! days each, and a running feed ledger on each cycle that follows every
//! daily consumption entry.
//!
//! Quantities are fixed-point integers: daily consumption in thousandths of
//! a 50 kg bag, ledgers and adjustments in grams (one thousandth of a bag
//! is 50 g), weights in milligrams.
//!
//! - [`store`]: the grid store and its well-formedness.
//! - [`semaine_service`]: reading a unit's full grid, creating missing
//!   periods and filling days in virtually.
//! - [`upsert`]: writing one field of a day entry, with the ledger move.
//! - [`ledger`]: adjustment records and the ledger moves that go with them.
//! - [`batiment_repository`], [`repositories`], [`bande_service`]: creating
//!   and deleting cycles, units, periods and day entries.
//! - [`consistency`]: the ledger as the records make it, and the proofs that
//!   writes keep the stored ledger equal to it.

pub mod bande_service;
pub mod batiment_repository;
pub mod consistency;
pub mod error;
pub mod grid;
pub mod ledger;
pub mod lookup;
pub mod models;
pub mod parse;
pub mod records;
pub mod repositories;
pub mod semaine_service;
pub mod store;
pub mod text;
pub mod upsert;
