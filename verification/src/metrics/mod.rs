//! Rates, rounds and the controller of the scraping fleet.
pub mod collector;
pub mod container;
pub mod controller;
pub mod counter;
pub mod exposition;
pub mod node;
pub mod querier;
pub mod tracking;
pub mod uids;
