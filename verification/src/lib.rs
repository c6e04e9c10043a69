//! A verified compliance register for electrical-appliance safety
//! tests: records carry a retest date derived from the test date and
//! the installation environment, and the repository core reconstructs
//! and filters records from a schema-less string-attribute store.
pub mod api;
pub mod date;
pub mod model;
pub mod repository;
pub mod text;
