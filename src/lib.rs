//! Back-office records for a debt-collection business: processes, partners,
//! sellers, clients, orders with their fees and payments, and postponed
//! payment dates, kept in relational tables with generated identifiers,
//! foreign keys and cascading deletes.

pub mod values;
pub mod table;
pub mod entities;
pub mod requests;
pub mod store;
pub mod cascade;
pub mod views;
pub mod orders;
pub mod workflow;
pub mod app;
pub mod laws;
pub mod controllers;
