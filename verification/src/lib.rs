//! Reconciles a declared set of issue labels, grouped into categories that
//! share a prefix and a colour, with the labels of a repository on a forge.
//!
//! The library decides; it performs no network traffic itself. A driver asks
//! a [`reconciler::Reconciler`] which remote call is due, performs it, and
//! hands the forge's reply back.

pub mod applier;
pub mod category;
pub mod config;
pub mod course;
pub mod forge;
pub mod label;
pub mod reconciler;
pub mod repository;
pub mod store;
