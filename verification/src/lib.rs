//! Core of a mod-catalog health checker.
//!
//! A catalog maps mod names to records: a deprecation flag, a target platform
//! version, and the dependency declarations of the mod's published release.
//! This crate parses raw dependency strings into structured descriptors and
//! classifies every mod of the catalog as working, deprecated, broken, or
//! mis-specified, by a fixpoint reachability computation from a baseline set
//! of built-in mods. The classification engine performs no I/O: loaders,
//! downloaders and report writers hand it plain values and render its result.

pub mod catalog;
pub mod dependency;
pub mod engine;
pub mod laws;
pub mod portal;
pub mod report;
pub mod text;
