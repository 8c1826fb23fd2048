//! A lightweight LaTeX package manager core: dependency discovery in TeX
//! sources, compiler-error classification, bounded resolution loops, and
//! installation-order computation over a local package catalog.
#![verifier::loop_isolation(false)]

pub mod classifier;
pub mod config;
pub mod error;
pub mod mirror;
pub mod package;
pub mod resolution;
pub mod resolver;
pub mod tex_parser;
pub mod texlive;
pub mod text;
