//! A registry of named text-analysis pipelines.
//!
//! A pipeline turns raw text into a finite stream of normalized tokens: one
//! base tokenizer segments the input, and an ordered chain of filters then
//! drops or rewrites tokens. Pipelines of different shapes are held uniformly
//! as [`pipeline::TextAnalyzer`] values, and a [`manager::TokenizerManager`]
//! stores them under symbolic names, handing each caller an independent
//! duplicate so that concurrent tokenization tasks never share state.

pub mod backends;
pub mod manager;
pub mod pipeline;
pub mod registry;
pub mod split;
pub mod token;
