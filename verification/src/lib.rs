use vstd::prelude::*;

pub mod api;
pub mod app;
pub mod console;
pub mod engine;
pub mod error;
pub mod json;
pub mod laws;
pub mod number;
pub mod player;
pub mod settings;
pub mod text;
pub mod view;

verus! {
} // verus!
