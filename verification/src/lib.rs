use vstd::prelude::*;

pub mod text;
pub mod inline;
pub mod glob;
pub mod search;
pub mod order;
pub mod update;
pub mod paths;
pub mod picker;
pub mod config;
pub mod api;
pub mod app;
pub mod keys;
pub mod upload;
pub mod find;
pub mod regenerate;
pub mod commands;
pub mod frame;
pub mod screen;

verus! {

} // verus!
