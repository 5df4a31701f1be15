use vstd::prelude::*;

pub mod command;
pub mod config;
pub mod console;
pub mod events;
pub mod items;
pub mod json_text;
pub mod lua_text;
pub mod player;
pub mod require;
pub mod script_api;
pub mod simulation;
pub mod text;

verus! {

} // verus!
