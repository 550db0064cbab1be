//! Asset, bytecode, course and menu-project decoding for a native Gran Turismo PSP
//! runtime, with the input, menu and main-loop state machines, the bytecode machine's
//! values, operators, storage, call frames, registries and interpreter, and what its
//! native functions compute.
use vstd::prelude::*;

pub mod assets;
pub mod bytes;
pub mod camera;
pub mod course;
pub mod decode;
pub mod engine;
pub mod frame;
pub mod graphics;
pub mod grid;
pub mod gtengine;
pub mod index_scan;
pub mod input;
pub mod loader;
pub mod main_loop;
pub mod model;
pub mod native;
pub mod natives;
pub mod ops;
pub mod platform;
pub mod project;
pub mod specdb;
pub mod sprite;
pub mod storage;
pub mod text;
pub mod texture;
pub mod track;
pub mod ui;
pub mod value;
pub mod vm;

verus! {
} // verus!
