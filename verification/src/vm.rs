//! Plain records of the bytecode machine: where a variable lives, the state of a call
//! frame, the class, attribute, function and function-value descriptions of a module, and
//! the registry of loaded modules and their code frames.
use vstd::prelude::*;
use std::collections::HashMap;
use crate::storage::StaticStorage;

verus! {

/// Storage kind for variable access.
#[derive(Debug, Clone, Copy, PartialEq, Eq, Structural)]
pub enum StorageKind {
    Local,
    Static,
}

/// The run state of a call frame.
#[derive(Clone, Copy, PartialEq, Eq, Structural)]
pub enum FrameState {
    Running,
    Yielded,
    Returned,
    Exited,
}

/// A class of a module: its names, its parent's path, attributes and methods.
#[derive(Clone)]
pub struct ClassDef {
    pub name: String,
    pub full_path: String,
    pub parent_path: String,
    pub attributes: Vec<AttrDef>,
    pub methods: Vec<FuncDef>,
}

/// A class attribute and the index of its default value.
#[derive(Clone)]
pub struct AttrDef {
    pub name: String,
    pub default_value_idx: usize,
}

/// A function or method of a module and the code frame that holds its body.
#[derive(Clone)]
pub struct FuncDef {
    pub name: String,
    pub full_path: String,
    pub param_count: i32,
    pub code_frame_index: usize,
    pub is_method: bool,
    pub class_name: Option<String>,
}

/// A function as a value: where its code is and the frames it closes over.
#[derive(Clone)]
pub struct FunctionValue {
    pub module_name: String,
    pub name: String,
    pub code_frame: usize,
    pub is_method: bool,
    pub static_base: usize,
    pub parent_frame: usize,
}

/// A parsed module with its definitions and static storage.
pub struct Module<V> {
    pub name: String,
    pub full_path: String,
    pub classes: Vec<ClassDef>,
    pub functions: Vec<FuncDef>,
    pub statics: StaticStorage<V>,
    pub child_modules: Vec<Module<V>>,
}

/// Registry of all loaded modules and of the code frames they were decoded into.
pub struct ModuleRegistry<V, F> {
    pub modules: Vec<Module<V>>,
    pub frames: Vec<F>,
    pub name_to_index: HashMap<String, usize>,
    pub path_to_frame: HashMap<String, usize>,
}

impl<V, F> ModuleRegistry<V, F> {
    /// No module and no code frame.
    pub fn new() -> (r: Self)
        ensures
            r.modules@.len() == 0,
            r.frames@.len() == 0,
            r.name_to_index@.len() == 0,
            r.path_to_frame@.len() == 0,
    {
        ModuleRegistry {
            modules: Vec::new(),
            frames: Vec::new(),
            name_to_index: HashMap::new(),
            path_to_frame: HashMap::new(),
        }
    }

    /// Appends a code frame and returns its index.
    pub fn add_frame(&mut self, frame: F) -> (idx: usize)
        ensures
            idx == old(self).frames@.len(),
            final(self).frames@ == old(self).frames@.push(frame),
            final(self).modules == old(self).modules,
            final(self).name_to_index@ == old(self).name_to_index@,
            final(self).path_to_frame@ == old(self).path_to_frame@,
    {
        let idx = self.frames.len();
        self.frames.push(frame);
        idx
    }

    /// The code frame at `idx`; the first one for an index past the end.
    pub fn get_frame(&self, idx: usize) -> (f: &F)
        requires
            self.frames@.len() > 0,
        ensures
            *f == (if idx < self.frames@.len() { self.frames@[idx as int] } else { self.frames@[0] }),
    {
        if idx < self.frames.len() {
            &self.frames[idx]
        } else {
            &self.frames[0]
        }
    }
}

/// The index that adding a code frame returns finds that frame again, and the frames
/// added before it stay where they were.
pub proof fn lemma_added_frame_found<F>(frames: Seq<F>, frame: F, j: int)
    requires
        0 <= j < frames.len(),
    ensures
        frames.push(frame)[frames.len() as int] == frame,
        frames.push(frame)[j] == frames[j],
{
}

} // verus!
