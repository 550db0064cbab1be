//! The directory the game data is read from: set once at start-up, "assets" until then.
use vstd::prelude::*;
use vstd::string::StringExecFns;

verus! {

/// The data directory, once it is set.
pub struct AssetsRoot {
    pub root: Option<String>,
}

/// The directory that is set, as text.
pub open spec fn root_view(a: AssetsRoot) -> Option<Seq<char>> {
    match a.root {
        Some(p) => Some(p@),
        None => None,
    }
}

/// The setting after asking to set `path`: the first setting stays.
pub open spec fn after_init(v: Option<Seq<char>>, path: Seq<char>) -> Option<Seq<char>> {
    match v {
        Some(p) => Some(p),
        None => Some(path),
    }
}

/// The directory read for a setting: the one set, or "assets".
pub open spec fn root_text(v: Option<Seq<char>>) -> Seq<char> {
    match v {
        Some(p) => p,
        None => "assets"@,
    }
}

impl AssetsRoot {
    /// No directory set yet.
    pub fn new() -> (a: Self)
        ensures
            root_view(a) is None,
    {
        AssetsRoot { root: None }
    }
}

/// Sets the data directory unless it was set before (see `after_init`).
pub fn init_assets_root(roots: &mut AssetsRoot, path: &str)
    ensures
        root_view(*final(roots)) == after_init(root_view(*old(roots)), path@),
{
    if roots.root.is_none() {
        roots.root = Some(String::from_str(path));
    }
}

/// The data directory (see `root_text`).
pub fn assets_root(roots: &AssetsRoot) -> (r: String)
    ensures
        r@ == root_text(root_view(*roots)),
{
    match &roots.root {
        Some(p) => p.clone(),
        None => String::from_str("assets"),
    }
}

/// Reading after setting gives the first directory ever set: a second setting changes
/// nothing, and on a fresh start the first setting is what is read.
pub proof fn lemma_first_setting_stays(v: Option<Seq<char>>, first: Seq<char>, second: Seq<char>)
    ensures
        root_text(after_init(after_init(v, first), second)) == root_text(after_init(v, first)),
        v is None ==> root_text(after_init(v, first)) == first,
{
}

} // verus!
