//! The registry of native functions that scripts call by module path (such as
//! "main,pdistd,MRandom,GetValue"): exact paths first, then prefix patterns in the
//! order they were registered.
use vstd::prelude::*;
use vstd::string::StringExecFns;
use crate::text::{has_prefix, is_prefix, str_eq};

verus! {

/// The path-to-function table of a list of entries, a later entry replacing an
/// earlier one of the same path.
pub open spec fn table<F>(es: Seq<(Seq<char>, F)>) -> Map<Seq<char>, F>
    decreases es.len(),
{
    if es.len() == 0 {
        Map::empty()
    } else {
        table(es.drop_last()).insert(es.last().0, es.last().1)
    }
}

/// The function of the first pattern in `fbs` that begins `path`.
pub open spec fn first_prefix<F>(fbs: Seq<(Seq<char>, F)>, path: Seq<char>) -> Option<F>
    decreases fbs.len(),
{
    if fbs.len() == 0 {
        None
    } else {
        let earlier = first_prefix(fbs.drop_last(), path);
        if earlier is Some {
            earlier
        } else if is_prefix(fbs.last().0, path) {
            Some(fbs.last().1)
        } else {
            None
        }
    }
}

/// What a lookup of `path` finds: its own entry, else the first matching pattern.
pub open spec fn native_lookup<F>(t: Map<Seq<char>, F>, fbs: Seq<(Seq<char>, F)>, path: Seq<char>) -> Option<F> {
    if t.dom().contains(path) {
        Some(t[path])
    } else {
        first_prefix(fbs, path)
    }
}

/// No path occurs twice among the entries.
pub open spec fn unique_paths<F>(es: Seq<(Seq<char>, F)>) -> bool {
    forall|i: int, j: int| 0 <= i < j < es.len() ==> es[i].0 != es[j].0
}

proof fn lemma_table_dom<F>(es: Seq<(Seq<char>, F)>)
    ensures
        forall|k: Seq<char>| #[trigger] table(es).dom().contains(k) <==> exists|i: int| 0 <= i < es.len() && es[i].0 == k,
    decreases es.len(),
{
    if es.len() > 0 {
        let d = es.drop_last();
        lemma_table_dom(d);
        assert forall|k: Seq<char>| #[trigger] table(es).dom().contains(k) implies exists|i: int| 0 <= i < es.len() && es[i].0 == k by {
            if k != es.last().0 {
                assert(table(d).dom().contains(k));
                let i = choose|i: int| 0 <= i < d.len() && d[i].0 == k;
                assert(d[i] == es[i]);
            } else {
                assert(es[es.len() - 1].0 == k);
            }
        }
        assert forall|k: Seq<char>| (exists|i: int| 0 <= i < es.len() && es[i].0 == k) implies #[trigger] table(es).dom().contains(k) by {
            let i = choose|i: int| 0 <= i < es.len() && es[i].0 == k;
            if i < es.len() - 1 {
                assert(d[i] == es[i]);
                assert(table(d).dom().contains(k));
            }
        }
    }
}

proof fn lemma_table_value<F>(es: Seq<(Seq<char>, F)>, i: int)
    requires
        unique_paths(es),
        0 <= i < es.len(),
    ensures
        table(es).dom().contains(es[i].0),
        table(es)[es[i].0] == es[i].1,
    decreases es.len(),
{
    if i < es.len() - 1 {
        let d = es.drop_last();
        assert(d[i] == es[i]);
        lemma_table_value(d, i);
        assert(es[i].0 != es[es.len() - 1].0);
    }
}

proof fn lemma_table_len<F>(es: Seq<(Seq<char>, F)>)
    requires
        unique_paths(es),
    ensures
        table(es).dom().finite(),
        table(es).dom().len() == es.len(),
    decreases es.len(),
{
    if es.len() > 0 {
        let d = es.drop_last();
        lemma_table_len(d);
        lemma_table_dom(d);
        if table(d).dom().contains(es.last().0) {
            let i = choose|i: int| 0 <= i < d.len() && d[i].0 == es.last().0;
            assert(es[i].0 == es[es.len() - 1].0);
        }
    }
}

proof fn lemma_first_prefix_extends<F>(fbs: Seq<(Seq<char>, F)>, n: int, path: Seq<char>)
    requires
        0 <= n <= fbs.len(),
        first_prefix(fbs.take(n), path) is Some,
    ensures
        first_prefix(fbs, path) == first_prefix(fbs.take(n), path),
    decreases fbs.len(),
{
    if n < fbs.len() {
        let d = fbs.drop_last();
        assert(d.take(n) =~= fbs.take(n));
        lemma_first_prefix_extends(d, n, path);
    } else {
        assert(fbs.take(n) =~= fbs);
    }
}

proof fn lemma_first_prefix_some<F>(fbs: Seq<(Seq<char>, F)>, path: Seq<char>)
    ensures
        first_prefix(fbs, path) is Some <==> exists|j: int| 0 <= j < fbs.len() && is_prefix(#[trigger] fbs[j].0, path),
    decreases fbs.len(),
{
    if fbs.len() > 0 {
        let d = fbs.drop_last();
        lemma_first_prefix_some(d, path);
        if exists|j: int| 0 <= j < fbs.len() && is_prefix(#[trigger] fbs[j].0, path) {
            let j = choose|j: int| 0 <= j < fbs.len() && is_prefix(#[trigger] fbs[j].0, path);
            if j < fbs.len() - 1 {
                assert(is_prefix(d[j].0, path));
            }
        }
        if exists|j: int| 0 <= j < d.len() && is_prefix(#[trigger] d[j].0, path) {
            let j = choose|j: int| 0 <= j < d.len() && is_prefix(#[trigger] d[j].0, path);
            assert(is_prefix(fbs[j].0, path));
        }
    }
}

/// The first index of `es` whose path is `path`.
fn position_of<F>(es: &Vec<(String, F)>, path: &str) -> (r: Option<usize>)
    ensures
        match r {
            Some(i) => i < es@.len() && es@[i as int].0@ == path@,
            None => forall|j: int| 0 <= j < es@.len() ==> es@[j].0@ != path@,
        },
{
    let mut i: usize = 0;
    while i < es.len()
        invariant
            i <= es@.len(),
            forall|j: int| 0 <= j < i ==> es@[j].0@ != path@,
        decreases es@.len() - i,
    {
        if str_eq(es[i].0.as_str(), path) {
            return Some(i);
        }
        i = i + 1;
    }
    None
}

/// Registry of native functions callable from scripts.
pub struct NativeRegistry<F> {
    functions: Vec<(String, F)>,
    fallbacks: Vec<(String, F)>,
}

impl<F> NativeRegistry<F> {
    spec fn entries(&self) -> Seq<(Seq<char>, F)> {
        self.functions@.map_values(|e: (String, F)| (e.0@, e.1))
    }

    #[verifier::type_invariant]
    spec fn paths_unique(&self) -> bool {
        unique_paths(self.entries())
    }

    /// The functions registered under an exact path.
    pub closed spec fn table(&self) -> Map<Seq<char>, F> {
        table(self.entries())
    }

    /// The prefix patterns and their functions, in the order they were registered.
    pub closed spec fn fallbacks(&self) -> Seq<(Seq<char>, F)> {
        self.fallbacks@.map_values(|e: (String, F)| (e.0@, e.1))
    }

    /// An empty registry.
    pub fn new() -> (r: Self)
        ensures
            r.table() == Map::<Seq<char>, F>::empty(),
            r.fallbacks() == Seq::<(Seq<char>, F)>::empty(),
    {
        let r = NativeRegistry { functions: Vec::new(), fallbacks: Vec::new() };
        assert(r.fallbacks() =~= Seq::<(Seq<char>, F)>::empty());
        r
    }

    /// Registers `func` under the exact path `path`, replacing what was there.
    pub fn register(&mut self, path: &str, func: F)
        ensures
            final(self).table() == old(self).table().insert(path@, func),
            final(self).fallbacks() == old(self).fallbacks(),
    {
        proof {
            use_type_invariant(&*self);
        }
        let ghost es = self.entries();
        let mut fs: Vec<(String, F)> = Vec::new();
        std::mem::swap(&mut fs, &mut self.functions);
        assert(fs@.map_values(|e: (String, F)| (e.0@, e.1)) == es);
        match position_of(&fs, path) {
            Some(i) => {
                let ghost new_entry = (path@, func);
                assert(es[i as int].0 == path@);
                fs.set(i, (String::from_str(path), func));
                let ghost es2 = fs@.map_values(|e: (String, F)| (e.0@, e.1));
                proof {
                    assert(es2 =~= es.update(i as int, new_entry));
                    assert(unique_paths(es2)) by {
                        assert forall|a: int, b: int| 0 <= a < b < es2.len() implies es2[a].0 != es2[b].0 by {
                            assert(es[a].0 != es[b].0);
                        }
                    }
                    lemma_table_dom(es);
                    lemma_table_dom(es2);
                    assert forall|k: Seq<char>| #[trigger] table(es2).dom().contains(k) implies table(es).insert(path@, func).dom().contains(k) by {
                        let j = choose|j: int| 0 <= j < es2.len() && es2[j].0 == k;
                        if j != i {
                            assert(es[j].0 == k);
                        }
                    }
                    assert forall|k: Seq<char>| #[trigger] table(es).insert(path@, func).dom().contains(k) implies table(es2).dom().contains(k) by {
                        if k != path@ {
                            let j = choose|j: int| 0 <= j < es.len() && es[j].0 == k;
                            assert(es2[j].0 == k);
                        } else {
                            assert(es2[i as int].0 == k);
                        }
                    }
                    assert forall|k: Seq<char>| #[trigger] table(es2).dom().contains(k) implies table(es2)[k] == table(es).insert(path@, func)[k] by {
                        let j = choose|j: int| 0 <= j < es2.len() && es2[j].0 == k;
                        lemma_table_value(es2, j);
                        if j != i {
                            lemma_table_value(es, j);
                        }
                    }
                    assert(table(es2) =~= table(es).insert(path@, func));
                }
            }
            None => {
                fs.push((String::from_str(path), func));
                proof {
                    let es2 = fs@.map_values(|e: (String, F)| (e.0@, e.1));
                    assert(es2 =~= es.push((path@, func)));
                    assert(es2.drop_last() =~= es);
                    assert forall|a: int, b: int| 0 <= a < b < es2.len() implies es2[a].0 != es2[b].0 by {
                        if b < es.len() {
                            assert(es[a].0 != es[b].0);
                        } else {
                            assert(es[a].0 == fs@[a].0@);
                        }
                    }
                }
            }
        }
        self.functions = fs;
    }

    /// Adds a pattern: paths that begin with `prefix` and have no entry of their own
    /// find `func`, unless an earlier pattern matches them too.
    pub fn register_fallback(&mut self, prefix: &str, func: F)
        ensures
            final(self).table() == old(self).table(),
            final(self).fallbacks() == old(self).fallbacks().push((prefix@, func)),
    {
        proof {
            use_type_invariant(&*self);
        }
        let ghost before = self.fallbacks();
        let mut fbs: Vec<(String, F)> = Vec::new();
        std::mem::swap(&mut fbs, &mut self.fallbacks);
        fbs.push((String::from_str(prefix), func));
        self.fallbacks = fbs;
        assert(self.fallbacks() =~= before.push((prefix@, func)));
    }

    /// The function for `path` (see `native_lookup`).
    pub fn get(&self, path: &str) -> (r: Option<&F>)
        ensures
            match r {
                Some(f) => native_lookup(self.table(), self.fallbacks(), path@) == Some(*f),
                None => native_lookup(self.table(), self.fallbacks(), path@) is None,
            },
    {
        proof {
            use_type_invariant(self);
        }
        let ghost es = self.entries();
        if let Some(i) = position_of(&self.functions, path) {
            proof {
                lemma_table_value(es, i as int);
            }
            return Some(&self.functions[i].1);
        }
        proof {
            lemma_table_dom(es);
            if table(es).dom().contains(path@) {
                let j = choose|j: int| 0 <= j < es.len() && es[j].0 == path@;
                assert(self.functions@[j].0@ == path@);
            }
        }
        let ghost fbs = self.fallbacks();
        let mut j: usize = 0;
        while j < self.fallbacks.len()
            invariant
                j <= self.fallbacks@.len(),
                fbs == self.fallbacks(),
                !self.table().dom().contains(path@),
                first_prefix(fbs.take(j as int), path@) is None,
            decreases self.fallbacks@.len() - j,
        {
            if has_prefix(path, self.fallbacks[j].0.as_str()) {
                proof {
                    assert(fbs.take(j as int + 1).drop_last() =~= fbs.take(j as int));
                    lemma_first_prefix_extends(fbs, j as int + 1, path@);
                }
                return Some(&self.fallbacks[j].1);
            }
            proof {
                assert(fbs.take(j as int + 1).drop_last() =~= fbs.take(j as int));
            }
            j = j + 1;
        }
        assert(fbs.take(j as int) =~= fbs);
        None
    }

    /// Whether `path` has an entry of its own or begins with a registered pattern.
    pub fn has(&self, path: &str) -> (r: bool)
        ensures
            r == (self.table().dom().contains(path@) || exists|j: int|
                0 <= j < self.fallbacks().len() && is_prefix(#[trigger] self.fallbacks()[j].0, path@)),
    {
        proof {
            use_type_invariant(self);
            lemma_first_prefix_some(self.fallbacks(), path@);
        }
        self.get(path).is_some()
    }

    /// The number of exact paths registered.
    pub fn len(&self) -> (n: usize)
        ensures
            n == self.table().dom().len(),
    {
        proof {
            use_type_invariant(self);
            lemma_table_len(self.entries());
        }
        self.functions.len()
    }

    /// The exact paths registered, each once.
    pub fn iter_paths(&self) -> (paths: Vec<String>)
        ensures
            paths@.len() == self.table().dom().len(),
            forall|k: Seq<char>| #[trigger] self.table().dom().contains(k) <==> exists|i: int|
                0 <= i < paths@.len() && paths@[i]@ == k,
    {
        proof {
            use_type_invariant(self);
            lemma_table_len(self.entries());
            lemma_table_dom(self.entries());
        }
        let ghost es = self.entries();
        let mut paths: Vec<String> = Vec::new();
        let mut i: usize = 0;
        while i < self.functions.len()
            invariant
                i <= self.functions@.len(),
                es == self.entries(),
                paths@.len() == i,
                forall|j: int| 0 <= j < i ==> #[trigger] paths@[j]@ == es[j].0,
            decreases self.functions@.len() - i,
        {
            paths.push(self.functions[i].0.clone());
            i = i + 1;
        }
        proof {
            assert forall|k: Seq<char>| #[trigger] table(es).dom().contains(k) implies exists|i: int|
                0 <= i < paths@.len() && paths@[i]@ == k by {
                let j = choose|j: int| 0 <= j < es.len() && es[j].0 == k;
                assert(paths@[j]@ == k);
            }
            assert forall|k: Seq<char>| (exists|i: int| 0 <= i < paths@.len() && paths@[i]@ == k) implies #[trigger] table(es).dom().contains(k) by {
                let j = choose|j: int| 0 <= j < paths@.len() && paths@[j]@ == k;
                assert(es[j].0 == k);
            }
        }
        paths
    }
}

/// A function registered under a path is what a lookup of that path finds, whatever
/// patterns were registered; a path with no entry of its own finds the earliest
/// pattern that begins it, and a lookup succeeds exactly when `has` says so.
pub proof fn lemma_lookup_after_register<F>(
    t: Map<Seq<char>, F>,
    fbs: Seq<(Seq<char>, F)>,
    path: Seq<char>,
    func: F,
    other: Seq<char>,
    j: int,
)
    requires
        !t.dom().contains(other),
        0 <= j < fbs.len(),
        is_prefix(fbs[j].0, other),
        forall|k: int| 0 <= k < j ==> !is_prefix(#[trigger] fbs[k].0, other),
    ensures
        native_lookup(t.insert(path, func), fbs, path) == Some(func),
        native_lookup(t, fbs, other) == Some(fbs[j].1),
        native_lookup(t, fbs, path) is Some <==> (t.dom().contains(path) || exists|k: int|
            0 <= k < fbs.len() && is_prefix(#[trigger] fbs[k].0, path)),
{
    lemma_first_prefix_some(fbs, path);
    lemma_first_prefix_some(fbs.take(j), other);
    assert forall|k: int| 0 <= k < fbs.take(j).len() implies !is_prefix(#[trigger] fbs.take(j)[k].0, other) by {
        assert(fbs.take(j)[k] == fbs[k]);
    }
    assert(fbs.take(j + 1).drop_last() =~= fbs.take(j));
    assert(fbs.take(j + 1).last() == fbs[j]);
    lemma_first_prefix_extends(fbs, j + 1, other);
}

} // verus!
