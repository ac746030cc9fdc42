//! The application's settings: the theme name and the set of watched root
//! directories. Adding and removing roots is set-like: no path is held
//! twice. Reading and writing the settings file is the caller's concern;
//! this type only holds and edits the values.
use vstd::prelude::*;
use crate::text::str_eq;

verus! {

/// One stored path equals `p`.
pub open spec fn paths_contain(v: Seq<String>, p: Seq<char>) -> bool {
    exists|k: int| 0 <= k < v.len() && (#[trigger] v[k])@ == p
}

/// The stored paths without `p`, in order.
pub open spec fn paths_without(v: Seq<String>, p: Seq<char>) -> Seq<String>
    decreases v.len(),
{
    if v.len() == 0 {
        Seq::empty()
    } else {
        let rest = paths_without(v.drop_last(), p);
        if v.last()@ == p {
            rest
        } else {
            rest.push(v.last())
        }
    }
}

/// One stored path equals `p`.
fn paths_contain_exec(v: &Vec<String>, p: &str) -> (r: bool)
    ensures
        r == paths_contain(v@, p@),
{
    let n: usize = v.len();
    let mut i: usize = 0;
    while i < n
        invariant
            n == v@.len(),
            i <= n,
            forall|k: int| 0 <= k < i ==> (#[trigger] v@[k])@ != p@,
        decreases n - i,
    {
        if str_eq(v[i].as_str(), p) {
            proof {
                assert(v@[i as int]@ == p@);
            }
            return true;
        }
        i += 1;
    }
    false
}

/// The theme preference and the watched root directories.
#[derive(Debug)]
pub struct Config {
    pub theme: Option<String>,
    pub print_paths: Option<Vec<String>>,
}

impl Clone for Config {
    /// A clone keeps the theme and the paths.
    fn clone(&self) -> (r: Self)
        ensures
            r.theme is Some <==> self.theme is Some,
            (self.theme matches Some(t) ==> r.theme matches Some(u) && u@ == t@),
            r.print_paths is Some <==> self.print_paths is Some,
            (self.print_paths matches Some(v) ==> r.print_paths matches Some(w) && w@ == v@),
    {
        let theme = match &self.theme {
            Some(t) => Some(t.clone()),
            None => None,
        };
        let print_paths = match &self.print_paths {
            Some(v) => {
                let mut w: Vec<String> = Vec::new();
                let n: usize = v.len();
                let mut i: usize = 0;
                while i < n
                    invariant
                        n == v@.len(),
                        i <= n,
                        w@ == v@.take(i as int),
                    decreases n - i,
                {
                    w.push(v[i].clone());
                    proof {
                        assert(w@ =~= v@.take(i + 1));
                    }
                    i += 1;
                }
                proof {
                    assert(v@.take(n as int) =~= v@);
                }
                Some(w)
            },
            None => None,
        };
        Config { theme, print_paths }
    }
}

impl Config {
    /// A configuration with no theme preference and no watched roots.
    pub fn new() -> (r: Config)
        ensures
            r.theme is None,
            r.print_paths is None,
    {
        Config { theme: None, print_paths: None }
    }

    /// Remembers the chosen theme by name.
    pub fn set_theme(&mut self, theme: String)
        ensures
            final(self).theme matches Some(t) && t@ == theme@,
            final(self).print_paths == old(self).print_paths,
    {
        self.theme = Some(theme);
    }

    /// Adds a watched root directory. The roots are a set: a path that is
    /// already watched is not added twice.
    pub fn add_print_path(&mut self, path: &str)
        ensures
            final(self).theme == old(self).theme,
            final(self).print_paths matches Some(v) && {
                &&& paths_contain(v@, path@)
                &&& (match old(self).print_paths {
                    None => v@.len() == 1 && v@[0]@ == path@,
                    Some(w) => {
                        &&& (paths_contain(w@, path@) ==> v@ == w@)
                        &&& (!paths_contain(w@, path@) ==> v@.len() == w@.len() + 1 && v@.take(
                            w@.len() as int,
                        ) == w@ && v@.last()@ == path@)
                    },
                })
            },
    {
        let already = match &self.print_paths {
            Some(v) => paths_contain_exec(v, path),
            None => false,
        };
        if already {
            return ;
        }
        match &mut self.print_paths {
            Some(v) => {
                let owned = path.to_owned();
                v.push(owned);
                proof {
                    assert(v@.take(v@.len() - 1) =~= old(self).print_paths->0@);
                    assert(paths_contain(v@, path@)) by {
                        assert(v@[v@.len() - 1]@ == path@);
                    }
                }
            },
            None => {
                let mut v: Vec<String> = Vec::new();
                v.push(path.to_owned());
                self.print_paths = Some(v);
                proof {
                    assert(paths_contain(self.print_paths->0@, path@)) by {
                        assert(self.print_paths->0@[0]@ == path@);
                    }
                }
            },
        }
    }

    /// Stops watching a root directory: every stored path equal to the
    /// given one is removed.
    pub fn remove_print_path(&mut self, path: &str)
        ensures
            final(self).theme == old(self).theme,
            match old(self).print_paths {
                None => final(self).print_paths is None,
                Some(w) => final(self).print_paths matches Some(v) && v@ == paths_without(
                    w@,
                    path@,
                ) && !paths_contain(v@, path@),
            },
    {
        match &self.print_paths {
            Some(w) => {
                let n: usize = w.len();
                let mut v: Vec<String> = Vec::new();
                let mut i: usize = 0;
                while i < n
                    invariant
                        n == w@.len(),
                        i <= n,
                        v@ == paths_without(w@.take(i as int), path@),
                        forall|k: int| 0 <= k < v@.len() ==> (#[trigger] v@[k])@ != path@,
                    decreases n - i,
                {
                    proof {
                        assert(w@.take(i + 1).drop_last() =~= w@.take(i as int));
                        assert(w@.take(i + 1).last() == w@[i as int]);
                    }
                    if !str_eq(w[i].as_str(), path) {
                        v.push(w[i].clone());
                    }
                    i += 1;
                }
                proof {
                    assert(w@.take(n as int) =~= w@);
                }
                self.print_paths = Some(v);
            },
            None => {},
        }
    }

    /// No root directory is watched: the list is absent or empty. (The
    /// caller shows its first-run hint when this holds.)
    pub fn print_path_empty_or_none(&mut self) -> (r: bool)
        ensures
            *final(self) == *old(self),
            r == match old(self).print_paths {
                None => true,
                Some(v) => v@.len() == 0,
            },
    {
        match &self.print_paths {
            None => true,
            Some(v) => v.len() == 0,
        }
    }
}

} // verus!
