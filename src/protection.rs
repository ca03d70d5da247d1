//! Protected folders, looked up by the longest folder that contains a path.

use vstd::prelude::*;
use crate::text::{chars_of, has_any_infix, lower_of, lowercase};
use crate::classify::{is_system_path, system_words};

verus! {

/// How strongly a folder is protected.
#[derive(Clone, Copy, Debug, PartialEq, Eq, Structural)]
pub enum ProtectionType {
    /// Never scanned or touched.
    Hard,
    /// Scanned, but every action in it asks first.
    Soft,
}

/// A folder under protection.
#[derive(Clone, Debug)]
pub struct ProtectedFolder {
    pub path: String,
    pub protection_type: ProtectionType,
}

/// Where cleaned files go by default.
#[derive(Clone, Copy, Debug, PartialEq, Eq, Structural)]
pub enum CleanupAction {
    RecycleBin,
    Archive,
}

/// The settings that the scanner and the archive consult.
#[derive(Clone, Debug)]
pub struct Config {
    pub default_action: CleanupAction,
    pub protected_folders: Vec<ProtectedFolder>,
}

/// `p` is a prefix of `s`.
pub open spec fn has_prefix(s: Seq<char>, p: Seq<char>) -> bool {
    p.len() <= s.len() && s.subrange(0, p.len() as int) =~= p
}

/// `path` is the folder `dir` or lies inside it, component by component.
pub open spec fn path_under(path: Seq<char>, dir: Seq<char>) -> bool {
    path =~= dir || (has_prefix(path, dir) && (
        (dir.len() > 0 && dir.last() == '/') || path[dir.len() as int] == '/'))
}

/// Folder `k` of `folders` contains `path`.
pub open spec fn covers(folders: Seq<ProtectedFolder>, path: Seq<char>, k: int) -> bool {
    0 <= k < folders.len() && path_under(path, folders[k].path@)
}

/// Folder `k` is the one that protects `path`: it contains the path, no other
/// folder that contains it is longer, and none before it is as long.
pub open spec fn protects(folders: Seq<ProtectedFolder>, path: Seq<char>, k: int) -> bool {
    &&& covers(folders, path, k)
    &&& forall|j: int| #[trigger] covers(folders, path, j) ==> folders[j].path@.len() <= folders[k].path@.len()
    &&& forall|j: int| 0 <= j < k && #[trigger] covers(folders, path, j) ==> folders[j].path@.len() < folders[k].path@.len()
}

fn starts_with_chars(s: &Vec<char>, p: &Vec<char>) -> (r: bool)
    ensures
        r == has_prefix(s@, p@),
{
    if p.len() > s.len() {
        return false;
    }
    let mut i: usize = 0;
    while i < p.len()
        invariant
            p@.len() <= s@.len(),
            i <= p@.len(),
            forall|t: int| 0 <= t < i ==> s@[t] == p@[t],
        decreases p@.len() - i,
    {
        if s[i] != p[i] {
            assert(s@.subrange(0, p@.len() as int)[i as int] != p@[i as int]);
            return false;
        }
        i += 1;
    }
    assert(s@.subrange(0, p@.len() as int) =~= p@);
    true
}

fn is_under(path: &Vec<char>, dir: &Vec<char>) -> (r: bool)
    ensures
        r == path_under(path@, dir@),
{
    if path.len() == dir.len() && starts_with_chars(path, dir) {
        assert(path@ =~= path@.subrange(0, dir@.len() as int));
        return true;
    }
    if !starts_with_chars(path, dir) {
        return false;
    }
    if dir.len() > 0 && dir[dir.len() - 1] == '/' {
        return true;
    }
    if dir.len() < path.len() {
        path[dir.len()] == '/'
    } else {
        false
    }
}

/// At most one folder protects a path.
pub proof fn lemma_protects_unique(folders: Seq<ProtectedFolder>, path: Seq<char>, a: int, b: int)
    requires
        protects(folders, path, a),
        protects(folders, path, b),
    ensures
        a == b,
{
    if a < b {
        assert(folders[a].path@.len() < folders[b].path@.len());
    } else if b < a {
        assert(folders[b].path@.len() < folders[a].path@.len());
    }
}

/// The protection of `path`: that of the folder that protects it, if any.
pub open spec fn protection_of(config: Config, path: Seq<char>) -> Option<ProtectionType> {
    if exists|k: int| protects(config.protected_folders@, path, k) {
        Some(config.protected_folders@[choose|k: int| protects(config.protected_folders@, path, k)].protection_type)
    } else {
        None
    }
}

impl Config {
    /// Whether `path` names a system location, which is never scanned or touched.
    pub fn is_system_path(path: &str) -> (r: bool)
        ensures
            r == has_any_infix(lower_of(path@), system_words()),
    {
        let lp = lowercase(path);
        is_system_path(&chars_of(lp.as_str()))
    }

    /// The protection of `path`, if a folder protects it.
    pub fn protection(&self, path: &str) -> (r: Option<ProtectionType>)
        ensures
            r == protection_of(*self, path@),
    {
        match self.is_protected(path) {
            Some(f) => {
                proof {
                    let fs = self.protected_folders@;
                    let k = choose|k: int| protects(fs, path@, k) && *f == fs[k];
                    let c = choose|k: int| protects(fs, path@, k);
                    lemma_protects_unique(fs, path@, k, c);
                }
                Some(f.protection_type)
            },
            None => {
                assert(!exists|k: int| protects(self.protected_folders@, path@, k));
                None
            },
        }
    }

    /// The protected folder that governs `path`: of the folders that contain
    /// it, the longest (the first such where two are as long).
    pub fn is_protected(&self, path: &str) -> (r: Option<&ProtectedFolder>)
        ensures
            match r {
                Some(f) => exists|k: int| protects(self.protected_folders@, path@, k)
                    && *f == self.protected_folders@[k],
                None => forall|k: int| !covers(self.protected_folders@, path@, k),
            },
    {
        let fs = &self.protected_folders;
        let p = chars_of(path);
        let mut best: Option<usize> = None;
        let mut i: usize = 0;
        while i < fs.len()
            invariant
                p@ == path@,
                i <= fs@.len(),
                match best {
                    Some(b) => b < i && covers(fs@, path@, b as int)
                        && (forall|j: int| 0 <= j < i && #[trigger] covers(fs@, path@, j)
                            ==> fs@[j].path@.len() <= fs@[b as int].path@.len())
                        && (forall|j: int| 0 <= j < b && #[trigger] covers(fs@, path@, j)
                            ==> fs@[j].path@.len() < fs@[b as int].path@.len()),
                    None => forall|j: int| 0 <= j < i ==> !covers(fs@, path@, j),
                },
            decreases fs@.len() - i,
        {
            let d = chars_of(fs[i].path.as_str());
            if is_under(&p, &d) {
                match best {
                    Some(b) => {
                        if fs[i].path.unicode_len() > fs[b].path.unicode_len() {
                            best = Some(i);
                        }
                    },
                    None => {
                        best = Some(i);
                    },
                }
            }
            i += 1;
        }
        match best {
            Some(b) => {
                assert(protects(fs@, path@, b as int));
                Some(&fs[b])
            },
            None => None,
        }
    }
}

} // verus!
