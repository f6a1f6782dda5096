//! The registry of all discovered workspaces, keyed by their path relative
//! to the project root. It is kept as an insertion-ordered sequence of
//! key/workspace pairs with unique keys, so that iteration — and everything
//! computed from it — is deterministic.

use vstd::prelude::*;

use crate::paths::AbsPath;
use crate::project_directory::{NodeV, ProjectDirectory};

verus! {

/// The spec-level contents of the registry: key/workspace pairs in
/// registration order.
pub open spec fn dirs_view(s: Seq<(String, ProjectDirectory)>) -> Seq<(Seq<char>, NodeV)> {
    s.map_values(|p: (String, ProjectDirectory)| (p.0@, p.1@))
}

/// The first workspace registered under `key`, if any.
pub open spec fn reg_find(reg: Seq<(Seq<char>, NodeV)>, key: Seq<char>) -> Option<NodeV>
    decreases reg.len(),
{
    if reg.len() == 0 {
        None
    } else if reg[0].0 == key {
        Some(reg[0].1)
    } else {
        reg_find(reg.skip(1), key)
    }
}

/// A registry holds `key` exactly when one of its entries carries it.
pub proof fn lemma_reg_find_some(reg: Seq<(Seq<char>, NodeV)>, key: Seq<char>)
    ensures
        reg_find(reg, key).is_some() <==> exists|i: int| 0 <= i < reg.len() && reg[i].0 == key,
    decreases reg.len(),
{
    if reg.len() > 0 {
        lemma_reg_find_some(reg.skip(1), key);
        if reg[0].0 != key && reg_find(reg, key).is_some() {
            let i = choose|i: int| 0 <= i < reg.skip(1).len() && reg.skip(1)[i].0 == key;
            assert(reg[i + 1].0 == key);
        }
        if exists|i: int| 0 <= i < reg.len() && reg[i].0 == key {
            let i = choose|i: int| 0 <= i < reg.len() && reg[i].0 == key;
            if reg[0].0 != key {
                assert(reg.skip(1)[i - 1].0 == key);
            }
        }
    }
}

/// The registry after registering `node` under `key`: the first entry
/// already carrying `key` is replaced, otherwise the new entry is appended.
pub open spec fn reg_put(
    reg: Seq<(Seq<char>, NodeV)>,
    key: Seq<char>,
    node: NodeV,
) -> Seq<(Seq<char>, NodeV)>
    decreases reg.len(),
{
    if reg.len() == 0 {
        seq![(key, node)]
    } else if reg[0].0 == key {
        seq![(key, node)] + reg.skip(1)
    } else {
        seq![reg[0]] + reg_put(reg.skip(1), key, node)
    }
}

/// The project: every discovered workspace, keyed by its path relative to
/// the project root, together with that root. Built once during discovery
/// and read-only during resolution.
pub struct Project {
    dirs: Vec<(String, ProjectDirectory)>,
    project_path: AbsPath,
}

impl View for Project {
    type V = Seq<(Seq<char>, NodeV)>;

    closed spec fn view(&self) -> Seq<(Seq<char>, NodeV)> {
        dirs_view(self.dirs@)
    }
}

impl Project {
    /// Keys are unique: registering a workspace under an existing key
    /// replaces that entry, so a key never occurs twice.
    pub open spec fn wf(&self) -> bool {
        forall|i: int, j: int| 0 <= i < j < self@.len() ==> self@[i].0 != self@[j].0
    }

    /// The absolute root path of the whole project.
    pub closed spec fn spec_path(&self) -> crate::paths::AbsPathV {
        self.project_path@
    }

    /// Creates an empty registry for the project rooted at `project_path`.
    pub fn new(project_path: AbsPath) -> (r: Self)
        ensures
            r@ == Seq::<(Seq<char>, NodeV)>::empty(),
            r.wf(),
            r.spec_path() == project_path@,
    {
        let r = Project { dirs: Vec::new(), project_path };
        proof {
            assert(r@ =~= Seq::<(Seq<char>, NodeV)>::empty());
        }
        r
    }

    /// The absolute root path of the whole project.
    pub fn project_path(&self) -> (r: &AbsPath)
        ensures
            r@ == self.spec_path(),
    {
        &self.project_path
    }

    /// Registers `dir` under `key`. A workspace already registered under the
    /// same key is replaced — the last registration wins, deterministically.
    pub fn add_directory(&mut self, key: String, dir: ProjectDirectory)
        requires
            old(self).wf(),
        ensures
            final(self).wf(),
            final(self).spec_path() == old(self).spec_path(),
            final(self)@ == reg_put(old(self)@, key@, dir@),
            reg_find(final(self)@, key@) == Some(dir@),
    {
        let ghost prev = self@;
        let ghost keyv = key@;
        let ghost dirv = dir@;
        let mut i: usize = 0;
        proof {
            assert(prev.take(0) + reg_put(prev.skip(0), keyv, dirv) =~= reg_put(
                prev.skip(0),
                keyv,
                dirv,
            ));
            assert(prev.skip(0) =~= prev);
        }
        while i < self.dirs.len()
            invariant
                i <= self.dirs.len(),
                self@ == prev,
                prev == old(self)@,
                self.spec_path() == old(self).spec_path(),
                keyv == key@,
                dirv == dir@,
                self.wf(),
                self@.len() == self.dirs@.len(),
                forall|j: int| 0 <= j < i ==> self@[j].0 != keyv,
                reg_put(prev, keyv, dirv) == prev.take(i as int) + reg_put(
                    prev.skip(i as int),
                    keyv,
                    dirv,
                ),
            decreases self.dirs.len() - i,
        {
            proof {
                assert(self@[i as int].0 == self.dirs@[i as int].0@);
                assert(prev.skip(i as int)[0] == prev[i as int]);
            }
            if self.dirs[i].0 == key {
                let ghost gi = i as int;
                let ghost predirs = self.dirs@;
                self.dirs.set(i, (key, dir));
                proof {
                    assert(self.dirs@ == predirs.update(gi, self.dirs@[gi]));
                    assert(self.dirs@[gi].0@ == keyv);
                    assert(self.dirs@[gi].1@ == dirv);
                    assert forall|j: int| 0 <= j < self@.len() implies self@[j] == prev.update(
                        gi,
                        (keyv, dirv),
                    )[j] by {
                        assert(self@[j] == (self.dirs@[j].0@, self.dirs@[j].1@));
                        assert(prev[j] == (predirs[j].0@, predirs[j].1@));
                    }
                    assert(self@ =~= prev.update(gi, (keyv, dirv)));
                    assert(reg_put(prev.skip(gi), keyv, dirv) == seq![(keyv, dirv)] + prev.skip(
                        gi,
                    ).skip(1));
                    assert(prev.skip(gi).skip(1) =~= prev.skip(gi + 1));
                    assert(prev.take(gi) + (seq![(keyv, dirv)] + prev.skip(gi + 1)) =~= prev.update(
                        gi,
                        (keyv, dirv),
                    ));
                    assert(self@ == reg_put(prev, keyv, dirv));
                    lemma_find_first(self@, keyv, gi);
                }
                return ;
            }
            proof {
                assert(prev.skip(i as int).skip(1) =~= prev.skip(i as int + 1));
                assert(reg_put(prev.skip(i as int), keyv, dirv) == seq![prev[i as int]] + reg_put(
                    prev.skip(i as int + 1),
                    keyv,
                    dirv,
                ));
                assert(prev.take(i as int) + (seq![prev[i as int]] + reg_put(
                    prev.skip(i as int + 1),
                    keyv,
                    dirv,
                )) =~= prev.take(i as int + 1) + reg_put(prev.skip(i as int + 1), keyv, dirv));
            }
            i = i + 1;
        }
        let ghost gn = self.dirs@.len() as int;
        let ghost predirs = self.dirs@;
        self.dirs.push((key, dir));
        proof {
            assert(self.dirs@ == predirs.push(self.dirs@[gn]));
            assert(self.dirs@[gn].0@ == keyv);
            assert(self.dirs@[gn].1@ == dirv);
            assert forall|j: int| 0 <= j < self@.len() implies self@[j] == prev.push(
                (keyv, dirv),
            )[j] by {
                assert(self@[j] == (self.dirs@[j].0@, self.dirs@[j].1@));
                if j < gn {
                    assert(prev[j] == (predirs[j].0@, predirs[j].1@));
                }
            }
            assert(self@ =~= prev.push((keyv, dirv)));
            assert(prev.skip(gn) =~= Seq::<(Seq<char>, NodeV)>::empty());
            assert(reg_put(prev.skip(gn), keyv, dirv) == seq![(keyv, dirv)]);
            assert(prev.take(gn) + seq![(keyv, dirv)] =~= prev.push((keyv, dirv)));
            assert(self@ == reg_put(prev, keyv, dirv));
            lemma_find_first(self@, keyv, gn);
        }
    }

    /// The number of registered workspaces.
    pub fn num_dirs(&self) -> (n: usize)
        ensures
            n == self@.len(),
    {
        self.dirs.len()
    }

    /// The registry key at position `i` in registration order.
    pub fn key_at(&self, i: usize) -> (r: &String)
        requires
            i < self@.len(),
        ensures
            r@ == self@[i as int].0,
    {
        &self.dirs[i].0
    }

    /// The workspace at position `i` in registration order.
    pub fn dir_at(&self, i: usize) -> (r: &ProjectDirectory)
        requires
            i < self@.len(),
        ensures
            r@ == self@[i as int].1,
    {
        &self.dirs[i].1
    }

    /// Looks up the first workspace registered under `key`.
    pub fn find(&self, key: &String) -> (r: Option<&ProjectDirectory>)
        ensures
            match r {
                Some(d) => reg_find(self@, key@) == Some(d@),
                None => reg_find(self@, key@) is None,
            },
    {
        let mut i: usize = 0;
        proof {
            assert(self@.skip(0) =~= self@);
        }
        while i < self.dirs.len()
            invariant
                i <= self.dirs.len(),
                self@.len() == self.dirs@.len(),
                reg_find(self@, key@) == reg_find(self@.skip(i as int), key@),
            decreases self.dirs.len() - i,
        {
            proof {
                assert(self@.skip(i as int)[0] == self@[i as int]);
                assert(self@[i as int].0 == self.dirs@[i as int].0@);
                assert(self@.skip(i as int).skip(1) =~= self@.skip(i as int + 1));
            }
            if self.dirs[i].0 == *key {
                return Some(&self.dirs[i].1);
            }
            i = i + 1;
        }
        proof {
            assert(self@.skip(self@.len() as int) =~= Seq::<(Seq<char>, NodeV)>::empty());
        }
        None
    }
}

/// In a registry whose keys are unique up to `at`, finding `key` — held by
/// the entry at `at` and by no earlier one — yields exactly that entry.
proof fn lemma_find_first(reg: Seq<(Seq<char>, NodeV)>, key: Seq<char>, at: int)
    requires
        0 <= at < reg.len(),
        reg[at].0 == key,
        forall|j: int| 0 <= j < at ==> reg[j].0 != key,
    ensures
        reg_find(reg, key) == Some(reg[at].1),
    decreases at,
{
    if at == 0 {
    } else {
        assert(reg.skip(1)[at - 1] == reg[at]);
        assert(forall|j: int| 0 <= j < at - 1 ==> reg.skip(1)[j] == reg[j + 1]);
        lemma_find_first(reg.skip(1), key, at - 1);
    }
}

} // verus!
