//! The central algorithm: given the registry and a starting workspace,
//! computes the deterministic, deduplicated, transitively closed mapping of
//! link name to absolute destination for that workspace.
//!
//! Precedence: a workspace's own links beat everything inherited through its
//! imports; among imports, earlier-declared ones beat later ones; within one
//! import's closure, its own links beat its transitive imports, recursively.
//! The chain of keys currently being resolved is carried through the
//! recursion, and a key revisited while still on the chain is reported as a
//! cycle instead of recursing unboundedly.
//!
//! A closure reached through several import paths is recomputed per path;
//! resolution is a pure function of the registry, so a per-key cache would
//! change only the running time, never the result.

use vstd::prelude::*;

use crate::paths::{clone_strings, join, lemma_strs_view_push, spec_join, strs_view, AbsPath, AbsPathV};
use crate::project::{lemma_reg_find_some, reg_find, Project};
use crate::project_directory::{LinkV, NodeV, ProjectDirectory};

verus! {

/// One resolved link: an alias name mapped to the absolute destination it
/// should point at.
#[derive(Debug)]
pub struct ResolvedLink {
    pub name: String,
    pub destination: AbsPath,
}

/// Spec-level value of a [`ResolvedLink`].
pub struct EntryV {
    pub name: Seq<char>,
    pub destination: AbsPathV,
}

impl View for ResolvedLink {
    type V = EntryV;

    open spec fn view(&self) -> EntryV {
        EntryV { name: self.name@, destination: self.destination@ }
    }
}

impl Clone for ResolvedLink {
    fn clone(&self) -> (r: Self)
        ensures
            r@ == self@,
    {
        ResolvedLink { name: self.name.clone(), destination: self.destination.clone() }
    }
}

/// The spec-level contents of a sequence of resolved links.
pub open spec fn entries_view(s: Seq<ResolvedLink>) -> Seq<EntryV> {
    s.map_values(|e: ResolvedLink| e@)
}

/// The destination of the first entry named `name`, if any.
pub open spec fn lookup(entries: Seq<EntryV>, name: Seq<char>) -> Option<AbsPathV>
    decreases entries.len(),
{
    if entries.len() == 0 {
        None
    } else if entries[0].name == name {
        Some(entries[0].destination)
    } else {
        lookup(entries.skip(1), name)
    }
}

/// Adds `e` unless an entry with its name is already present: the first
/// writer of a name wins.
pub open spec fn insert_entry(acc: Seq<EntryV>, e: EntryV) -> Seq<EntryV> {
    if lookup(acc, e.name) is Some {
        acc
    } else {
        acc.push(e)
    }
}

/// Adds the entries of `extra`, in order, each only where its name is still
/// unbound in the accumulated set.
pub open spec fn merge(acc: Seq<EntryV>, extra: Seq<EntryV>) -> Seq<EntryV>
    decreases extra.len(),
{
    if extra.len() == 0 {
        acc
    } else {
        merge(insert_entry(acc, extra[0]), extra.skip(1))
    }
}

/// Adds a workspace's own links, in declaration order, each destination
/// resolved against the workspace's root exactly once.
pub open spec fn own_links(root: AbsPathV, links: Seq<LinkV>, acc: Seq<EntryV>) -> Seq<EntryV>
    decreases links.len(),
{
    if links.len() == 0 {
        acc
    } else {
        own_links(
            root,
            links.skip(1),
            insert_entry(
                acc,
                EntryV {
                    name: links[0].link,
                    destination: spec_join(root, links[0].destination_relative),
                },
            ),
        )
    }
}

/// A resolution failure: a cycle in the import graph, reported with the
/// chain of keys that closed it, or an import naming a workspace that is not
/// in the registry.
#[derive(Debug, PartialEq, Eq)]
pub enum ResolutionError {
    Cycle(Vec<String>),
    UnknownImport(String),
}

/// Spec-level value of a [`ResolutionError`].
pub enum ErrV {
    Cycle(Seq<Seq<char>>),
    UnknownImport(Seq<char>),
}

impl View for ResolutionError {
    type V = ErrV;

    open spec fn view(&self) -> ErrV {
        match self {
            ResolutionError::Cycle(chain) => ErrV::Cycle(strs_view(chain@)),
            ResolutionError::UnknownImport(key) => ErrV::UnknownImport(key@),
        }
    }
}

/// The chain of keys currently being resolved: no key repeats, and every key
/// on it was found in the registry.
pub open spec fn chain_wf(reg: Seq<(Seq<char>, NodeV)>, chain: Seq<Seq<char>>) -> bool {
    &&& chain.no_duplicates()
    &&& forall|i: int| 0 <= i < chain.len() ==> reg_find(reg, #[trigger] chain[i]) is Some
}

/// A well-formed chain cannot outgrow the registry: its keys are distinct
/// and each occurs in the registry.
pub proof fn lemma_chain_le_reg(reg: Seq<(Seq<char>, NodeV)>, chain: Seq<Seq<char>>)
    requires
        chain_wf(reg, chain),
    ensures
        chain.len() <= reg.len(),
{
    broadcast use vstd::seq_lib::group_seq_properties;

    let keys = reg.map_values(|p: (Seq<char>, NodeV)| p.0);
    assert forall|x: Seq<char>| chain.to_set().contains(x) implies keys.to_set().contains(x) by {
        let i = choose|i: int| 0 <= i < chain.len() && chain[i] == x;
        lemma_reg_find_some(reg, x);
        let j = choose|j: int| 0 <= j < reg.len() && reg[j].0 == x;
        assert(keys[j] == x);
    }
    chain.unique_seq_to_set();
    keys.lemma_cardinality_of_set();
    vstd::set_lib::lemma_len_subset(chain.to_set(), keys.to_set());
}

/// Pushing a fresh registry key keeps a resolution chain well formed.
pub proof fn lemma_chain_wf_push(
    reg: Seq<(Seq<char>, NodeV)>,
    chain: Seq<Seq<char>>,
    key: Seq<char>,
)
    requires
        chain_wf(reg, chain),
        !chain.contains(key),
        reg_find(reg, key) is Some,
    ensures
        chain_wf(reg, chain.push(key)),
{
    let c = chain.push(key);
    assert forall|i: int, j: int| 0 <= i < j < c.len() implies c[i] != c[j] by {
        if j == chain.len() {
            assert(c[i] == chain[i]);
        }
    }
    assert(c.no_duplicates());
    assert forall|i: int| 0 <= i < c.len() implies reg_find(reg, #[trigger] c[i]) is Some by {
        if i < chain.len() {
            assert(c[i] == chain[i]);
        }
    }
}

/// Resolves the workspace registered under `key`: a key already on the
/// active chain closes a cycle, a key absent from the registry is an unknown
/// import, and otherwise the workspace's closure is computed with `key`
/// added to the chain.
pub open spec fn resolve_one(
    reg: Seq<(Seq<char>, NodeV)>,
    key: Seq<char>,
    chain: Seq<Seq<char>>,
) -> Result<Seq<EntryV>, ErrV>
    decreases reg.len() - chain.len(), 0nat, 0nat,
        when chain_wf(reg, chain)
        via resolve_one_decreases
{
    if chain.contains(key) {
        Err(ErrV::Cycle(chain.push(key)))
    } else {
        match reg_find(reg, key) {
            Option::None => Err(ErrV::UnknownImport(key)),
            Option::Some(node) => resolve_node(reg, node, chain.push(key)),
        }
    }
}

#[via_fn]
proof fn resolve_one_decreases(reg: Seq<(Seq<char>, NodeV)>, key: Seq<char>, chain: Seq<Seq<char>>) {
    if !chain.contains(key) && reg_find(reg, key) is Some {
        lemma_chain_wf_push(reg, chain, key);
        lemma_chain_le_reg(reg, chain.push(key));
    }
}

/// The closure of one workspace: its own links first, then — in declared
/// order — everything from its imports that is not already bound.
pub open spec fn resolve_node(
    reg: Seq<(Seq<char>, NodeV)>,
    node: NodeV,
    chain: Seq<Seq<char>>,
) -> Result<Seq<EntryV>, ErrV>
    decreases reg.len() - chain.len(), 2nat, 0nat,
        when chain_wf(reg, chain)
{
    resolve_imports(reg, node.imports, chain, own_links(node.path, node.links, Seq::empty()))
}

/// Folds the closures of `imports`, in order, into `acc`; the first failure
/// aborts the whole resolution.
pub open spec fn resolve_imports(
    reg: Seq<(Seq<char>, NodeV)>,
    imports: Seq<Seq<char>>,
    chain: Seq<Seq<char>>,
    acc: Seq<EntryV>,
) -> Result<Seq<EntryV>, ErrV>
    decreases reg.len() - chain.len(), 1nat, imports.len(),
        when chain_wf(reg, chain)
{
    if imports.len() == 0 {
        Ok(acc)
    } else {
        match resolve_one(reg, imports[0], chain) {
            Result::Err(e) => Err(e),
            Result::Ok(s) => resolve_imports(reg, imports.skip(1), chain, merge(acc, s)),
        }
    }
}

/// The spec-level value of a resolution result.
pub open spec fn res_view(r: Result<ResolvedLinkSet, ResolutionError>) -> Result<Seq<EntryV>, ErrV> {
    match r {
        Result::Ok(s) => Ok(s@),
        Result::Err(e) => Err(e@),
    }
}

/// The resolved closure of one workspace: an ordered mapping from link name
/// to absolute destination, with at most one destination per name — the
/// first writer of a name wins.
#[derive(Debug)]
pub struct ResolvedLinkSet {
    entries: Vec<ResolvedLink>,
}

impl View for ResolvedLinkSet {
    type V = Seq<EntryV>;

    closed spec fn view(&self) -> Seq<EntryV> {
        entries_view(self.entries@)
    }
}

impl ResolvedLinkSet {
    /// Creates an empty set.
    pub fn new() -> (r: Self)
        ensures
            r@ == Seq::<EntryV>::empty(),
    {
        let r = ResolvedLinkSet { entries: Vec::new() };
        proof {
            assert(r@ =~= Seq::<EntryV>::empty());
        }
        r
    }

    /// The number of resolved links.
    pub fn len(&self) -> (n: usize)
        ensures
            n == self@.len(),
    {
        self.entries.len()
    }

    /// The resolved link at position `i` in resolution order.
    pub fn entry_at(&self, i: usize) -> (r: &ResolvedLink)
        requires
            i < self@.len(),
        ensures
            r@ == self@[i as int],
    {
        &self.entries[i]
    }

    /// The destination bound to `name`, if any.
    pub fn lookup(&self, name: &String) -> (r: Option<&AbsPath>)
        ensures
            match r {
                Some(d) => lookup(self@, name@) == Some(d@),
                None => lookup(self@, name@) is None,
            },
    {
        let mut i: usize = 0;
        proof {
            assert(self@.skip(0) =~= self@);
        }
        while i < self.entries.len()
            invariant
                i <= self.entries.len(),
                self@.len() == self.entries@.len(),
                lookup(self@, name@) == lookup(self@.skip(i as int), name@),
            decreases self.entries.len() - i,
        {
            proof {
                assert(self@.skip(i as int)[0] == self@[i as int]);
                assert(self@[i as int] == self.entries@[i as int]@);
                assert(self@.skip(i as int).skip(1) =~= self@.skip(i as int + 1));
            }
            if self.entries[i].name == *name {
                return Some(&self.entries[i].destination);
            }
            i = i + 1;
        }
        proof {
            assert(self@.skip(self@.len() as int) =~= Seq::<EntryV>::empty());
        }
        None
    }

    /// Binds `name` to `destination` unless `name` is already bound.
    pub fn insert_if_absent(&mut self, name: String, destination: AbsPath)
        ensures
            final(self)@ == insert_entry(
                old(self)@,
                EntryV { name: name@, destination: destination@ },
            ),
    {
        let ghost ev = EntryV { name: name@, destination: destination@ };
        let present = match self.lookup(&name) {
            Some(_) => true,
            None => false,
        };
        if !present {
            let ghost pre = self.entries@;
            self.entries.push(ResolvedLink { name, destination });
            proof {
                assert(self.entries@[pre.len() as int]@ == ev);
                assert(final(self)@ =~= old(self)@.push(ev));
            }
        }
    }

    /// Folds the entries of `other`, in order, into this set, each only
    /// where its name is still unbound.
    fn insert_all_absent(&mut self, other: &ResolvedLinkSet)
        ensures
            final(self)@ == merge(old(self)@, other@),
    {
        let ghost pre = old(self)@;
        let ghost otherv = other@;
        let mut i: usize = 0;
        proof {
            assert(otherv.skip(0) =~= otherv);
        }
        while i < other.entries.len()
            invariant
                i <= other.entries.len(),
                otherv == other@,
                otherv.len() == other.entries@.len(),
                merge(self@, otherv.skip(i as int)) == merge(pre, otherv),
            decreases other.entries.len() - i,
        {
            proof {
                assert(otherv.skip(i as int)[0] == otherv[i as int]);
                assert(otherv[i as int] == other.entries@[i as int]@);
                assert(otherv.skip(i as int).skip(1) =~= otherv.skip(i as int + 1));
            }
            let e = &other.entries[i];
            self.insert_if_absent(e.name.clone(), e.destination.clone());
            i = i + 1;
        }
        proof {
            assert(otherv.skip(otherv.len() as int) =~= Seq::<EntryV>::empty());
        }
    }
}

/// Resolves the workspace registered under `start` against the registry:
/// every resolution step, the order of the result, and each reported failure
/// follow [`resolve_one`].
pub fn resolve(project: &Project, start: &String) -> (r: Result<ResolvedLinkSet, ResolutionError>)
    ensures
        res_view(r) == resolve_one(project@, start@, Seq::<Seq<char>>::empty()),
{
    let chain: Vec<String> = Vec::new();
    proof {
        assert(strs_view(chain@) =~= Seq::<Seq<char>>::empty());
    }
    resolve_key(project, start, &chain)
}

impl ProjectDirectory {
    /// Resolves this workspace's complete link set against the registry: its
    /// own links first, then everything inherited through its imports, in
    /// declared order, transitively, without rebinding any name.
    pub fn get_links(&self, project: &Project) -> (r: Result<ResolvedLinkSet, ResolutionError>)
        ensures
            res_view(r) == resolve_node(project@, self@, Seq::<Seq<char>>::empty()),
    {
        let chain: Vec<String> = Vec::new();
        proof {
            assert(strs_view(chain@) =~= Seq::<Seq<char>>::empty());
        }
        resolve_node_exec(project, self, &chain)
    }
}

/// Resolves `key` with the active chain `chain`: the executable mirror of
/// [`resolve_one`].
fn resolve_key(project: &Project, key: &String, chain: &Vec<String>) -> (r: Result<
    ResolvedLinkSet,
    ResolutionError,
>)
    requires
        chain_wf(project@, strs_view(chain@)),
    ensures
        res_view(r) == resolve_one(project@, key@, strs_view(chain@)),
    decreases project@.len() - strs_view(chain@).len(), 0nat,
{
    let ghost reg = project@;
    let ghost chainv = strs_view(chain@);
    proof {
        lemma_chain_le_reg(reg, chainv);
    }
    let mut i: usize = 0;
    while i < chain.len()
        invariant
            i <= chain.len(),
            reg == project@,
            chainv == strs_view(chain@),
            chain_wf(reg, chainv),
            chainv.len() == chain@.len(),
            forall|j: int| 0 <= j < i ==> chainv[j] != key@,
        decreases chain.len() - i,
    {
        proof {
            assert(chainv[i as int] == chain@[i as int]@);
        }
        if chain[i] == *key {
            let mut trail = clone_strings(chain);
            let ghost pretrail = trail@;
            trail.push(key.clone());
            proof {
                lemma_strs_view_push(pretrail, trail@[pretrail.len() as int]);
                assert(strs_view(trail@) == chainv.push(key@));
                assert(chainv.contains(key@));
            }
            return Err(ResolutionError::Cycle(trail));
        }
        i = i + 1;
    }
    proof {
        assert(!chainv.contains(key@));
    }
    let found = project.find(key);
    match found {
        None => Err(ResolutionError::UnknownImport(key.clone())),
        Some(node) => {
            let mut chain2 = clone_strings(chain);
            let ghost prechain = chain2@;
            chain2.push(key.clone());
            proof {
                lemma_strs_view_push(prechain, chain2@[prechain.len() as int]);
                assert(strs_view(chain2@) == chainv.push(key@));
                lemma_chain_wf_push(reg, chainv, key@);
                lemma_chain_le_reg(reg, strs_view(chain2@));
            }
            let r = resolve_node_exec(project, node, &chain2);
            proof {
                assert(resolve_one(reg, key@, chainv) == resolve_node(reg, node@, chainv.push(key@)));
            }
            r
        },
    }
}

/// Computes the closure of `node` with the active chain `chain`: the
/// executable mirror of [`resolve_node`].
fn resolve_node_exec(project: &Project, node: &ProjectDirectory, chain: &Vec<String>) -> (r: Result<
    ResolvedLinkSet,
    ResolutionError,
>)
    requires
        chain_wf(project@, strs_view(chain@)),
    ensures
        res_view(r) == resolve_node(project@, node@, strs_view(chain@)),
    decreases project@.len() - strs_view(chain@).len(), 1nat,
{
    let ghost reg = project@;
    let ghost chainv = strs_view(chain@);
    let mut result = ResolvedLinkSet::new();
    let nl = node.num_links();
    let mut li: usize = 0;
    proof {
        assert(node@.links.skip(0) =~= node@.links);
    }
    while li < nl
        invariant
            li <= nl,
            nl == node@.links.len(),
            own_links(node@.path, node@.links.skip(li as int), result@) == own_links(
                node@.path,
                node@.links,
                Seq::<EntryV>::empty(),
            ),
        decreases nl - li,
    {
        proof {
            assert(node@.links.skip(li as int)[0] == node@.links[li as int]);
            assert(node@.links.skip(li as int).skip(1) =~= node@.links.skip(li as int + 1));
        }
        let l = node.link_at(li);
        let root = node.root_path();
        let dest = join(root, &l.destination_relative);
        result.insert_if_absent(l.link.clone(), dest);
        li = li + 1;
    }
    proof {
        assert(node@.links.skip(node@.links.len() as int) =~= Seq::<LinkV>::empty());
    }
    let ghost ownv = own_links(node@.path, node@.links, Seq::<EntryV>::empty());
    let ni = node.num_imports();
    let mut ii: usize = 0;
    proof {
        assert(node@.imports.skip(0) =~= node@.imports);
        lemma_chain_le_reg(reg, chainv);
    }
    while ii < ni
        invariant
            ii <= ni,
            ni == node@.imports.len(),
            reg == project@,
            chainv == strs_view(chain@),
            chain_wf(reg, chainv),
            chainv.len() <= reg.len(),
            ownv == own_links(node@.path, node@.links, Seq::<EntryV>::empty()),
            resolve_imports(reg, node@.imports.skip(ii as int), chainv, result@) == resolve_imports(
                reg,
                node@.imports,
                chainv,
                ownv,
            ),
        decreases ni - ii,
    {
        proof {
            assert(node@.imports.skip(ii as int)[0] == node@.imports[ii as int]);
            assert(node@.imports.skip(ii as int).skip(1) =~= node@.imports.skip(ii as int + 1));
        }
        let imp = node.import_at(ii);
        let sub = resolve_key(project, imp, chain);
        match sub {
            Err(e) => {
                return Err(e);
            },
            Ok(s) => {
                result.insert_all_absent(&s);
            },
        }
        ii = ii + 1;
    }
    proof {
        assert(node@.imports.skip(node@.imports.len() as int) =~= Seq::<Seq<char>>::empty());
    }
    Ok(result)
}

/// The destination of the first link named `name` among a workspace's own
/// declared links, still relative to that workspace's root.
pub open spec fn links_lookup(links: Seq<LinkV>, name: Seq<char>) -> Option<Seq<crate::paths::SegV>>
    decreases links.len(),
{
    if links.len() == 0 {
        None
    } else if links[0].link == name {
        Some(links[0].destination_relative)
    } else {
        links_lookup(links.skip(1), name)
    }
}

/// Looking a name up after appending an entry: an existing binding is kept,
/// otherwise the new entry answers for its own name.
proof fn lemma_lookup_push(entries: Seq<EntryV>, e: EntryV, n: Seq<char>)
    ensures
        lookup(entries.push(e), n) == (if lookup(entries, n) is Some {
            lookup(entries, n)
        } else if e.name == n {
            Some(e.destination)
        } else {
            None
        }),
    decreases entries.len(),
{
    if entries.len() == 0 {
        assert(lookup(entries, n) is None);
        assert(entries.push(e)[0] == e);
        assert(entries.push(e).skip(1) =~= Seq::<EntryV>::empty());
        assert(lookup(Seq::<EntryV>::empty(), n) is None);
        if e.name == n {
            assert(lookup(entries.push(e), n) == Some(e.destination));
        } else {
            assert(lookup(entries.push(e), n) is None);
        }
    } else {
        assert(entries.push(e)[0] == entries[0]);
        assert(entries.push(e).skip(1) =~= entries.skip(1).push(e));
        lemma_lookup_push(entries.skip(1), e, n);
        if entries[0].name == n {
            assert(lookup(entries, n) == Some(entries[0].destination));
            assert(lookup(entries.push(e), n) == Some(entries[0].destination));
        } else {
            assert(lookup(entries, n) == lookup(entries.skip(1), n));
            assert(lookup(entries.push(e), n) == lookup(entries.skip(1).push(e), n));
        }
    }
}

/// Merging never rebinds a name that is already bound.
proof fn lemma_merge_keeps(acc: Seq<EntryV>, extra: Seq<EntryV>, n: Seq<char>)
    requires
        lookup(acc, n) is Some,
    ensures
        lookup(merge(acc, extra), n) == lookup(acc, n),
    decreases extra.len(),
{
    if extra.len() > 0 {
        let acc2 = insert_entry(acc, extra[0]);
        if !(lookup(acc, extra[0].name) is Some) {
            lemma_lookup_push(acc, extra[0], n);
        }
        assert(lookup(acc2, n) == lookup(acc, n));
        lemma_merge_keeps(acc2, extra.skip(1), n);
    }
}

/// Merging binds an unbound name exactly as the merged-in set binds it.
proof fn lemma_merge_new(acc: Seq<EntryV>, extra: Seq<EntryV>, n: Seq<char>)
    requires
        lookup(acc, n) is None,
    ensures
        lookup(merge(acc, extra), n) == lookup(extra, n),
    decreases extra.len(),
{
    if extra.len() == 0 {
    } else {
        let e = extra[0];
        let acc2 = insert_entry(acc, e);
        assert(extra.skip(1).len() == extra.len() - 1);
        if e.name == n {
            assert(acc2 == acc.push(e));
            lemma_lookup_push(acc, e, n);
            assert(lookup(acc2, n) == Some(e.destination));
            lemma_merge_keeps(acc2, extra.skip(1), n);
        } else {
            if !(lookup(acc, e.name) is Some) {
                lemma_lookup_push(acc, e, n);
            }
            assert(lookup(acc2, n) is None);
            lemma_merge_new(acc2, extra.skip(1), n);
        }
    }
}

/// A workspace's own link set binds a name to its first own destination,
/// resolved against the workspace root, under anything already accumulated.
proof fn lemma_own_links_lookup(root: AbsPathV, links: Seq<LinkV>, acc: Seq<EntryV>, n: Seq<char>)
    ensures
        lookup(own_links(root, links, acc), n) == (if lookup(acc, n) is Some {
            lookup(acc, n)
        } else {
            match links_lookup(links, n) {
                Option::Some(d) => Some(spec_join(root, d)),
                Option::None => None,
            }
        }),
    decreases links.len(),
{
    if links.len() > 0 {
        let e = EntryV {
            name: links[0].link,
            destination: spec_join(root, links[0].destination_relative),
        };
        let acc2 = insert_entry(acc, e);
        if !(lookup(acc, e.name) is Some) {
            lemma_lookup_push(acc, e, n);
        }
        lemma_own_links_lookup(root, links.skip(1), acc2, n);
    }
}

/// A name bound before the imports are folded in keeps its binding in the
/// final closure.
proof fn lemma_imports_keep(
    reg: Seq<(Seq<char>, NodeV)>,
    imports: Seq<Seq<char>>,
    chain: Seq<Seq<char>>,
    acc: Seq<EntryV>,
    n: Seq<char>,
    s: Seq<EntryV>,
)
    requires
        chain_wf(reg, chain),
        resolve_imports(reg, imports, chain, acc) == Ok::<Seq<EntryV>, ErrV>(s),
        lookup(acc, n) is Some,
    ensures
        lookup(s, n) == lookup(acc, n),
    decreases imports.len(),
{
    if imports.len() > 0 {
        match resolve_one(reg, imports[0], chain) {
            Result::Ok(sub) => {
                lemma_merge_keeps(acc, sub, n);
                lemma_imports_keep(reg, imports.skip(1), chain, merge(acc, sub), n, s);
            },
            Result::Err(_) => {
                assert(false);
            },
        }
    }
}

/// A successful resolution of `key` must have passed the cycle and registry
/// checks, and its result is the closure of the found workspace.
proof fn lemma_resolve_one_ok(
    reg: Seq<(Seq<char>, NodeV)>,
    key: Seq<char>,
    chain: Seq<Seq<char>>,
    s: Seq<EntryV>,
)
    requires
        chain_wf(reg, chain),
        resolve_one(reg, key, chain) == Ok::<Seq<EntryV>, ErrV>(s),
    ensures
        !chain.contains(key),
        reg_find(reg, key) is Some,
        chain_wf(reg, chain.push(key)),
        resolve_imports(
            reg,
            reg_find(reg, key)->Some_0.imports,
            chain.push(key),
            own_links(reg_find(reg, key)->Some_0.path, reg_find(reg, key)->Some_0.links, Seq::empty()),
        ) == Ok::<Seq<EntryV>, ErrV>(s),
{
    lemma_chain_wf_push(reg, chain, key);
}

/// Precedence of own links: however a resolution of `key` succeeds, a name
/// that `key`'s workspace itself declares is bound to that workspace's own
/// first destination for it, resolved against its own root — regardless of
/// what any import also declares for the name.
pub proof fn lemma_own_link_precedence(
    reg: Seq<(Seq<char>, NodeV)>,
    key: Seq<char>,
    chain: Seq<Seq<char>>,
    n: Seq<char>,
    s: Seq<EntryV>,
)
    requires
        chain_wf(reg, chain),
        resolve_one(reg, key, chain) == Ok::<Seq<EntryV>, ErrV>(s),
        links_lookup(reg_find(reg, key)->Some_0.links, n) is Some,
    ensures
        lookup(s, n) == Some(
            spec_join(
                reg_find(reg, key)->Some_0.path,
                links_lookup(reg_find(reg, key)->Some_0.links, n)->Some_0,
            ),
        ),
{
    lemma_resolve_one_ok(reg, key, chain, s);
    let node = reg_find(reg, key)->Some_0;
    let chain2 = chain.push(key);
    let own = own_links(node.path, node.links, Seq::<EntryV>::empty());
    lemma_own_links_lookup(node.path, node.links, Seq::<EntryV>::empty(), n);
    lemma_imports_keep(reg, node.imports, chain2, own, n, s);
}

/// Unfolds a successful two-import resolution into its two closures.
proof fn lemma_imports_two(
    reg: Seq<(Seq<char>, NodeV)>,
    ka: Seq<char>,
    kb: Seq<char>,
    chain: Seq<Seq<char>>,
    acc: Seq<EntryV>,
    s: Seq<EntryV>,
)
    requires
        chain_wf(reg, chain),
        resolve_imports(reg, seq![ka, kb], chain, acc) == Ok::<Seq<EntryV>, ErrV>(s),
    ensures
        resolve_one(reg, ka, chain) is Ok,
        resolve_one(reg, kb, chain) is Ok,
        s == merge(merge(acc, resolve_one(reg, ka, chain)->Ok_0), resolve_one(reg, kb, chain)->Ok_0),
{
    reveal_with_fuel(resolve_imports, 3);
    let imp = seq![ka, kb];
    assert(imp[0] == ka);
    assert(imp.skip(1) =~= seq![kb]);
    assert(seq![kb][0] == kb);
    assert(seq![kb].skip(1) =~= Seq::<Seq<char>>::empty());
    match resolve_one(reg, ka, chain) {
        Result::Ok(sa) => {
            assert(resolve_imports(reg, imp, chain, acc) == resolve_imports(
                reg,
                seq![kb],
                chain,
                merge(acc, sa),
            ));
            match resolve_one(reg, kb, chain) {
                Result::Ok(sb) => {
                    assert(resolve_imports(reg, seq![kb], chain, merge(acc, sa))
                        == resolve_imports(
                        reg,
                        Seq::<Seq<char>>::empty(),
                        chain,
                        merge(merge(acc, sa), sb),
                    ));
                },
                Result::Err(_) => {
                    assert(false);
                },
            }
        },
        Result::Err(_) => {
            assert(false);
        },
    }
}

/// Unfolds a successful single-import resolution into its one closure.
proof fn lemma_imports_single(
    reg: Seq<(Seq<char>, NodeV)>,
    ka: Seq<char>,
    chain: Seq<Seq<char>>,
    acc: Seq<EntryV>,
    s: Seq<EntryV>,
)
    requires
        chain_wf(reg, chain),
        resolve_imports(reg, seq![ka], chain, acc) == Ok::<Seq<EntryV>, ErrV>(s),
    ensures
        resolve_one(reg, ka, chain) is Ok,
        s == merge(acc, resolve_one(reg, ka, chain)->Ok_0),
{
    reveal_with_fuel(resolve_imports, 2);
    let imp = seq![ka];
    assert(imp[0] == ka);
    assert(imp.skip(1) =~= Seq::<Seq<char>>::empty());
    match resolve_one(reg, ka, chain) {
        Result::Ok(sa) => {
            assert(resolve_imports(reg, imp, chain, acc) == resolve_imports(
                reg,
                Seq::<Seq<char>>::empty(),
                chain,
                merge(acc, sa),
            ));
        },
        Result::Err(_) => {
            assert(false);
        },
    }
}

/// Import order: when a workspace does not itself declare `n` and imports
/// exactly `[ka, kb]` in that order, a successful resolution binds `n` as
/// `ka`'s own declaration binds it — the earlier import wins over the later.
pub proof fn lemma_import_order(
    reg: Seq<(Seq<char>, NodeV)>,
    key: Seq<char>,
    ka: Seq<char>,
    kb: Seq<char>,
    chain: Seq<Seq<char>>,
    n: Seq<char>,
    s: Seq<EntryV>,
)
    requires
        chain_wf(reg, chain),
        resolve_one(reg, key, chain) == Ok::<Seq<EntryV>, ErrV>(s),
        reg_find(reg, key)->Some_0.imports == seq![ka, kb],
        links_lookup(reg_find(reg, key)->Some_0.links, n) is None,
        reg_find(reg, ka) is Some,
        links_lookup(reg_find(reg, ka)->Some_0.links, n) is Some,
    ensures
        lookup(s, n) == Some(
            spec_join(
                reg_find(reg, ka)->Some_0.path,
                links_lookup(reg_find(reg, ka)->Some_0.links, n)->Some_0,
            ),
        ),
{
    lemma_resolve_one_ok(reg, key, chain, s);
    let node = reg_find(reg, key)->Some_0;
    let chain2 = chain.push(key);
    let own = own_links(node.path, node.links, Seq::<EntryV>::empty());
    lemma_own_links_lookup(node.path, node.links, Seq::<EntryV>::empty(), n);
    assert(lookup(own, n) is None);
    lemma_imports_two(reg, ka, kb, chain2, own, s);
    let sa = resolve_one(reg, ka, chain2)->Ok_0;
    let sb = resolve_one(reg, kb, chain2)->Ok_0;
    lemma_own_link_precedence(reg, ka, chain2, n, sa);
    lemma_merge_new(own, sa, n);
    lemma_merge_keeps(merge(own, sa), sb, n);
}

/// In a successful resolution of a workspace that does not declare `n` and
/// imports exactly `[k1]`, the binding of `n` is whatever that single
/// import's closure binds it to.
proof fn lemma_single_import_lookup(
    reg: Seq<(Seq<char>, NodeV)>,
    key: Seq<char>,
    k1: Seq<char>,
    chain: Seq<Seq<char>>,
    n: Seq<char>,
    s: Seq<EntryV>,
)
    requires
        chain_wf(reg, chain),
        resolve_one(reg, key, chain) == Ok::<Seq<EntryV>, ErrV>(s),
        reg_find(reg, key)->Some_0.imports == seq![k1],
        links_lookup(reg_find(reg, key)->Some_0.links, n) is None,
    ensures
        chain_wf(reg, chain.push(key)),
        resolve_one(reg, k1, chain.push(key)) is Ok,
        lookup(s, n) == lookup(resolve_one(reg, k1, chain.push(key))->Ok_0, n),
{
    lemma_resolve_one_ok(reg, key, chain, s);
    let node = reg_find(reg, key)->Some_0;
    let chain2 = chain.push(key);
    let own = own_links(node.path, node.links, Seq::<EntryV>::empty());
    lemma_own_links_lookup(node.path, node.links, Seq::<EntryV>::empty(), n);
    assert(lookup(own, n) is None);
    lemma_imports_single(reg, k1, chain2, own, s);
    lemma_merge_new(own, resolve_one(reg, k1, chain2)->Ok_0, n);
}

/// Transitivity: when only a workspace two imports deep declares `n` — the
/// start imports exactly `[ka]`, `ka` imports exactly `[kb]`, and neither
/// the start nor `ka` declares `n` — a successful resolution of the start
/// binds `n` as `kb` declares it.
pub proof fn lemma_transitive_import(
    reg: Seq<(Seq<char>, NodeV)>,
    key: Seq<char>,
    ka: Seq<char>,
    kb: Seq<char>,
    chain: Seq<Seq<char>>,
    n: Seq<char>,
    s: Seq<EntryV>,
)
    requires
        chain_wf(reg, chain),
        resolve_one(reg, key, chain) == Ok::<Seq<EntryV>, ErrV>(s),
        reg_find(reg, key)->Some_0.imports == seq![ka],
        links_lookup(reg_find(reg, key)->Some_0.links, n) is None,
        reg_find(reg, ka) is Some,
        reg_find(reg, ka)->Some_0.imports == seq![kb],
        links_lookup(reg_find(reg, ka)->Some_0.links, n) is None,
        links_lookup(reg_find(reg, kb)->Some_0.links, n) is Some,
    ensures
        lookup(s, n) == Some(
            spec_join(
                reg_find(reg, kb)->Some_0.path,
                links_lookup(reg_find(reg, kb)->Some_0.links, n)->Some_0,
            ),
        ),
{
    lemma_single_import_lookup(reg, key, ka, chain, n, s);
    let chain2 = chain.push(key);
    let sa = resolve_one(reg, ka, chain2)->Ok_0;
    lemma_single_import_lookup(reg, ka, kb, chain2, n, sa);
    let chain3 = chain2.push(ka);
    let sb = resolve_one(reg, kb, chain3)->Ok_0;
    lemma_own_link_precedence(reg, kb, chain3, n, sb);
}

/// Cycle detection: two workspaces that import each other — and nothing
/// else — can never be resolved; resolving the first fails with the cycle
/// chain that closed back on it. The recursion itself is bounded by the
/// chain, so resolution terminates on every registry.
pub proof fn lemma_mutual_imports_cycle(reg: Seq<(Seq<char>, NodeV)>, ka: Seq<char>, kb: Seq<char>)
    requires
        reg_find(reg, ka) is Some,
        reg_find(reg, kb) is Some,
        ka != kb,
        reg_find(reg, ka)->Some_0.imports == seq![kb],
        reg_find(reg, kb)->Some_0.imports == seq![ka],
    ensures
        resolve_one(reg, ka, Seq::empty()) == Err::<Seq<EntryV>, ErrV>(
            ErrV::Cycle(seq![ka, kb, ka]),
        ),
{
    let c0 = Seq::<Seq<char>>::empty();
    assert(chain_wf(reg, c0));
    assert(!c0.contains(ka));
    lemma_chain_wf_push(reg, c0, ka);
    let c1 = c0.push(ka);
    assert(!c1.contains(kb)) by {
        assert(forall|i: int| 0 <= i < c1.len() ==> c1[i] == ka);
    }
    lemma_chain_wf_push(reg, c1, kb);
    let c2 = c1.push(kb);
    assert(c2.contains(ka)) by {
        assert(c2[0] == ka);
    }
    let impa = seq![kb];
    let impb = seq![ka];
    assert(impa[0] == kb);
    assert(impb[0] == ka);
    assert(resolve_one(reg, ka, c2) == Err::<Seq<EntryV>, ErrV>(ErrV::Cycle(c2.push(ka))));
    assert(c2.push(ka) =~= seq![ka, kb, ka]);
    assert(resolve_one(reg, kb, c1) == Err::<Seq<EntryV>, ErrV>(ErrV::Cycle(seq![ka, kb, ka])));
    assert(resolve_one(reg, ka, c0) == Err::<Seq<EntryV>, ErrV>(ErrV::Cycle(seq![ka, kb, ka])));
}

/// Unknown import: a workspace whose first import names a key absent from
/// the registry fails to resolve with exactly that key reported.
pub proof fn lemma_unknown_import(reg: Seq<(Seq<char>, NodeV)>, key: Seq<char>, missing: Seq<char>)
    requires
        reg_find(reg, key) is Some,
        reg_find(reg, key)->Some_0.imports.len() > 0,
        reg_find(reg, key)->Some_0.imports[0] == missing,
        reg_find(reg, missing) is None,
    ensures
        resolve_one(reg, key, Seq::empty()) == Err::<Seq<EntryV>, ErrV>(
            ErrV::UnknownImport(missing),
        ),
{
    let c0 = Seq::<Seq<char>>::empty();
    assert(chain_wf(reg, c0));
    assert(!c0.contains(key));
    lemma_chain_wf_push(reg, c0, key);
    let c1 = c0.push(key);
    let node = reg_find(reg, key)->Some_0;
    assert(key != missing);
    assert(!c1.contains(missing)) by {
        assert(forall|i: int| 0 <= i < c1.len() ==> c1[i] == key);
    }
    assert(resolve_one(reg, missing, c1) == Err::<Seq<EntryV>, ErrV>(
        ErrV::UnknownImport(missing),
    ));
}

/// Determinism: resolution is a pure function of the registry contents and
/// the starting key, so resolving the same registry twice yields identical
/// results — the same entries in the same order, or the same error.
pub proof fn lemma_resolution_deterministic(
    reg: Seq<(Seq<char>, NodeV)>,
    key: Seq<char>,
    r1: Result<Seq<EntryV>, ErrV>,
    r2: Result<Seq<EntryV>, ErrV>,
)
    requires
        r1 == resolve_one(reg, key, Seq::<Seq<char>>::empty()),
        r2 == resolve_one(reg, key, Seq::<Seq<char>>::empty()),
    ensures
        r1 == r2,
{
}


/// No name occurs twice among resolved entries.
pub open spec fn unique_names(s: Seq<EntryV>) -> bool {
    forall|i: int, j: int| 0 <= i < j < s.len() ==> s[i].name != s[j].name
}

/// A name that looks up to nothing is carried by no entry.
proof fn lemma_lookup_none_no_entry(entries: Seq<EntryV>, n: Seq<char>)
    requires
        lookup(entries, n) is None,
    ensures
        forall|i: int| 0 <= i < entries.len() ==> entries[i].name != n,
    decreases entries.len(),
{
    if entries.len() > 0 {
        lemma_lookup_none_no_entry(entries.skip(1), n);
        assert forall|i: int| 0 <= i < entries.len() implies entries[i].name != n by {
            if i > 0 {
                assert(entries.skip(1)[i - 1] == entries[i]);
            }
        }
    }
}

/// First-writer-wins insertion never duplicates a name.
proof fn lemma_insert_unique(acc: Seq<EntryV>, e: EntryV)
    requires
        unique_names(acc),
    ensures
        unique_names(insert_entry(acc, e)),
{
    if !(lookup(acc, e.name) is Some) {
        lemma_lookup_none_no_entry(acc, e.name);
        let r = acc.push(e);
        assert forall|i: int, j: int| 0 <= i < j < r.len() implies r[i].name != r[j].name by {
            if j < acc.len() {
                assert(r[i] == acc[i] && r[j] == acc[j]);
            } else {
                assert(r[i] == acc[i] && r[j] == e);
            }
        }
    }
}

/// Merging keeps the names unique.
proof fn lemma_merge_unique(acc: Seq<EntryV>, extra: Seq<EntryV>)
    requires
        unique_names(acc),
    ensures
        unique_names(merge(acc, extra)),
    decreases extra.len(),
{
    if extra.len() > 0 {
        lemma_insert_unique(acc, extra[0]);
        lemma_merge_unique(insert_entry(acc, extra[0]), extra.skip(1));
    }
}

/// Collecting a workspace's own links keeps the names unique.
proof fn lemma_own_links_unique(root: AbsPathV, links: Seq<LinkV>, acc: Seq<EntryV>)
    requires
        unique_names(acc),
    ensures
        unique_names(own_links(root, links, acc)),
    decreases links.len(),
{
    if links.len() > 0 {
        let e = EntryV {
            name: links[0].link,
            destination: spec_join(root, links[0].destination_relative),
        };
        lemma_insert_unique(acc, e);
        lemma_own_links_unique(root, links.skip(1), insert_entry(acc, e));
    }
}

/// Folding imports into a uniquely-named set keeps the names unique.
proof fn lemma_imports_unique(
    reg: Seq<(Seq<char>, NodeV)>,
    imports: Seq<Seq<char>>,
    chain: Seq<Seq<char>>,
    acc: Seq<EntryV>,
    s: Seq<EntryV>,
)
    requires
        chain_wf(reg, chain),
        resolve_imports(reg, imports, chain, acc) == Ok::<Seq<EntryV>, ErrV>(s),
        unique_names(acc),
    ensures
        unique_names(s),
    decreases imports.len(),
{
    if imports.len() > 0 {
        match resolve_one(reg, imports[0], chain) {
            Result::Ok(sub) => {
                lemma_merge_unique(acc, sub);
                lemma_imports_unique(reg, imports.skip(1), chain, merge(acc, sub), s);
            },
            Result::Err(_) => {
                assert(false);
            },
        }
    }
}

/// The resolved link set of any successful resolution binds each name at
/// most once: the first writer of a name wins and is never overwritten.
pub proof fn lemma_resolved_names_unique(
    reg: Seq<(Seq<char>, NodeV)>,
    key: Seq<char>,
    chain: Seq<Seq<char>>,
    s: Seq<EntryV>,
)
    requires
        chain_wf(reg, chain),
        resolve_one(reg, key, chain) == Ok::<Seq<EntryV>, ErrV>(s),
    ensures
        unique_names(s),
{
    lemma_resolve_one_ok(reg, key, chain, s);
    let node = reg_find(reg, key)->Some_0;
    assert(unique_names(Seq::<EntryV>::empty()));
    lemma_own_links_unique(node.path, node.links, Seq::<EntryV>::empty());
    lemma_imports_unique(
        reg,
        node.imports,
        chain.push(key),
        own_links(node.path, node.links, Seq::<EntryV>::empty()),
        s,
    );
}

/// A successful import fold resolved every one of its imports.
proof fn lemma_imports_all_ok(
    reg: Seq<(Seq<char>, NodeV)>,
    imports: Seq<Seq<char>>,
    chain: Seq<Seq<char>>,
    acc: Seq<EntryV>,
    s: Seq<EntryV>,
)
    requires
        chain_wf(reg, chain),
        resolve_imports(reg, imports, chain, acc) == Ok::<Seq<EntryV>, ErrV>(s),
    ensures
        forall|i: int| 0 <= i < imports.len() ==> resolve_one(reg, #[trigger] imports[i], chain) is Ok,
    decreases imports.len(),
{
    if imports.len() > 0 {
        match resolve_one(reg, imports[0], chain) {
            Result::Ok(sub) => {
                lemma_imports_all_ok(reg, imports.skip(1), chain, merge(acc, sub), s);
                assert forall|i: int|
                    0 <= i < imports.len() implies resolve_one(
                    reg,
                    #[trigger] imports[i],
                    chain,
                ) is Ok by {
                    if i > 0 {
                        assert(imports.skip(1)[i - 1] == imports[i]);
                    }
                }
            },
            Result::Err(_) => {
                assert(false);
            },
        }
    }
}

/// A workspace one of whose imports names a key absent from the registry can
/// never be resolved, whatever else it declares and wherever that import
/// stands in its list.
pub proof fn lemma_missing_import_never_resolves(
    reg: Seq<(Seq<char>, NodeV)>,
    key: Seq<char>,
    chain: Seq<Seq<char>>,
    missing: Seq<char>,
)
    requires
        chain_wf(reg, chain),
        reg_find(reg, key) is Some,
        reg_find(reg, key)->Some_0.imports.contains(missing),
        reg_find(reg, missing) is None,
    ensures
        !(resolve_one(reg, key, chain) is Ok),
{
    if resolve_one(reg, key, chain) is Ok {
        let s = resolve_one(reg, key, chain)->Ok_0;
        lemma_resolve_one_ok(reg, key, chain, s);
        let node = reg_find(reg, key)->Some_0;
        let chain2 = chain.push(key);
        lemma_imports_all_ok(
            reg,
            node.imports,
            chain2,
            own_links(node.path, node.links, Seq::<EntryV>::empty()),
            s,
        );
        let i = choose|i: int| 0 <= i < node.imports.len() && node.imports[i] == missing;
        assert(resolve_one(reg, missing, chain2) is Ok);
        assert(!(resolve_one(reg, missing, chain2) is Ok));
    }
}

/// Two workspaces that import each other — anywhere in their import lists —
/// can never be resolved, from any starting chain: the attempt always ends
/// in an error, and the recursion itself is bounded.
pub proof fn lemma_mutual_imports_never_resolve(
    reg: Seq<(Seq<char>, NodeV)>,
    ka: Seq<char>,
    kb: Seq<char>,
    chain: Seq<Seq<char>>,
)
    requires
        chain_wf(reg, chain),
        reg_find(reg, ka) is Some,
        reg_find(reg, kb) is Some,
        reg_find(reg, ka)->Some_0.imports.contains(kb),
        reg_find(reg, kb)->Some_0.imports.contains(ka),
    ensures
        !(resolve_one(reg, ka, chain) is Ok),
{
    if resolve_one(reg, ka, chain) is Ok {
        let sa = resolve_one(reg, ka, chain)->Ok_0;
        lemma_resolve_one_ok(reg, ka, chain, sa);
        let a = reg_find(reg, ka)->Some_0;
        let c1 = chain.push(ka);
        lemma_imports_all_ok(
            reg,
            a.imports,
            c1,
            own_links(a.path, a.links, Seq::<EntryV>::empty()),
            sa,
        );
        let i = choose|i: int| 0 <= i < a.imports.len() && a.imports[i] == kb;
        assert(resolve_one(reg, kb, c1) is Ok);
        let sb = resolve_one(reg, kb, c1)->Ok_0;
        lemma_resolve_one_ok(reg, kb, c1, sb);
        let b = reg_find(reg, kb)->Some_0;
        let c2 = c1.push(kb);
        lemma_imports_all_ok(
            reg,
            b.imports,
            c2,
            own_links(b.path, b.links, Seq::<EntryV>::empty()),
            sb,
        );
        let j = choose|j: int| 0 <= j < b.imports.len() && b.imports[j] == ka;
        assert(resolve_one(reg, ka, c2) is Ok);
        assert(c2.contains(ka)) by {
            assert(c2[chain.len() as int] == ka);
        }
        assert(!(resolve_one(reg, ka, c2) is Ok));
    }
}

} // verus!
