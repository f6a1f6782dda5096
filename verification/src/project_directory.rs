//! The data model of one workspace: its absolute root path, its own declared
//! links and its declared imports of other workspaces, both in declaration
//! order. Order is semantically significant for resolution precedence, so
//! links and imports are kept as insertion-ordered sequences.

use vstd::prelude::*;

use crate::paths::{strs_view, AbsPath, AbsPathV, RelPath, SegV};

verus! {

/// One declared link: an alias name and its destination, relative to the
/// root of the workspace that declares it.
pub struct Link {
    pub link: String,
    pub destination_relative: RelPath,
}

/// Spec-level value of a [`Link`].
pub struct LinkV {
    pub link: Seq<char>,
    pub destination_relative: Seq<SegV>,
}

impl View for Link {
    type V = LinkV;

    open spec fn view(&self) -> LinkV {
        LinkV { link: self.link@, destination_relative: self.destination_relative@ }
    }
}

/// The spec-level contents of a sequence of links.
pub open spec fn links_view(s: Seq<Link>) -> Seq<LinkV> {
    s.map_values(|l: Link| l@)
}

pub proof fn lemma_links_view_push(s: Seq<Link>, x: Link)
    ensures
        links_view(s.push(x)) == links_view(s).push(x@),
{
    assert(links_view(s.push(x)) =~= links_view(s).push(x@));
}

/// Spec-level value of a [`ProjectDirectory`]: its absolute root, its own
/// links in declaration order, and its imports in declaration order.
pub struct NodeV {
    pub path: AbsPathV,
    pub links: Seq<LinkV>,
    pub imports: Seq<Seq<char>>,
}

/// One workspace of the project: a directory with an absolute root path, an
/// ordered list of declared links, and an ordered list of imports naming
/// other workspaces by their registry key.
pub struct ProjectDirectory {
    pub path: AbsPath,
    links: Vec<Link>,
    imports: Vec<String>,
}

impl View for ProjectDirectory {
    type V = NodeV;

    closed spec fn view(&self) -> NodeV {
        NodeV { path: self.path@, links: links_view(self.links@), imports: strs_view(self.imports@) }
    }
}

impl ProjectDirectory {
    /// Creates a workspace rooted at `path`, with no links and no imports.
    pub fn new(path: AbsPath) -> (r: Self)
        ensures
            r@.path == path@,
            r@.links == Seq::<LinkV>::empty(),
            r@.imports == Seq::<Seq<char>>::empty(),
    {
        let r = ProjectDirectory { path, links: Vec::new(), imports: Vec::new() };
        proof {
            assert(r@.links =~= Seq::<LinkV>::empty());
            assert(r@.imports =~= Seq::<Seq<char>>::empty());
        }
        r
    }

    /// Appends an import of the workspace registered under `import`, after
    /// every import declared so far.
    pub fn add_import(&mut self, import: &String)
        ensures
            final(self)@.path == old(self)@.path,
            final(self)@.links == old(self)@.links,
            final(self)@.imports == old(self)@.imports.push(import@),
    {
        let ghost pre = self.imports@;
        self.imports.push(import.clone());
        proof {
            crate::paths::lemma_strs_view_push(pre, self.imports@[pre.len() as int]);
            assert(final(self)@.imports =~= old(self)@.imports.push(import@));
        }
    }

    /// Appends a link named `link` whose destination is
    /// `destination_relative`, resolved against this workspace's root, after
    /// every link declared so far.
    pub fn add_link(&mut self, link: String, destination_relative: RelPath)
        ensures
            final(self)@.path == old(self)@.path,
            final(self)@.imports == old(self)@.imports,
            final(self)@.links == old(self)@.links.push(
                LinkV { link: link@, destination_relative: destination_relative@ },
            ),
    {
        let ghost pre = self.links@;
        let entry = Link { link, destination_relative };
        let ghost entryv = entry@;
        self.links.push(entry);
        proof {
            lemma_links_view_push(pre, self.links@[pre.len() as int]);
            assert(final(self)@.links =~= old(self)@.links.push(entryv));
        }
    }

    /// The absolute root path of this workspace.
    pub fn root_path(&self) -> (r: &AbsPath)
        ensures
            r@ == self@.path,
    {
        &self.path
    }

    /// The number of links declared by this workspace itself.
    pub fn num_links(&self) -> (n: usize)
        ensures
            n == self@.links.len(),
    {
        self.links.len()
    }

    /// The link at position `i` in declaration order.
    pub fn link_at(&self, i: usize) -> (r: &Link)
        requires
            i < self@.links.len(),
        ensures
            r@ == self@.links[i as int],
    {
        &self.links[i]
    }

    /// The number of imports declared by this workspace.
    pub fn num_imports(&self) -> (n: usize)
        ensures
            n == self@.imports.len(),
    {
        self.imports.len()
    }

    /// The import key at position `i` in declaration order.
    pub fn import_at(&self, i: usize) -> (r: &String)
        requires
            i < self@.imports.len(),
        ensures
            r@ == self@.imports[i as int],
    {
        &self.imports[i]
    }
}

} // verus!
