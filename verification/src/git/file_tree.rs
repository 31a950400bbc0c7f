//! Directories read from disk, and the tree objects they make.

use crate::error::GitError;
use crate::git::any_git_object::{AnyGitObject, ObjectView};
use crate::git::git_blob::Blob;
use crate::git::git_object_trait::{framed, GitObject, GitObjectType};
use crate::git::git_tree::{
    entries_of, sorted_entries, spec_encode_entries, FileMode, Tree, TreeEntry, TreeEntryView,
};
use crate::sha::{digest_limit, sha1_of};
use vstd::prelude::*;

verus! {

/// A directory: what it holds.
#[derive(Debug)]
pub struct FileTree {
    pub entries: Vec<FileTreeNode>,
}

/// One thing in a directory.
#[derive(Debug)]
pub enum FileTreeNode {
    File { name: String, mode: FileMode, content: Vec<u8> },
    Directory { name: String, tree: FileTree },
}

/// What a thing in a directory means.
pub enum NodeView {
    File { name: Seq<char>, mode: FileMode, content: Seq<u8> },
    Directory { name: Seq<char>, tree: Seq<NodeView> },
}

/// The meaning of the first `n` nodes.
pub open spec fn nodes_view(v: Seq<FileTreeNode>, n: int) -> Seq<NodeView>
    decreases v, n,
{
    if n <= 0 || n > v.len() {
        Seq::empty()
    } else {
        nodes_view(v, n - 1).push(node_view(v[n - 1]))
    }
}

/// The meaning of a node.
pub open spec fn node_view(node: FileTreeNode) -> NodeView
    decreases node,
{
    match node {
        FileTreeNode::File { name, mode, content } => NodeView::File {
            name: name@,
            mode,
            content: content@,
        },
        FileTreeNode::Directory { name, tree } => NodeView::Directory {
            name: name@,
            tree: nodes_view(tree.entries@, tree.entries@.len() as int),
        },
    }
}

impl View for FileTree {
    type V = Seq<NodeView>;

    open spec fn view(&self) -> Seq<NodeView> {
        nodes_view(self.entries@, self.entries@.len() as int)
    }
}

/// The meaning of each object of a list.
pub open spec fn object_views(v: Seq<AnyGitObject>) -> Seq<ObjectView> {
    Seq::new(v.len(), |i: int| v[i]@)
}

/// The tree entry for an object under a name, where the object is short
/// enough to digest: its hash is the identity of the object.
pub open spec fn spec_entry(t: GitObjectType, body: Seq<u8>, name: Seq<char>, mode: FileMode) -> Result<
    TreeEntryView,
    GitError,
> {
    if framed(t, body).len() >= digest_limit() {
        Err(GitError::TooLarge)
    } else {
        Ok(TreeEntryView { mode, name, hash: sha1_of(framed(t, body)) })
    }
}

/// The tree entry for a node: a file is a blob of its content, a directory
/// the tree of what it holds.
pub open spec fn spec_node_entry(node: NodeView) -> Result<TreeEntryView, GitError>
    decreases node,
{
    match node {
        NodeView::File { name, mode, content } => spec_entry(GitObjectType::Blob, content, name, mode),
        NodeView::Directory { name, tree } => match spec_tree_entries(tree) {
            Err(e) => Err(e),
            Ok(es) => spec_entry(
                GitObjectType::Tree,
                spec_encode_entries(es),
                name,
                FileMode::Directory,
            ),
        },
    }
}

/// The tree entries for the first `n` nodes, in the order of the nodes.
pub open spec fn spec_unsorted(nodes: Seq<NodeView>, n: int) -> Result<Seq<TreeEntryView>, GitError>
    decreases nodes, n,
{
    if n <= 0 || n > nodes.len() {
        Ok(Seq::empty())
    } else {
        match spec_unsorted(nodes, n - 1) {
            Err(e) => Err(e),
            Ok(es) => match spec_node_entry(nodes[n - 1]) {
                Err(e) => Err(e),
                Ok(entry) => Ok(es.push(entry)),
            },
        }
    }
}

/// The entries of the tree of a directory: one for each node, in the order
/// of their names.
pub open spec fn spec_tree_entries(nodes: Seq<NodeView>) -> Result<Seq<TreeEntryView>, GitError>
    decreases nodes, nodes.len() + 1,
{
    match spec_unsorted(nodes, nodes.len() as int) {
        Err(e) => Err(e),
        Ok(es) => Ok(sorted_entries(es)),
    }
}

/// The objects that the first `n` nodes make: for a file its blob, for a
/// directory the objects of what it holds and then its tree.
pub open spec fn spec_node_objects(nodes: Seq<NodeView>, n: int) -> Seq<ObjectView>
    decreases nodes, n,
{
    if n <= 0 || n > nodes.len() {
        Seq::empty()
    } else {
        spec_node_objects(nodes, n - 1) + (match nodes[n - 1] {
            NodeView::File { name, mode, content } => seq![ObjectView::Blob(content)],
            NodeView::Directory { name, tree } => spec_tree_objects(tree),
        })
    }
}

/// The objects that a directory makes: those of its nodes, then its tree.
pub open spec fn spec_tree_objects(nodes: Seq<NodeView>) -> Seq<ObjectView>
    decreases nodes, nodes.len() + 1,
{
    match spec_tree_entries(nodes) {
        Ok(es) => spec_node_objects(nodes, nodes.len() as int) + seq![ObjectView::Tree(es)],
        Err(e) => spec_node_objects(nodes, nodes.len() as int),
    }
}

/// The object that a node makes by itself: a file a blob of its content, a
/// directory the tree of what it holds.
pub open spec fn spec_generate(node: NodeView) -> Result<ObjectView, GitError> {
    match node {
        NodeView::File { name, mode, content } => Ok(ObjectView::Blob(content)),
        NodeView::Directory { name, tree } => match spec_tree_entries(tree) {
            Ok(es) => Ok(ObjectView::Tree(es)),
            Err(e) => Err(e),
        },
    }
}

impl AnyGitObject {
    /// The object that a file or a directory makes.
    pub fn generate(node: &FileTreeNode) -> (r: Result<AnyGitObject, GitError>)
        ensures
            match spec_generate(node_view(*node)) {
                Ok(v) => r matches Ok(obj) && obj@ == v,
                Err(e) => r matches Err(re) && re == e,
            },
    {
        match node {
            FileTreeNode::File { name, mode, content } => Ok(
                AnyGitObject::Blob(Blob::new(content.clone())),
            ),
            FileTreeNode::Directory { name, tree } => Ok(AnyGitObject::Tree(tree.tree_object()?)),
        }
    }
}

impl TreeEntry {
    /// The entry that names `object` as `name`.
    pub fn new<Obj: GitObject>(object: &Obj, name: String, mode: FileMode) -> (r: Result<
        TreeEntry,
        GitError,
    >)
        ensures
            match spec_entry(Obj::spec_type(), Obj::spec_encode_body(object@), name@, mode) {
                Ok(v) => r matches Ok(entry) && entry@ == v,
                Err(e) => r matches Err(re) && re == e,
            },
    {
        let hash = object.sha1()?;
        Ok(TreeEntry { mode, name, hash })
    }
}

/// The name of a node.
pub open spec fn name_of(node: NodeView) -> Seq<char> {
    match node {
        NodeView::File { name, mode, content } => name,
        NodeView::Directory { name, tree } => name,
    }
}

/// Whether a directory entry of this name is no part of what a directory
/// holds: the repository itself, `.git`.
pub open spec fn spec_skips(name: Seq<char>) -> bool {
    name == ".git"@
}

/// The first `n` nodes without those that are skipped, in their order.
pub open spec fn kept_nodes(nodes: Seq<NodeView>, n: int) -> Seq<NodeView>
    decreases n,
{
    if n <= 0 || n > nodes.len() {
        Seq::empty()
    } else if spec_skips(name_of(nodes[n - 1])) {
        kept_nodes(nodes, n - 1)
    } else {
        kept_nodes(nodes, n - 1).push(nodes[n - 1])
    }
}

impl FileTreeNode {
    /// The name of this node.
    pub fn name(&self) -> (r: &String)
        ensures
            r@ == name_of(node_view(*self)),
    {
        match self {
            FileTreeNode::File { name, mode, content } => name,
            FileTreeNode::Directory { name, tree } => name,
        }
    }
}

impl FileTree {
    /// Whether a directory entry of this name is left out.
    pub fn skips(name: &str) -> (r: bool)
        ensures
            r == spec_skips(name@),
    {
        crate::git::refs::str_eq(name, ".git")
    }

    /// A directory that holds these nodes, without any that is left out.
    #[verifier::loop_isolation(false)]
    #[verifier::rlimit(50)]
    pub fn new(entries: Vec<FileTreeNode>) -> (t: FileTree)
        ensures
            t@ == kept_nodes(nodes_view(entries@, entries@.len() as int), entries@.len() as int),
    {
        let ghost all = nodes_view(entries@, entries@.len() as int);
        let ghost total = entries@.len() as int;
        let mut entries = entries;
        let mut kept: Vec<FileTreeNode> = Vec::new();
        let ghost mut done: int = 0;
        proof {
            lemma_nodes_view(entries@, total);
        }
        while entries.len() > 0
            invariant
                0 <= done <= total,
                entries@.len() == total - done,
                forall|k: int| 0 <= k < entries@.len() ==> node_view(#[trigger] entries@[k]) == all[
                    done + k],
                nodes_view(kept@, kept@.len() as int) == kept_nodes(all, done),
            decreases entries@.len(),
        {
            let ghost before = kept@;
            let node = entries.remove(0);
            assert(node_view(node) == all[done]);
            proof {
                lemma_nodes_view(before, before.len() as int);
            }
            if !FileTree::skips(node.name().as_str()) {
                kept.push(node);
                proof {
                    lemma_nodes_view(kept@, kept@.len() as int);
                    assert(nodes_view(kept@, kept@.len() as int) =~= nodes_view(
                        before,
                        before.len() as int,
                    ).push(all[done]));
                }
            }
            proof {
                done = done + 1;
            }
        }
        FileTree { entries: kept }
    }

    /// The tree object of this directory, and the objects that it and all
    /// below it make, to be written to a store.
    pub fn write(&self) -> (r: Result<(Tree, Vec<AnyGitObject>), GitError>)
        ensures
            match spec_tree_entries(self@) {
                Ok(es) => r matches Ok((tree, objects)) && tree@ == es && object_views(objects@)
                    == spec_tree_objects(self@),
                Err(e) => r matches Err(re) && re == e,
            },
    {
        let mut objects: Vec<AnyGitObject> = Vec::new();
        assert(object_views(objects@) =~= Seq::<ObjectView>::empty());
        let tree = self.parse_tree_object(true, &mut objects)?;
        proof {
            assert(Seq::<ObjectView>::empty() + spec_tree_objects(self@) =~= spec_tree_objects(
                self@,
            ));
        }
        Ok((tree, objects))
    }

    /// The tree object of this directory.
    pub fn tree_object(&self) -> (r: Result<Tree, GitError>)
        ensures
            match spec_tree_entries(self@) {
                Ok(es) => r matches Ok(tree) && tree@ == es,
                Err(e) => r matches Err(re) && re == e,
            },
    {
        let mut objects: Vec<AnyGitObject> = Vec::new();
        self.parse_tree_object(false, &mut objects)
    }

    /// The tree object of this directory; where `keep` says so, the objects
    /// made on the way are appended to `out`.
    #[verifier::loop_isolation(false)]
    #[verifier::rlimit(50)]
    fn parse_tree_object(&self, keep: bool, out: &mut Vec<AnyGitObject>) -> (r: Result<
        Tree,
        GitError,
    >)
        ensures
            match spec_tree_entries(self@) {
                Ok(es) => r matches Ok(tree) && tree@ == es && (keep ==> object_views(final(out)@)
                    == object_views(old(out)@) + spec_tree_objects(self@)),
                Err(e) => r matches Err(re) && re == e,
            },
        decreases self,
    {
        let ghost nodes = self@;
        let ghost start = object_views(out@);
        let mut entries: Vec<TreeEntry> = Vec::new();
        let mut i: usize = 0;
        assert(entries_of(entries@) =~= Seq::<TreeEntryView>::empty());
        assert(start + spec_node_objects(nodes, 0) =~= start);
        proof {
            lemma_nodes_view(self.entries@, self.entries@.len() as int);
        }
        while i < self.entries.len()
            invariant
                i <= self.entries@.len(),
                nodes.len() == self.entries@.len(),
                spec_unsorted(nodes, i as int) == Ok::<Seq<TreeEntryView>, GitError>(
                    entries_of(entries@),
                ),
                keep ==> object_views(out@) == start + spec_node_objects(nodes, i as int),
            decreases self.entries@.len() - i,
        {
            let ghost before = entries_of(entries@);
            let ghost kept = object_views(out@);
            assert(nodes[i as int] == node_view(self.entries@[i as int]));
            proof {
                lemma_unsorted_err(nodes, i + 1, nodes.len() as int);
            }
            let entry = match &self.entries[i] {
                FileTreeNode::File { name, mode, content } => {
                    let blob = Blob::new(content.clone());
                    let entry = match TreeEntry::new(&blob, name.clone(), *mode) {
                        Ok(entry) => entry,
                        Err(e) => {
                            assert(spec_node_entry(nodes[i as int]) == Err::<
                                TreeEntryView,
                                GitError,
                            >(e));
                            return Err(e);
                        },
                    };
                    if keep {
                        out.push(AnyGitObject::Blob(blob));
                        assert(object_views(out@) =~= kept + seq![ObjectView::Blob(content@)]);
                    }
                    entry
                },
                FileTreeNode::Directory { name, tree } => {
                    let sub = match tree.parse_tree_object(keep, out) {
                        Ok(sub) => sub,
                        Err(e) => {
                            assert(spec_node_entry(nodes[i as int]) == Err::<
                                TreeEntryView,
                                GitError,
                            >(e));
                            return Err(e);
                        },
                    };
                    match TreeEntry::new(&sub, name.clone(), FileMode::Directory) {
                        Ok(entry) => entry,
                        Err(e) => {
                            assert(spec_node_entry(nodes[i as int]) == Err::<
                                TreeEntryView,
                                GitError,
                            >(e));
                            return Err(e);
                        },
                    }
                },
            };
            proof {
                assert(entries_of(entries@.push(entry)) =~= before.push(entry@));
                if keep {
                    assert(object_views(out@) =~= start + spec_node_objects(nodes, i + 1));
                }
            }
            entries.push(entry);
            i += 1;
        }
        let tree = Tree::new(entries);
        if keep {
            let ghost kept = object_views(out@);
            let copy = Tree(copy_entries(&tree.0));
            out.push(AnyGitObject::Tree(copy));
            assert(object_views(out@) =~= kept + seq![ObjectView::Tree(tree@)]);
            assert(object_views(out@) =~= start + spec_tree_objects(nodes));
        }
        Ok(tree)
    }
}

/// What fails for the first nodes fails for more of them.
pub proof fn lemma_unsorted_err(nodes: Seq<NodeView>, k: int, n: int)
    requires
        0 <= k <= n <= nodes.len(),
    ensures
        spec_unsorted(nodes, k) matches Err(e) ==> spec_unsorted(nodes, n) == Err::<
            Seq<TreeEntryView>,
            GitError,
        >(e),
    decreases n - k,
{
    if k < n {
        lemma_unsorted_err(nodes, k, n - 1);
    }
}

/// The nodes of a directory mean what each of them means.
pub proof fn lemma_nodes_view(v: Seq<FileTreeNode>, n: int)
    requires
        0 <= n <= v.len(),
    ensures
        nodes_view(v, n).len() == n,
        forall|i: int| 0 <= i < n ==> #[trigger] nodes_view(v, n)[i] == node_view(v[i]),
    decreases n,
{
    if n > 0 {
        lemma_nodes_view(v, n - 1);
    }
}

/// A copy of the entries.
fn copy_entries(entries: &Vec<TreeEntry>) -> (r: Vec<TreeEntry>)
    ensures
        entries_of(r@) == entries_of(entries@),
{
    let mut out: Vec<TreeEntry> = Vec::new();
    let mut i: usize = 0;
    while i < entries.len()
        invariant
            i <= entries@.len(),
            out@.len() == i,
            forall|j: int| 0 <= j < i ==> out@[j]@ == entries@[j]@,
        decreases entries@.len() - i,
    {
        let e = &entries[i];
        out.push(TreeEntry { mode: e.mode, name: e.name.clone(), hash: e.hash });
        i += 1;
    }
    assert(entries_of(out@) =~= entries_of(entries@));
    out
}

} // verus!
