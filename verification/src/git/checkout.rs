//! What must be done to a directory so that it holds the tree of a commit.

use crate::error::GitError;
use crate::git::any_git_object::{AnyGitObject, ObjectView};
use crate::git::git_tree::{FileMode, Tree, TreeEntryView};
use crate::git::object_map::{lookup, ObjectMap};
use crate::sha::Sha;
use vstd::prelude::*;
use vstd::slice::slice_to_vec;

verus! {

/// One thing to do in the directory of a checkout. Paths are relative to it
/// and use `/`.
#[derive(Debug, Clone, PartialEq, Eq)]
pub enum CheckoutStep {
    CreateDir { path: String },
    WriteFile { path: String, content: Vec<u8>, executable: bool },
    CreateSymlink { path: String, target: Vec<u8> },
}

/// What a step means.
pub enum StepView {
    CreateDir { path: Seq<char> },
    WriteFile { path: Seq<char>, content: Seq<u8>, executable: bool },
    CreateSymlink { path: Seq<char>, target: Seq<u8> },
}

impl View for CheckoutStep {
    type V = StepView;

    open spec fn view(&self) -> StepView {
        match self {
            CheckoutStep::CreateDir { path } => StepView::CreateDir { path: path@ },
            CheckoutStep::WriteFile { path, content, executable } => StepView::WriteFile {
                path: path@,
                content: content@,
                executable: *executable,
            },
            CheckoutStep::CreateSymlink { path, target } => StepView::CreateSymlink {
                path: path@,
                target: target@,
            },
        }
    }
}

/// The meaning of each step of a list.
pub open spec fn steps_of(v: Seq<CheckoutStep>) -> Seq<StepView> {
    Seq::new(v.len(), |i: int| v[i]@)
}

/// The steps for one entry that is no directory: the blob it names becomes a
/// file, an executable file or a link.
pub open spec fn spec_leaf(e: TreeEntryView, path: Seq<char>, content: Seq<u8>) -> StepView {
    match e.mode {
        FileMode::Symbolic => StepView::CreateSymlink { path, target: content },
        FileMode::Executable => StepView::WriteFile { path, content, executable: true },
        _ => StepView::WriteFile { path, content, executable: false },
    }
}

/// The steps for these entries below `prefix`, in the order of the entries;
/// a directory is made before what it holds. An entry must name an object of
/// the map: a directory a tree, any other a blob. `fuel` bounds how deep
/// directories may nest.
pub open spec fn spec_checkout(
    map: Seq<(Seq<u8>, ObjectView)>,
    entries: Seq<TreeEntryView>,
    prefix: Seq<char>,
    fuel: nat,
) -> Result<Seq<StepView>, GitError>
    decreases fuel, entries.len(),
{
    if entries.len() == 0 {
        Ok(Seq::empty())
    } else {
        let e = entries[0];
        let path = prefix + e.name;
        let first = match (e.mode, lookup(map, e.hash)) {
            (FileMode::Directory, Some(ObjectView::Tree(sub))) => if fuel == 0 {
                Err(GitError::BadReference)
            } else {
                match spec_checkout(map, sub, path + seq!['/'], (fuel - 1) as nat) {
                    Ok(steps) => Ok(seq![StepView::CreateDir { path }] + steps),
                    Err(e) => Err(e),
                }
            },
            (FileMode::Directory, _) => Err(GitError::BadReference),
            (_, Some(ObjectView::Blob(content))) => Ok(seq![spec_leaf(e, path, content)]),
            _ => Err(GitError::BadReference),
        };
        match first {
            Err(e) => Err(e),
            Ok(a) => match spec_checkout(map, entries.skip(1), prefix, fuel) {
                Err(e) => Err(e),
                Ok(b) => Ok(a + b),
            },
        }
    }
}

/// The steps that put the tree of the commit `head` into a directory.
/// Directories may nest as deep as the map has objects.
pub open spec fn spec_plan_checkout(map: Seq<(Seq<u8>, ObjectView)>, head: Seq<u8>) -> Result<
    Seq<StepView>,
    GitError,
> {
    match lookup(map, head) {
        Some(ObjectView::Commit(c)) => match lookup(map, c.tree_hash) {
            Some(ObjectView::Tree(t)) => spec_checkout(map, t, Seq::empty(), map.len()),
            _ => Err(GitError::BadReference),
        },
        _ => Err(GitError::BadReference),
    }
}

/// Appends the steps for `tree` below `prefix`.
#[verifier::loop_isolation(false)]
#[verifier::rlimit(50)]
fn checkout_tree(
    map: &ObjectMap,
    tree: &Tree,
    prefix: &str,
    fuel: usize,
    out: &mut Vec<CheckoutStep>,
) -> (r: Result<(), GitError>)
    ensures
        match spec_checkout(map@, tree@, prefix@, fuel as nat) {
            Ok(steps) => r is Ok && steps_of(final(out)@) == steps_of(old(out)@) + steps,
            Err(e) => r matches Err(re) && re == e,
        },
    decreases fuel,
{
    let ghost all = tree@;
    let ghost start = steps_of(out@);
    let ghost mut done: Seq<StepView> = Seq::empty();
    let mut i: usize = 0;
    assert(all.skip(0) =~= all);
    assert(start + done =~= start);
    proof {
        reveal_strlit("/");
        assert("/"@ =~= seq!['/']);
    }
    while i < tree.0.len()
        invariant
            i <= tree.0@.len(),
            steps_of(out@) == start + done,
            spec_checkout(map@, all, prefix@, fuel as nat) == match spec_checkout(
                map@,
                all.skip(i as int),
                prefix@,
                fuel as nat,
            ) {
                Ok(rest) => Ok::<Seq<StepView>, GitError>(done + rest),
                Err(e) => Err(e),
            },
        decreases tree.0@.len() - i,
    {
        let entry = &tree.0[i];
        let ghost e = entry@;
        let ghost before = steps_of(out@);
        assert(all.skip(i as int)[0] == e);
        assert(all.skip(i as int).skip(1) =~= all.skip(i + 1));
        let mut path = String::from_str(prefix);
        path.append(entry.name.as_str());
        let ghost p = path@;
        let ghost mut first: Seq<StepView> = Seq::empty();
        match (entry.mode, map.get(&entry.hash)) {
            (FileMode::Directory, Some(AnyGitObject::Tree(sub))) => {
                if fuel == 0 {
                    return Err(GitError::BadReference);
                }
                let mut below = path.clone();
                below.append("/");
                out.push(CheckoutStep::CreateDir { path });
                assert(steps_of(out@) =~= before + seq![StepView::CreateDir { path: p }]);
                let ghost mid = steps_of(out@);
                checkout_tree(map, sub, below.as_str(), fuel - 1, out)?;
                proof {
                    let steps = spec_checkout(map@, sub@, p + seq!['/'], (fuel - 1) as nat).unwrap();
                    first = seq![StepView::CreateDir { path: p }] + steps;
                    assert(steps_of(out@) =~= before + first);
                }
            },
            (FileMode::Directory, _) => {
                return Err(GitError::BadReference);
            },
            (mode, Some(AnyGitObject::Blob(blob))) => {
                let content = slice_to_vec(blob.content());
                let step = match mode {
                    FileMode::Symbolic => CheckoutStep::CreateSymlink { path, target: content },
                    FileMode::Executable => CheckoutStep::WriteFile {
                        path,
                        content,
                        executable: true,
                    },
                    _ => CheckoutStep::WriteFile { path, content, executable: false },
                };
                proof {
                    first = seq![spec_leaf(e, p, blob@)];
                    assert(step@ == spec_leaf(e, p, blob@));
                }
                out.push(step);
                assert(steps_of(out@) =~= before + first);
            },
            _ => {
                return Err(GitError::BadReference);
            },
        }
        proof {
            match spec_checkout(map@, all.skip(i + 1), prefix@, fuel as nat) {
                Ok(rest) => {
                    assert(done + (first + rest) =~= (done + first) + rest);
                },
                Err(e) => {},
            }
            assert(start + (done + first) =~= before + first);
            done = done + first;
        }
        i += 1;
    }
    proof {
        assert(done + Seq::<StepView>::empty() =~= done);
    }
    Ok(())
}

/// The steps that put the tree of the commit `head` into a directory.
pub fn plan_checkout(map: &ObjectMap, head: &Sha) -> (r: Result<Vec<CheckoutStep>, GitError>)
    ensures
        match spec_plan_checkout(map@, head@) {
            Ok(steps) => r matches Ok(v) && steps_of(v@) == steps,
            Err(e) => r matches Err(re) && re == e,
        },
{
    let commit = match map.get(head) {
        Some(AnyGitObject::Commit(c)) => c,
        _ => {
            return Err(GitError::BadReference);
        },
    };
    let tree = match map.get(&commit.tree_hash) {
        Some(AnyGitObject::Tree(t)) => t,
        _ => {
            return Err(GitError::BadReference);
        },
    };
    let mut out: Vec<CheckoutStep> = Vec::new();
    assert(steps_of(out@) =~= Seq::<StepView>::empty());
    proof {
        reveal_strlit("");
        assert(""@ =~= Seq::<char>::empty());
    }
    checkout_tree(map, tree, "", map.len(), &mut out)?;
    proof {
        let steps = spec_checkout(map@, tree@, Seq::empty(), map@.len()).unwrap();
        assert(Seq::<StepView>::empty() + steps =~= steps);
    }
    Ok(out)
}

} // verus!
