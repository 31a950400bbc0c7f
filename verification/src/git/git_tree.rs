//! Trees: lists of entries, kept in the order of their names.

use crate::bytes::{append, copy_range, find_byte, first_at, same_bytes};
use crate::error::GitError;
use crate::git::git_object_trait::{GitObject, GitObjectType};
use crate::sha::Sha;
use crate::text::{from_utf8_with_context, text_of, FromText};
use vstd::prelude::*;
use vstd::slice::slice_subrange;
use vstd::utf8::{encode_utf8, valid_utf8};

verus! {

/// What a tree entry is: a file, an executable, a link or a directory.
#[derive(Debug, Clone, Copy, PartialEq, Eq, Structural)]
pub enum FileMode {
    Regular,
    Executable,
    Symbolic,
    Directory,
}

impl FileMode {
    /// The mode as a tree writes it: `100644`, `100755`, `120000` or `40000`.
    pub open spec fn spec_text(self) -> Seq<u8> {
        match self {
            FileMode::Regular => seq![0x31u8, 0x30, 0x30, 0x36, 0x34, 0x34],
            FileMode::Executable => seq![0x31u8, 0x30, 0x30, 0x37, 0x35, 0x35],
            FileMode::Symbolic => seq![0x31u8, 0x32, 0x30, 0x30, 0x30, 0x30],
            FileMode::Directory => seq![0x34u8, 0x30, 0x30, 0x30, 0x30],
        }
    }

    /// The mode that `text` writes.
    pub open spec fn spec_named(text: Seq<u8>) -> Option<FileMode> {
        if text == FileMode::Regular.spec_text() {
            Some(FileMode::Regular)
        } else if text == FileMode::Executable.spec_text() {
            Some(FileMode::Executable)
        } else if text == FileMode::Symbolic.spec_text() {
            Some(FileMode::Symbolic)
        } else if text == FileMode::Directory.spec_text() {
            Some(FileMode::Directory)
        } else {
            None
        }
    }

    /// The mode of a path with this metadata: a directory, else a link, else
    /// an executable where any execute bit is set, else a regular file.
    pub open spec fn spec_from_metadata(is_dir: bool, is_symlink: bool, any_execute_bit: bool) -> FileMode {
        if is_dir {
            FileMode::Directory
        } else if is_symlink {
            FileMode::Symbolic
        } else if any_execute_bit {
            FileMode::Executable
        } else {
            FileMode::Regular
        }
    }

    /// The mode of a path with this metadata.
    pub fn from_metadata(is_dir: bool, is_symlink: bool, any_execute_bit: bool) -> (m: FileMode)
        ensures
            m == FileMode::spec_from_metadata(is_dir, is_symlink, any_execute_bit),
    {
        if is_dir {
            FileMode::Directory
        } else if is_symlink {
            FileMode::Symbolic
        } else if any_execute_bit {
            FileMode::Executable
        } else {
            FileMode::Regular
        }
    }

    /// The mode as a tree writes it.
    pub fn text(&self) -> (r: Vec<u8>)
        ensures
            r@ == self.spec_text(),
    {
        let mut r: Vec<u8> = Vec::new();
        match self {
            FileMode::Regular => {
                r.push(0x31);
                r.push(0x30);
                r.push(0x30);
                r.push(0x36);
                r.push(0x34);
                r.push(0x34);
            },
            FileMode::Executable => {
                r.push(0x31);
                r.push(0x30);
                r.push(0x30);
                r.push(0x37);
                r.push(0x35);
                r.push(0x35);
            },
            FileMode::Symbolic => {
                r.push(0x31);
                r.push(0x32);
                r.push(0x30);
                r.push(0x30);
                r.push(0x30);
                r.push(0x30);
            },
            FileMode::Directory => {
                r.push(0x34);
                r.push(0x30);
                r.push(0x30);
                r.push(0x30);
                r.push(0x30);
            },
        }
        assert(r@ =~= self.spec_text());
        r
    }

    /// The mode as a tree writes it, as a string.
    pub fn as_ref(&self) -> (r: &'static str)
        ensures
            encode_utf8(r@) == self.spec_text(),
    {
        let r = match self {
            FileMode::Regular => "100644",
            FileMode::Executable => "100755",
            FileMode::Symbolic => "120000",
            FileMode::Directory => "40000",
        };
        proof {
            reveal_strlit("100644");
            reveal_strlit("100755");
            reveal_strlit("120000");
            reveal_strlit("40000");
            assert(vstd::utf8::is_ascii_chars(r@));
            vstd::utf8::is_ascii_chars_encode_utf8(r@);
            assert(encode_utf8(r@) =~= self.spec_text());
        }
        r
    }
}

impl FromText for FileMode {
    open spec fn spec_from_text(text: Seq<u8>) -> Result<FileMode, GitError> {
        match FileMode::spec_named(text) {
            Some(m) => Ok(m),
            None => Err(GitError::UnknownMode),
        }
    }

    fn from_text(text: &[u8]) -> (r: Result<FileMode, GitError>) {
        if same_bytes(text, FileMode::Regular.text().as_slice()) {
            Ok(FileMode::Regular)
        } else if same_bytes(text, FileMode::Executable.text().as_slice()) {
            Ok(FileMode::Executable)
        } else if same_bytes(text, FileMode::Symbolic.text().as_slice()) {
            Ok(FileMode::Symbolic)
        } else if same_bytes(text, FileMode::Directory.text().as_slice()) {
            Ok(FileMode::Directory)
        } else {
            Err(GitError::UnknownMode)
        }
    }
}

/// No byte of a mode is a space, every byte is ASCII, and the four differ.
pub proof fn lemma_modes(m: FileMode)
    ensures
        forall|i: int|
            0 <= i < m.spec_text().len() ==> 32 < (#[trigger] m.spec_text()[i]) && m.spec_text()[i]
                < 128,
        FileMode::spec_named(m.spec_text()) == Some(m),
        m.spec_text().len() > 0,
{
    let r = FileMode::Regular.spec_text();
    let x = FileMode::Executable.spec_text();
    let s = FileMode::Symbolic.spec_text();
    let d = FileMode::Directory.spec_text();
    assert(r[3] != x[3]);
    assert(r[1] != s[1]);
    assert(x[1] != s[1]);
    assert(r.len() != d.len());
    assert(x.len() != d.len());
    assert(s.len() != d.len());
}

/// One line of a tree: what the entry is, its name, and the object it names.
#[derive(Debug, Clone, PartialEq, Eq)]
pub struct TreeEntry {
    pub mode: FileMode,
    pub name: String,
    pub hash: Sha,
}

/// What a tree entry means.
pub struct TreeEntryView {
    pub mode: FileMode,
    pub name: Seq<char>,
    pub hash: Seq<u8>,
}

impl View for TreeEntry {
    type V = TreeEntryView;

    open spec fn view(&self) -> TreeEntryView {
        TreeEntryView { mode: self.mode, name: self.name@, hash: self.hash@ }
    }
}

/// The meaning of each entry of a list.
pub open spec fn entries_of(v: Seq<TreeEntry>) -> Seq<TreeEntryView> {
    Seq::new(v.len(), |i: int| v[i]@)
}

/// A tree: its entries.
#[derive(Debug, Clone, PartialEq, Eq)]
pub struct Tree(pub Vec<TreeEntry>);

impl View for Tree {
    type V = Seq<TreeEntryView>;

    open spec fn view(&self) -> Seq<TreeEntryView> {
        entries_of(self.0@)
    }
}

/// Whether `a` comes before `b`, or is `b`, in the order of their bytes.
pub open spec fn lex_le(a: Seq<u8>, b: Seq<u8>) -> bool
    decreases a.len(),
{
    if a.len() == 0 {
        true
    } else if b.len() == 0 {
        false
    } else if a[0] != b[0] {
        a[0] < b[0]
    } else {
        lex_le(a.skip(1), b.skip(1))
    }
}

/// The bytes by which an entry is ordered: its name in UTF-8.
pub open spec fn key(e: TreeEntryView) -> Seq<u8> {
    encode_utf8(e.name)
}

/// Whether the names never go down from one entry to the next.
pub open spec fn sorted(es: Seq<TreeEntryView>) -> bool {
    forall|i: int, j: int| 0 <= i < j < es.len() ==> lex_le(key(#[trigger] es[i]), key(#[trigger] es[j]))
}

/// Whether the names go up from each entry to the next.
pub open spec fn strictly_sorted(es: Seq<TreeEntryView>) -> bool {
    forall|i: int, j: int|
        0 <= i < j < es.len() ==> lex_le(key(#[trigger] es[i]), key(#[trigger] es[j])) && key(es[i])
            != key(es[j])
}

/// `es` with `e` put behind the last entry whose name is not greater; where
/// `es` is sorted, so is the result.
pub open spec fn insert_entry(es: Seq<TreeEntryView>, e: TreeEntryView) -> Seq<TreeEntryView>
    decreases es.len(),
{
    if es.len() == 0 || lex_le(key(es.last()), key(e)) {
        es.push(e)
    } else {
        insert_entry(es.drop_last(), e).push(es.last())
    }
}

/// The entries in the order of their names; entries of one name keep their
/// order.
pub open spec fn sorted_entries(es: Seq<TreeEntryView>) -> Seq<TreeEntryView>
    decreases es.len(),
{
    if es.len() == 0 {
        es
    } else {
        insert_entry(sorted_entries(es.drop_last()), es.last())
    }
}

/// One entry as a tree writes it: mode, space, name, NUL, and the twenty
/// bytes of the hash.
pub open spec fn spec_encode_entry(e: TreeEntryView) -> Seq<u8> {
    e.mode.spec_text() + seq![32u8] + encode_utf8(e.name) + seq![0u8] + e.hash
}

/// The mode that `bytes` write in a tree.
pub open spec fn spec_mode(bytes: Seq<u8>) -> Result<FileMode, GitError> {
    if valid_utf8(bytes) {
        FileMode::spec_from_text(bytes)
    } else {
        Err(GitError::InvalidUtf8)
    }
}

/// The entry at the start of `s`, and how many bytes it takes.
pub open spec fn spec_decode_entry(s: Seq<u8>) -> Result<(TreeEntryView, int), GitError> {
    let sp = first_at(s, 0, 32u8);
    match spec_mode(s.subrange(0, sp)) {
        Err(e) => Err(e),
        Ok(mode) => {
            let name_start = if sp < s.len() {
                sp + 1
            } else {
                s.len() as int
            };
            let nul = first_at(s, name_start, 0u8);
            match text_of(s.subrange(name_start, nul)) {
                Err(e) => Err(e),
                Ok(name) => {
                    let hash_start = if nul < s.len() {
                        nul + 1
                    } else {
                        s.len() as int
                    };
                    if s.len() - hash_start < 20 {
                        Err(GitError::WrongHashLength)
                    } else {
                        Ok(
                            (
                                TreeEntryView {
                                    mode,
                                    name,
                                    hash: s.subrange(hash_start, hash_start + 20),
                                },
                                hash_start + 20,
                            ),
                        )
                    }
                },
            }
        },
    }
}

/// The entries that `s` writes, in the order in which it writes them.
pub open spec fn spec_decode_entries(s: Seq<u8>) -> Result<Seq<TreeEntryView>, GitError>
    decreases s.len(),
{
    if s.len() == 0 {
        Ok(Seq::empty())
    } else {
        match spec_decode_entry(s) {
            Err(e) => Err(e),
            Ok((entry, n)) => if 0 < n <= s.len() {
                match spec_decode_entries(s.skip(n)) {
                    Err(e) => Err(e),
                    Ok(rest) => Ok(seq![entry] + rest),
                }
            } else {
                Err(GitError::WrongHashLength)
            },
        }
    }
}

/// The entries as a tree writes them: one after the other.
pub open spec fn spec_encode_entries(es: Seq<TreeEntryView>) -> Seq<u8>
    decreases es.len(),
{
    if es.len() == 0 {
        Seq::empty()
    } else {
        spec_encode_entry(es[0]) + spec_encode_entries(es.skip(1))
    }
}

/// Writing one more entry appends it.
pub proof fn lemma_encode_push(es: Seq<TreeEntryView>, e: TreeEntryView)
    ensures
        spec_encode_entries(es.push(e)) == spec_encode_entries(es) + spec_encode_entry(e),
    decreases es.len(),
{
    if es.len() == 0 {
        assert(es.push(e).skip(1) =~= Seq::<TreeEntryView>::empty());
        assert(es.push(e)[0] == e);
        assert(spec_encode_entries(Seq::<TreeEntryView>::empty()) =~= Seq::<u8>::empty());
        assert(spec_encode_entries(es.push(e)) =~= spec_encode_entry(e) + Seq::<u8>::empty());
        assert(spec_encode_entries(es.push(e)) =~= spec_encode_entries(es) + spec_encode_entry(e));
    } else {
        lemma_encode_push(es.skip(1), e);
        assert(es.push(e).skip(1) =~= es.skip(1).push(e));
        assert(es.push(e)[0] == es[0]);
        assert(spec_encode_entries(es.push(e)) =~= spec_encode_entries(es) + spec_encode_entry(e));
    }
}

/// Where `e` goes into `es`: behind the entries up to `p`, before the rest.
pub proof fn lemma_insert_at(es: Seq<TreeEntryView>, e: TreeEntryView, p: int)
    requires
        0 <= p <= es.len(),
        p > 0 ==> lex_le(key(es[p - 1]), key(e)),
        forall|j: int| p <= j < es.len() ==> !lex_le(key(#[trigger] es[j]), key(e)),
    ensures
        insert_entry(es, e) == es.insert(p, e),
    decreases es.len(),
{
    if p == es.len() {
        assert(es.insert(p, e) =~= es.push(e));
    } else {
        lemma_insert_at(es.drop_last(), e, p);
        assert(!lex_le(key(es[es.len() - 1]), key(e)));
        assert(es.drop_last().insert(p, e).push(es.last()) =~= es.insert(p, e));
    }
}

/// Whether `a` comes before `b`, or is `b`, in the order of their bytes.
pub fn bytes_le(a: &[u8], b: &[u8]) -> (r: bool)
    ensures
        r == lex_le(a@, b@),
{
    let mut i: usize = 0;
    assert(a@.skip(0) =~= a@);
    assert(b@.skip(0) =~= b@);
    while i < a.len() && i < b.len()
        invariant
            i <= a@.len(),
            i <= b@.len(),
            lex_le(a@, b@) == lex_le(a@.skip(i as int), b@.skip(i as int)),
        decreases a@.len() - i,
    {
        if a[i] != b[i] {
            assert(a@.skip(i as int)[0] == a@[i as int]);
            assert(b@.skip(i as int)[0] == b@[i as int]);
            return a[i] < b[i];
        }
        proof {
            assert(a@.skip(i as int)[0] == a@[i as int]);
            assert(b@.skip(i as int)[0] == b@[i as int]);
            assert(a@.skip(i as int).skip(1) =~= a@.skip(i + 1));
            assert(b@.skip(i as int).skip(1) =~= b@.skip(i + 1));
        }
        i += 1;
    }
    i >= a.len()
}

impl Tree {
    /// A tree of these entries, put in the order of their names.
    #[verifier::rlimit(50)]
    pub fn new(entries: Vec<TreeEntry>) -> (t: Tree)
        ensures
            t@ == sorted_entries(entries_of(entries@)),
            sorted(t@),
    {
        let ghost all = entries_of(entries@);
        proof {
            crate::git::tree_laws::lemma_sorted_entries_sorted(all);
        }
        let mut entries = entries;
        let mut out: Vec<TreeEntry> = Vec::new();
        let ghost mut done: int = 0;
        assert(all.take(0) =~= Seq::<TreeEntryView>::empty());
        assert(entries_of(out@) =~= Seq::<TreeEntryView>::empty());
        assert(all.skip(0) =~= all);
        while entries.len() > 0
            invariant
                0 <= done <= all.len(),
                entries_of(entries@) == all.skip(done),
                entries_of(out@) == sorted_entries(all.take(done)),
            decreases entries@.len(),
        {
            let ghost before = entries_of(out@);
            let ghost pending = entries_of(entries@);
            assert(pending.len() == entries@.len());
            assert(all.skip(done).len() == all.len() - done);
            assert(all.skip(done)[0] == all[done]);
            let e = entries.remove(0);
            assert(e@ == pending[0]);
            assert(e@ == all[done]);
            assert(entries_of(entries@) =~= all.skip(done + 1)) by {
                assert forall|k: int| 0 <= k < entries@.len() implies entries_of(entries@)[k]
                    == all.skip(done + 1)[k] by {
                    assert(pending[k + 1] == all.skip(done)[k + 1]);
                }
            }
            let mut p: usize = out.len();
            while p > 0 && !bytes_le(out[p - 1].name.as_str().as_bytes(), e.name.as_str().as_bytes())
                invariant
                    p <= out@.len(),
                    before == entries_of(out@),
                    entries_of(entries@) == all.skip(done + 1),
                    forall|j: int| p <= j < out@.len() ==> !lex_le(key(#[trigger] before[j]), key(e@)),
                decreases p,
            {
                assert(before[p - 1] == out@[p - 1]@);
                p -= 1;
            }
            proof {
                if p > 0 {
                    assert(before[p - 1] == out@[p - 1]@);
                }
                lemma_insert_at(before, e@, p as int);
                assert(all.take(done + 1).drop_last() =~= all.take(done));
                assert(all.take(done + 1).last() == all[done]);
                assert(entries_of(out@.insert(p as int, e)) =~= before.insert(p as int, e@));
                done = done + 1;
            }
            out.insert(p, e);
        }
        assert(all.take(done) =~= all);
        Tree(out)
    }

    /// The entries.
    pub fn entries(&self) -> (r: &Vec<TreeEntry>)
        ensures
            entries_of(r@) == self@,
    {
        &self.0
    }
}

impl TreeEntry {
    /// Reads the entry that starts at `pos`; gives it with the position
    /// after it.
    #[verifier::rlimit(50)]
    pub fn decode(s: &[u8], pos: usize) -> (r: Result<(TreeEntry, usize), GitError>)
        requires
            pos <= s@.len(),
        ensures
            match spec_decode_entry(s@.skip(pos as int)) {
                Ok((entry, n)) => r matches Ok((e, next)) && e@ == entry && next == pos + n && pos
                    < next <= s@.len(),
                Err(err) => r matches Err(re) && re == err,
            },
    {
        let t = slice_subrange(s, pos, s.len());
        assert(t@ =~= s@.skip(pos as int));
        let sp = find_byte(t, 0, 32u8);
        let mode_bytes = copy_range(t, 0, sp);
        let mode = match from_utf8_with_context(mode_bytes) {
            Err(e) => {
                return Err(e);
            },
            Ok(_) => FileMode::from_text(slice_subrange(t, 0, sp))?,
        };
        let name_start: usize = if sp < t.len() {
            sp + 1
        } else {
            t.len()
        };
        let nul = find_byte(t, name_start, 0u8);
        let name = from_utf8_with_context(copy_range(t, name_start, nul))?;
        let hash_start: usize = if nul < t.len() {
            nul + 1
        } else {
            t.len()
        };
        if t.len() - hash_start < 20 {
            return Err(GitError::WrongHashLength);
        }
        let hash = Sha::from_bytes(slice_subrange(t, hash_start, hash_start + 20))?;
        Ok((TreeEntry { mode, name, hash }, pos + hash_start + 20))
    }

    /// The entry as a tree writes it.
    pub fn encode(&self) -> (r: Vec<u8>)
        ensures
            r@ == spec_encode_entry(self@),
    {
        let mut encoded = self.mode.text();
        encoded.push(32u8);
        append(&mut encoded, self.name.as_str().as_bytes());
        encoded.push(0u8);
        append(&mut encoded, self.hash.as_ref());
        assert(encoded@ =~= spec_encode_entry(self@));
        encoded
    }
}

impl GitObject for Tree {
    open spec fn spec_type() -> GitObjectType {
        GitObjectType::Tree
    }

    open spec fn spec_encode_body(v: Seq<TreeEntryView>) -> Seq<u8> {
        spec_encode_entries(v)
    }

    open spec fn spec_decode_body(body: Seq<u8>) -> Result<Seq<TreeEntryView>, GitError> {
        match spec_decode_entries(body) {
            Ok(es) => Ok(sorted_entries(es)),
            Err(e) => Err(e),
        }
    }

    fn get_type() -> (t: GitObjectType) {
        GitObjectType::Tree
    }

    fn encode_body(&self) -> (r: Result<Vec<u8>, GitError>) {
        let mut body: Vec<u8> = Vec::new();
        let mut i: usize = 0;
        assert(self@.take(0) =~= Seq::<TreeEntryView>::empty());
        while i < self.0.len()
            invariant
                i <= self.0@.len(),
                body@ == spec_encode_entries(self@.take(i as int)),
            decreases self.0@.len() - i,
        {
            let encoded = self.0[i].encode();
            proof {
                lemma_encode_push(self@.take(i as int), self@[i as int]);
                assert(self@.take(i as int).push(self@[i as int]) =~= self@.take(i + 1));
            }
            append(&mut body, encoded.as_slice());
            i += 1;
        }
        assert(self@.take(i as int) =~= self@);
        Ok(body)
    }

    fn decode_body(from: Vec<u8>) -> (r: Result<Tree, GitError>)
        ensures
            r matches Ok(tree) ==> sorted(tree@),
    {
        let s = from.as_slice();
        let mut entries: Vec<TreeEntry> = Vec::new();
        let mut pos: usize = 0;
        assert(s@.skip(0) =~= s@);
        assert(entries_of(entries@) =~= Seq::<TreeEntryView>::empty());
        while pos < s.len()
            invariant
                pos <= s@.len(),
                s@ == from@,
                spec_decode_entries(s@) == match spec_decode_entries(s@.skip(pos as int)) {
                    Ok(rest) => Ok::<Seq<TreeEntryView>, GitError>(entries_of(entries@) + rest),
                    Err(e) => Err(e),
                },
            decreases s@.len() - pos,
        {
            let ghost before = entries_of(entries@);
            let (entry, next) = TreeEntry::decode(s, pos)?;
            proof {
                let n = next - pos;
                assert(s@.skip(pos as int).skip(n) =~= s@.skip(next as int));
                match spec_decode_entries(s@.skip(next as int)) {
                    Ok(rest) => {
                        assert(before + (seq![entry@] + rest) =~= (before + seq![entry@]) + rest);
                    },
                    Err(e) => {},
                }
                assert(entries_of(entries@.push(entry)) =~= before + seq![entry@]);
            }
            entries.push(entry);
            pos = next;
        }
        proof {
            assert(entries_of(entries@) + Seq::<TreeEntryView>::empty() =~= entries_of(entries@));
        }
        Ok(Tree::new(entries))
    }
}

} // verus!
