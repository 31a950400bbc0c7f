//! Ref discovery and the want request of the smart HTTP protocol.

use crate::bytes::{copy_range, find_byte, first_at, same_bytes};
use crate::error::GitError;
use crate::git::pkt_line::{spec_read, PktLine, PktView};
use crate::sha::{spec_from_hex, Sha};
use crate::text::{from_utf8_with_context, text_of};
use vstd::prelude::*;
use vstd::slice::slice_subrange;
use vstd::utf8::encode_utf8;

verus! {

/// Whether two strings are the same text.
pub fn str_eq(a: &str, b: &str) -> (r: bool)
    ensures
        r == (a@ == b@),
{
    proof {
        vstd::utf8::encode_utf8_decode_utf8(a@);
        vstd::utf8::encode_utf8_decode_utf8(b@);
    }
    same_bytes(a.as_bytes(), b.as_bytes())
}

/// Whether `s` starts with `prefix`.
pub open spec fn is_prefix(prefix: Seq<u8>, s: Seq<u8>) -> bool {
    prefix.len() <= s.len() && s.subrange(0, prefix.len() as int) == prefix
}

/// Whether `s` starts with `prefix`.
pub fn starts_with(s: &[u8], prefix: &[u8]) -> (r: bool)
    ensures
        r == is_prefix(prefix@, s@),
{
    if prefix.len() > s.len() {
        return false;
    }
    same_bytes(slice_subrange(s, 0, prefix.len()), prefix)
}

/// A name and the object it points at.
#[derive(Debug, Clone, PartialEq, Eq)]
pub struct GitRef {
    pub object_id: Sha,
    pub name: String,
}

/// What a ref means.
pub struct GitRefView {
    pub object_id: Seq<u8>,
    pub name: Seq<char>,
}

impl View for GitRef {
    type V = GitRefView;

    open spec fn view(&self) -> GitRefView {
        GitRefView { object_id: self.object_id@, name: self.name@ }
    }
}

/// The meaning of each ref of a list.
pub open spec fn refs_of(v: Seq<GitRef>) -> Seq<GitRefView> {
    Seq::new(v.len(), |i: int| v[i]@)
}

/// The text of each string of a list.
pub open spec fn texts_of(v: Seq<String>) -> Seq<Seq<char>> {
    Seq::new(v.len(), |i: int| v[i]@)
}

/// The ref that a line writes: forty hexadecimal digits, a space, the name.
pub open spec fn spec_ref(s: Seq<u8>) -> Result<GitRefView, GitError> {
    let sp = first_at(s, 0, 32u8);
    let name_start = if sp < s.len() {
        sp + 1
    } else {
        s.len() as int
    };
    match spec_from_hex(s.subrange(0, sp)) {
        Err(e) => Err(e),
        Ok(object_id) => match text_of(s.subrange(name_start, s.len() as int)) {
            Err(e) => Err(e),
            Ok(name) => Ok(GitRefView { object_id, name }),
        },
    }
}

/// The words of `s`, which single spaces part.
pub open spec fn spec_capabilities(s: Seq<u8>) -> Result<Seq<Seq<char>>, GitError>
    decreases s.len(),
{
    let i = first_at(s, 0, 32u8);
    match text_of(s.subrange(0, i)) {
        Err(e) => Err(e),
        Ok(word) => if 0 <= i < s.len() {
            match spec_capabilities(s.skip(i + 1)) {
                Err(e) => Err(e),
                Ok(rest) => Ok(seq![word] + rest),
            }
        } else {
            Ok(seq![word])
        },
    }
}

impl GitRef {
    /// Reads a ref from a line.
    pub fn read(s: &[u8]) -> (r: Result<GitRef, GitError>)
        ensures
            match spec_ref(s@) {
                Ok(v) => r matches Ok(x) && x@ == v,
                Err(e) => r matches Err(re) && re == e,
            },
    {
        let sp = find_byte(s, 0, 32u8);
        let name_start: usize = if sp < s.len() {
            sp + 1
        } else {
            s.len()
        };
        let object_id = Sha::from_hex(slice_subrange(s, 0, sp))?;
        let name = from_utf8_with_context(copy_range(s, name_start, s.len()))?;
        Ok(GitRef { object_id, name })
    }
}

/// What a server says it can do.
#[derive(Debug, Clone, PartialEq, Eq)]
pub struct GitCapabilities(pub Vec<String>);

impl View for GitCapabilities {
    type V = Seq<Seq<char>>;

    open spec fn view(&self) -> Seq<Seq<char>> {
        texts_of(self.0@)
    }
}

impl GitCapabilities {
    /// Reads capabilities: words with single spaces between.
    pub fn read(s: &[u8]) -> (r: Result<GitCapabilities, GitError>)
        ensures
            match spec_capabilities(s@) {
                Ok(v) => r matches Ok(x) && x@ == v,
                Err(e) => r matches Err(re) && re == e,
            },
    {
        let mut out: Vec<String> = Vec::new();
        let mut pos: usize = 0;
        assert(s@.skip(0) =~= s@);
        assert(texts_of(out@) =~= Seq::<Seq<char>>::empty());
        loop
            invariant
                pos <= s@.len(),
                spec_capabilities(s@) == match spec_capabilities(s@.skip(pos as int)) {
                    Ok(rest) => Ok::<Seq<Seq<char>>, GitError>(texts_of(out@) + rest),
                    Err(e) => Err(e),
                },
            decreases s@.len() - pos,
        {
            let ghost before = texts_of(out@);
            let t = slice_subrange(s, pos, s.len());
            assert(t@ =~= s@.skip(pos as int));
            let i = find_byte(t, 0, 32u8);
            let word = from_utf8_with_context(copy_range(t, 0, i))?;
            proof {
                assert(texts_of(out@.push(word)) =~= before + seq![word@]);
                if i < t@.len() {
                    assert(t@.skip(i + 1) =~= s@.skip(pos + i + 1));
                    match spec_capabilities(s@.skip(pos + i + 1)) {
                        Ok(rest) => {
                            assert(before + (seq![word@] + rest) =~= (before + seq![word@]) + rest);
                        },
                        Err(e) => {},
                    }
                }
            }
            out.push(word);
            if i >= t.len() {
                return Ok(GitCapabilities(out));
            }
            pos = pos + i + 1;
        }
    }
}

/// What a server answers to ref discovery.
#[derive(Debug, Clone, PartialEq, Eq)]
pub struct GitRefDiscoveryResponse {
    /// The refs, each name once, in the order in which each name first came.
    pub refs: Vec<GitRef>,
    /// The object that HEAD names.
    pub head_object_id: Sha,
    pub capabilities: GitCapabilities,
}

/// What an answer to ref discovery means.
pub struct DiscoveryView {
    pub refs: Seq<GitRefView>,
    pub head_object_id: Seq<u8>,
    pub capabilities: Seq<Seq<char>>,
}

impl View for GitRefDiscoveryResponse {
    type V = DiscoveryView;

    open spec fn view(&self) -> DiscoveryView {
        DiscoveryView {
            refs: refs_of(self.refs@),
            head_object_id: self.head_object_id@,
            capabilities: self.capabilities@,
        }
    }
}

/// Where the ref of this name stands in `refs`, or the length where none has
/// the name.
pub open spec fn index_of_name(refs: Seq<GitRefView>, name: Seq<char>) -> int
    decreases refs.len(),
{
    if refs.len() == 0 {
        0
    } else if refs[0].name == name {
        0
    } else {
        1 + index_of_name(refs.skip(1), name)
    }
}

/// `refs` with `r` in the place of the ref of its name, or at the end where
/// no ref has its name.
pub open spec fn upsert(refs: Seq<GitRefView>, r: GitRefView) -> Seq<GitRefView> {
    let i = index_of_name(refs, r.name);
    if 0 <= i < refs.len() {
        refs.update(i, r)
    } else {
        refs.push(r)
    }
}

/// Whether no two refs have one name.
pub open spec fn distinct_ref_names(refs: Seq<GitRefView>) -> bool {
    forall|i: int, j: int| 0 <= i < j < refs.len() ==> (#[trigger] refs[i]).name != (
    #[trigger] refs[j]).name
}

/// Where `index_of_name` points, the name stands, and before it does not.
pub proof fn lemma_index_of_name(refs: Seq<GitRefView>, name: Seq<char>)
    ensures
        0 <= index_of_name(refs, name) <= refs.len(),
        index_of_name(refs, name) < refs.len() ==> refs[index_of_name(refs, name)].name == name,
        forall|j: int| 0 <= j < index_of_name(refs, name) ==> (#[trigger] refs[j]).name != name,
    decreases refs.len(),
{
    if refs.len() > 0 && refs[0].name != name {
        lemma_index_of_name(refs.skip(1), name);
        let k = index_of_name(refs.skip(1), name);
        assert forall|j: int| 0 <= j < 1 + k implies (#[trigger] refs[j]).name != name by {
            if j > 0 {
                assert(refs.skip(1)[j - 1] == refs[j]);
            }
        }
        if k < refs.skip(1).len() {
            assert(refs.skip(1)[k] == refs[k + 1]);
        }
    }
}

/// What the lines leave holds each name once.
pub proof fn lemma_ref_map_distinct(lines: Seq<GitRefView>)
    ensures
        distinct_ref_names(ref_map(lines)),
    decreases lines.len(),
{
    if lines.len() > 0 {
        lemma_ref_map_distinct(lines.drop_last());
        let before = ref_map(lines.drop_last());
        let r = lines.last();
        lemma_index_of_name(before, r.name);
        let after = upsert(before, r);
        let i = index_of_name(before, r.name);
        assert forall|a: int, b: int| 0 <= a < b < after.len() implies (#[trigger] after[a]).name
            != (#[trigger] after[b]).name by {
            if i < before.len() {
                assert(after[a].name == before[a].name && after[b].name == before[b].name);
            } else if b == before.len() {
                assert(after[a].name == before[a].name);
            } else {
                assert(after[a].name == before[a].name && after[b].name == before[b].name);
            }
        }
    }
}

/// The refs that the lines leave: of lines with one name the last counts.
pub open spec fn ref_map(lines: Seq<GitRefView>) -> Seq<GitRefView>
    decreases lines.len(),
{
    if lines.len() == 0 {
        lines
    } else {
        upsert(ref_map(lines.drop_last()), lines.last())
    }
}

/// The first line of the answer.
pub open spec fn service_line() -> Seq<char> {
    "# service=git-upload-pack"@
}

/// The name of the first ref line.
pub open spec fn head_name() -> Seq<char> {
    "HEAD"@
}

/// What the ref line of HEAD writes: the object, and behind a NUL the
/// capabilities.
pub open spec fn spec_head_line(b: Seq<u8>) -> Result<(Seq<u8>, Seq<Seq<char>>), GitError> {
    let nul = first_at(b, 0, 0u8);
    let caps_start = if nul < b.len() {
        nul + 1
    } else {
        b.len() as int
    };
    match spec_ref(b.subrange(0, nul)) {
        Err(e) => Err(e),
        Ok(r) => if r.name != head_name() {
            Err(GitError::UnexpectedPkt)
        } else {
            match spec_capabilities(b.subrange(caps_start, b.len() as int)) {
                Err(e) => Err(e),
                Ok(caps) => Ok((r.object_id, caps)),
            }
        },
    }
}

/// The ref lines at the start of `s`, up to the flush frame that ends them.
pub open spec fn spec_ref_lines(s: Seq<u8>) -> Result<Seq<GitRefView>, GitError>
    decreases s.len(),
{
    match spec_read(s) {
        Err(e) => Err(e),
        Ok((p, n)) => match p {
            PktView::Flush => Ok(Seq::empty()),
            PktView::Binary(_) => Err(GitError::UnexpectedPkt),
            PktView::Text(t) => match spec_ref(encode_utf8(t)) {
                Err(e) => Err(e),
                Ok(r) => if 0 < n <= s.len() {
                    match spec_ref_lines(s.skip(n)) {
                        Err(e) => Err(e),
                        Ok(rest) => Ok(seq![r] + rest),
                    }
                } else {
                    Err(GitError::PktTruncated)
                },
            },
        },
    }
}

/// What the answer `s` to ref discovery says: the service line, a flush
/// frame, the ref line of HEAD with the capabilities, further ref lines, and
/// a flush frame.
pub open spec fn spec_discovery(s: Seq<u8>) -> Result<DiscoveryView, GitError> {
    match spec_read(s) {
        Err(e) => Err(e),
        Ok((service, a)) => if service != PktView::Text(service_line()) {
            Err(GitError::UnexpectedPkt)
        } else {
            match spec_read(s.skip(a)) {
                Err(e) => Err(e),
                Ok((flush, b)) => if flush != PktView::Flush {
                    Err(GitError::UnexpectedPkt)
                } else {
                    match spec_read(s.skip(a + b)) {
                        Err(e) => Err(e),
                        Ok((line, c)) => match line {
                            PktView::Text(head) => match spec_head_line(encode_utf8(head)) {
                                Err(e) => Err(e),
                                Ok((head_object_id, capabilities)) => match spec_ref_lines(
                                    s.skip(a + b + c),
                                ) {
                                    Err(e) => Err(e),
                                    Ok(lines) => Ok(
                                        DiscoveryView {
                                            refs: ref_map(lines),
                                            head_object_id,
                                            capabilities,
                                        },
                                    ),
                                },
                            },
                            _ => Err(GitError::UnexpectedPkt),
                        },
                    }
                },
            }
        },
    }
}

/// Puts `r` into `refs`, in the place of the ref of its name where there is
/// one.
fn put_ref(refs: &mut Vec<GitRef>, r: GitRef)
    ensures
        refs_of(final(refs)@) == upsert(refs_of(old(refs)@), r@),
{
    let ghost all = refs_of(refs@);
    let mut i: usize = 0;
    assert(all.skip(0) =~= all);
    while i < refs.len()
        invariant
            i <= refs@.len(),
            refs@ == old(refs)@,
            all == refs_of(refs@),
            index_of_name(all, r@.name) == i + index_of_name(all.skip(i as int), r@.name),
        decreases refs@.len() - i,
    {
        assert(all.skip(i as int)[0] == all[i as int]);
        assert(all.skip(i as int).skip(1) =~= all.skip(i + 1));
        if str_eq(refs[i].name.as_str(), r.name.as_str()) {
            assert(index_of_name(all, r@.name) == i);
            refs.set(i, r);
            assert(refs_of(refs@) =~= all.update(i as int, r@));
            return ;
        }
        i += 1;
    }
    assert(index_of_name(all, r@.name) == all.len());
    refs.push(r);
    assert(refs_of(refs@) =~= all.push(r@));
}

/// Reads the ref line of HEAD.
fn read_head_line(b: &[u8]) -> (r: Result<(Sha, GitCapabilities), GitError>)
    ensures
        match spec_head_line(b@) {
            Ok((id, caps)) => r matches Ok((rid, rcaps)) && rid@ == id && rcaps@ == caps,
            Err(e) => r matches Err(re) && re == e,
        },
{
    let nul = find_byte(b, 0, 0u8);
    let caps_start: usize = if nul < b.len() {
        nul + 1
    } else {
        b.len()
    };
    let head = GitRef::read(slice_subrange(b, 0, nul))?;
    if !str_eq(head.name.as_str(), "HEAD") {
        return Err(GitError::UnexpectedPkt);
    }
    let caps = GitCapabilities::read(slice_subrange(b, caps_start, b.len()))?;
    Ok((head.object_id, caps))
}

impl GitRefDiscoveryResponse {
    /// Reads the answer of a server to ref discovery.
    pub fn read(s: &[u8]) -> (r: Result<GitRefDiscoveryResponse, GitError>)
        ensures
            match spec_discovery(s@) {
                Ok(v) => r matches Ok(x) && x@ == v,
                Err(e) => r matches Err(re) && re == e,
            },
            r matches Ok(x) ==> distinct_ref_names(x@.refs),
    {
        assert(s@.skip(0) =~= s@);
        let (service, after_service) = PktLine::read(s, 0)?;
        match service {
            PktLine::StringDataPkt(line) => {
                if !str_eq(line.as_str(), "# service=git-upload-pack") {
                    return Err(GitError::UnexpectedPkt);
                }
            },
            _ => {
                return Err(GitError::UnexpectedPkt);
            },
        }
        let (flush, after_flush) = PktLine::read(s, after_service)?;
        match flush {
            PktLine::FlushPkt => {},
            _ => {
                return Err(GitError::UnexpectedPkt);
            },
        }
        let (head_line, after_head) = PktLine::read(s, after_flush)?;
        let head = match head_line {
            PktLine::StringDataPkt(line) => line,
            _ => {
                return Err(GitError::UnexpectedPkt);
            },
        };
        let (head_object_id, capabilities) = read_head_line(head.as_str().as_bytes())?;
        let tail = slice_subrange(s, after_head, s.len());
        assert(tail@ =~= s@.skip(after_head as int));
        let refs = read_ref_lines(tail)?;
        Ok(GitRefDiscoveryResponse { refs, head_object_id, capabilities })
    }
}

/// Reads ref lines up to the flush frame that ends them, and keeps of each
/// name the last.
fn read_ref_lines(s: &[u8]) -> (r: Result<Vec<GitRef>, GitError>)
    ensures
        match spec_ref_lines(s@) {
            Ok(lines) => r matches Ok(v) && refs_of(v@) == ref_map(lines),
            Err(e) => r matches Err(re) && re == e,
        },
        r matches Ok(v) ==> distinct_ref_names(refs_of(v@)),
{
    let mut refs: Vec<GitRef> = Vec::new();
    let mut pos: usize = 0;
    let ghost mut seen: Seq<GitRefView> = Seq::empty();
    assert(s@.skip(0) =~= s@);
    assert(refs_of(refs@) =~= Seq::<GitRefView>::empty());
    loop
        invariant
            pos <= s@.len(),
            refs_of(refs@) == ref_map(seen),
            spec_ref_lines(s@) == match spec_ref_lines(s@.skip(pos as int)) {
                Ok(rest) => Ok::<Seq<GitRefView>, GitError>(seen + rest),
                Err(e) => Err(e),
            },
        decreases s@.len() - pos,
    {
        let (p, next) = PktLine::read(s, pos)?;
        match p {
            PktLine::FlushPkt => {
                proof {
                    assert(seen + Seq::<GitRefView>::empty() =~= seen);
                    lemma_ref_map_distinct(seen);
                }
                return Ok(refs);
            },
            PktLine::BinaryDataPkt(_) => {
                return Err(GitError::UnexpectedPkt);
            },
            PktLine::StringDataPkt(line) => {
                let r = GitRef::read(line.as_str().as_bytes())?;
                proof {
                    assert(s@.skip(pos as int).skip(next - pos) =~= s@.skip(next as int));
                    match spec_ref_lines(s@.skip(next as int)) {
                        Ok(rest) => {
                            assert(seen + (seq![r@] + rest) =~= (seen + seq![r@]) + rest);
                        },
                        Err(e) => {},
                    }
                    assert((seen + seq![r@]).drop_last() =~= seen);
                    assert((seen + seq![r@]).last() == r@);
                    seen = seen + seq![r@];
                }
                put_ref(&mut refs, r);
                pos = next;
            },
        }
    }
}

} // verus!
