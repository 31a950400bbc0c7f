//! The want request, the answer to it, and what ref discovery leaves to be
//! written below `.git`.

use crate::error::GitError;
use crate::git::packfile::{spec_read_pack, Packfile};
use crate::git::pkt_line::{pkts_of, spec_all_bytes, spec_read, PktLine, PktView};
use crate::git::refs::{
    is_prefix, refs_of, starts_with, str_eq, texts_of, DiscoveryView, GitCapabilities, GitRef,
    GitRefDiscoveryResponse, GitRefView,
};
use crate::hexcode::hex_chars;
use crate::sha::Sha;
use vstd::prelude::*;
use vstd::slice::slice_subrange;
use vstd::utf8::encode_utf8;

verus! {

/// A request for an object.
#[derive(Debug, Clone, PartialEq, Eq)]
pub struct WantPkt {
    pub object_id: Sha,
}

/// A statement that an object is at hand.
#[derive(Debug, Clone, PartialEq, Eq)]
pub struct HavePkt {
    pub object_id: Sha,
}

/// The line that asks for an object: `want`, a space, forty digits.
pub open spec fn want_text(id: Seq<u8>) -> Seq<char> {
    "want "@ + hex_chars(id)
}

/// The line that states an object: `have`, a space, forty digits.
pub open spec fn have_text(id: Seq<u8>) -> Seq<char> {
    "have "@ + hex_chars(id)
}

/// The words with single spaces between.
pub open spec fn joined(words: Seq<Seq<char>>) -> Seq<char>
    decreases words.len(),
{
    if words.len() == 0 {
        Seq::empty()
    } else if words.len() == 1 {
        words[0]
    } else {
        joined(words.drop_last()) + seq![' '] + words.last()
    }
}

/// Joins the words with single spaces.
pub fn join_words(words: &Vec<String>) -> (r: String)
    ensures
        r@ == joined(texts_of(words@)),
{
    let ghost ws = texts_of(words@);
    let mut out = String::new();
    let mut i: usize = 0;
    assert(ws.take(0) =~= Seq::<Seq<char>>::empty());
    while i < words.len()
        invariant
            i <= words@.len(),
            ws == texts_of(words@),
            out@ == joined(ws.take(i as int)),
        decreases words@.len() - i,
    {
        proof {
            assert(ws.take(i + 1).drop_last() =~= ws.take(i as int));
            assert(ws.take(i + 1).last() == words@[i as int]@);
            reveal_strlit(" ");
            assert(" "@ =~= seq![' ']);
        }
        if i > 0 {
            out.append(" ");
        }
        out.append(words[i].as_str());
        proof {
            if i == 0 {
                assert(out@ =~= words@[0]@);
            }
        }
        i += 1;
    }
    assert(ws.take(i as int) =~= ws);
    out
}

impl WantPkt {
    /// The line that asks for this object.
    pub fn to_string(&self) -> (s: String)
        ensures
            s@ == want_text(self.object_id@),
    {
        let mut s = String::from_str("want ");
        s.append(self.object_id.to_hex().as_str());
        s
    }
}

impl HavePkt {
    /// The line that states this object.
    pub fn to_string(&self) -> (s: String)
        ensures
            s@ == have_text(self.object_id@),
    {
        let mut s = String::from_str("have ");
        s.append(self.object_id.to_hex().as_str());
        s
    }
}

/// What can go on the wire as one frame.
pub trait ToPktLine: Sized {
    /// The frame that carries this value.
    spec fn spec_pkt_line(self) -> PktView;

    /// The frame that carries this value.
    fn to_pkt_line(self) -> (p: PktLine)
        ensures
            p@ == self.spec_pkt_line(),
    ;
}

impl ToPktLine for PktLine {
    open spec fn spec_pkt_line(self) -> PktView {
        self@
    }

    fn to_pkt_line(self) -> (p: PktLine) {
        self
    }
}

impl ToPktLine for Vec<u8> {
    open spec fn spec_pkt_line(self) -> PktView {
        PktView::Binary(self@)
    }

    fn to_pkt_line(self) -> (p: PktLine) {
        PktLine::BinaryDataPkt(self)
    }
}

impl ToPktLine for String {
    open spec fn spec_pkt_line(self) -> PktView {
        PktView::Text(self@)
    }

    fn to_pkt_line(self) -> (p: PktLine) {
        PktLine::StringDataPkt(self)
    }
}

impl ToPktLine for WantPkt {
    open spec fn spec_pkt_line(self) -> PktView {
        PktView::Text(want_text(self.object_id@))
    }

    fn to_pkt_line(self) -> (p: PktLine) {
        PktLine::StringDataPkt(self.to_string())
    }
}

impl ToPktLine for HavePkt {
    open spec fn spec_pkt_line(self) -> PktView {
        PktView::Text(have_text(self.object_id@))
    }

    fn to_pkt_line(self) -> (p: PktLine) {
        PktLine::StringDataPkt(self.to_string())
    }
}

/// The first want line, which alone carries the capabilities.
pub open spec fn first_want(id: Seq<u8>, capabilities: Option<Seq<Seq<char>>>) -> PktView {
    match capabilities {
        Some(words) => PktView::Text(want_text(id) + seq![' '] + joined(words)),
        None => PktView::Text(want_text(id)),
    }
}

/// The frames of a want request: the wants, a flush frame; the haves and a
/// flush frame, where haves are given; and `done`, or a flush frame where the
/// client is not done.
pub open spec fn spec_want_lines(
    wants: Seq<Seq<u8>>,
    haves: Option<Seq<Seq<u8>>>,
    capabilities: Option<Seq<Seq<char>>>,
    is_done: bool,
) -> Seq<PktView> {
    seq![first_want(wants[0], capabilities)] + Seq::new(
        (wants.len() - 1) as nat,
        |i: int| PktView::Text(want_text(wants[i + 1])),
    ) + seq![PktView::Flush] + (match haves {
        Some(h) => Seq::new(h.len(), |i: int| PktView::Text(have_text(h[i]))) + seq![
            PktView::Flush,
        ],
        None => Seq::empty(),
    }) + seq![
        if is_done {
            PktView::Text("done"@)
        } else {
            PktView::Flush
        },
    ]
}

/// The objects that wants ask for.
pub open spec fn want_ids(v: Seq<WantPkt>) -> Seq<Seq<u8>> {
    Seq::new(v.len(), |i: int| v[i].object_id@)
}

/// The objects that haves state.
pub open spec fn have_ids(v: Seq<HavePkt>) -> Seq<Seq<u8>> {
    Seq::new(v.len(), |i: int| v[i].object_id@)
}

/// The objects of optional haves.
pub open spec fn opt_have_ids(v: Option<Vec<HavePkt>>) -> Option<Seq<Seq<u8>>> {
    match v {
        Some(h) => Some(have_ids(h@)),
        None => None,
    }
}

/// The words of optional capabilities.
pub open spec fn opt_capabilities(c: Option<GitCapabilities>) -> Option<Seq<Seq<char>>> {
    match c {
        Some(caps) => Some(caps@),
        None => None,
    }
}

/// The frames of a want request.
#[verifier::rlimit(50)]
pub fn want_lines(
    wants: &Vec<WantPkt>,
    haves: &Option<Vec<HavePkt>>,
    capabilities: &Option<GitCapabilities>,
    is_done: bool,
) -> (r: Result<Vec<PktLine>, GitError>)
    ensures
        wants@.len() == 0 ==> (r matches Err(e) && e == GitError::NoWants),
        wants@.len() > 0 ==> (r matches Ok(lines) && pkts_of(lines@) == spec_want_lines(
            want_ids(wants@),
            opt_have_ids(*haves),
            opt_capabilities(*capabilities),
            is_done,
        )),
{
    if wants.len() == 0 {
        return Err(GitError::NoWants);
    }
    let ghost ids = want_ids(wants@);
    let mut lines: Vec<PktLine> = Vec::new();
    let mut first = wants[0].to_string();
    match capabilities {
        Some(caps) => {
            proof {
                reveal_strlit(" ");
                assert(" "@ =~= seq![' ']);
            }
            first.append(" ");
            first.append(join_words(&caps.0).as_str());
        },
        None => {},
    }
    lines.push(PktLine::StringDataPkt(first));
    let ghost head = pkts_of(lines@);
    assert(head =~= seq![first_want(ids[0], opt_capabilities(*capabilities))]);
    let mut i: usize = 1;
    while i < wants.len()
        invariant
            1 <= i <= wants@.len(),
            ids == want_ids(wants@),
            pkts_of(lines@) == head + Seq::new(
                (i - 1) as nat,
                |k: int| PktView::Text(want_text(ids[k + 1])),
            ),
        decreases wants@.len() - i,
    {
        let ghost before = pkts_of(lines@);
        let line = PktLine::StringDataPkt(wants[i].to_string());
        assert(line@ == PktView::Text(want_text(ids[i as int])));
        lines.push(line);
        assert(pkts_of(lines@) =~= before.push(line@));
        assert(before.push(line@) =~= head + Seq::new(
            i as nat,
            |k: int| PktView::Text(want_text(ids[k + 1])),
        ));
        i += 1;
    }
    let ghost want_part = Seq::new(
        (wants@.len() - 1) as nat,
        |k: int| PktView::Text(want_text(ids[k + 1])),
    );
    let ghost after_wants = pkts_of(lines@);
    assert(after_wants =~= head + want_part);
    lines.push(PktLine::FlushPkt);
    assert(pkts_of(lines@) =~= after_wants.push(PktView::Flush));
    let ghost after_flush = pkts_of(lines@);
    let ghost mut have_part: Seq<PktView> = Seq::empty();
    match haves {
        Some(h) => {
            let ghost hs = have_ids(h@);
            let mut j: usize = 0;
            assert(pkts_of(lines@) =~= after_flush + Seq::new(
                0,
                |k: int| PktView::Text(have_text(hs[k])),
            ));
            while j < h.len()
                invariant
                    j <= h@.len(),
                    hs == have_ids(h@),
                    pkts_of(lines@) == after_flush + Seq::new(
                        j as nat,
                        |k: int| PktView::Text(have_text(hs[k])),
                    ),
                decreases h@.len() - j,
            {
                let ghost before = pkts_of(lines@);
                let line = PktLine::StringDataPkt(h[j].to_string());
                assert(line@ == PktView::Text(have_text(hs[j as int])));
                lines.push(line);
                assert(pkts_of(lines@) =~= before.push(line@));
                assert(before.push(line@) =~= after_flush + Seq::new(
                    (j + 1) as nat,
                    |k: int| PktView::Text(have_text(hs[k])),
                ));
                j += 1;
            }
            let ghost with_haves = pkts_of(lines@);
            lines.push(PktLine::FlushPkt);
            assert(pkts_of(lines@) =~= with_haves.push(PktView::Flush));
            proof {
                have_part = Seq::new(h@.len(), |k: int| PktView::Text(have_text(hs[k]))) + seq![
                    PktView::Flush,
                ];
                assert(pkts_of(lines@) =~= after_flush + have_part);
            }
        },
        None => {
            assert(pkts_of(lines@) =~= after_flush + have_part);
        },
    }
    let ghost body = pkts_of(lines@);
    if is_done {
        lines.push(PktLine::StringDataPkt(String::from_str("done")));
    } else {
        lines.push(PktLine::FlushPkt);
    }
    let ghost last = if is_done {
        PktView::Text("done"@)
    } else {
        PktView::Flush
    };
    assert(pkts_of(lines@) =~= body.push(last));
    assert(body.push(last) =~= head + want_part + seq![PktView::Flush] + have_part + seq![last]);
    assert(pkts_of(lines@) == spec_want_lines(
        ids,
        opt_have_ids(*haves),
        opt_capabilities(*capabilities),
        is_done,
    ));
    Ok(lines)
}

/// The body of a want request: its frames as they go on the wire.
pub fn want_request(
    wants: &Vec<WantPkt>,
    haves: &Option<Vec<HavePkt>>,
    capabilities: &Option<GitCapabilities>,
    is_done: bool,
) -> (r: Result<Vec<u8>, GitError>)
    ensures
        wants@.len() == 0 ==> (r matches Err(e) && e == GitError::NoWants),
        wants@.len() > 0 ==> (r matches Ok(body) && body@ == spec_all_bytes(
            spec_want_lines(
                want_ids(wants@),
                opt_have_ids(*haves),
                opt_capabilities(*capabilities),
                is_done,
            ),
        )),
{
    let lines = want_lines(wants, haves, capabilities, is_done)?;
    Ok(PktLine::all_to_bytes(&lines))
}

/// The pack in the answer `s` to a want request: after the frame `NAK`, the
/// pack as it is.
pub open spec fn spec_upload_pack_response(s: Seq<u8>) -> Result<
    crate::git::packfile::PackView,
    GitError,
> {
    match spec_read(s) {
        Err(e) => Err(e),
        Ok((p, n)) => if p != PktView::Text("NAK"@) {
            Err(GitError::UnexpectedPkt)
        } else {
            spec_read_pack(s.skip(n))
        },
    }
}

/// Reads the answer to a want request.
pub fn read_upload_pack_response(s: &[u8]) -> (r: Result<Packfile, GitError>)
    ensures
        match spec_upload_pack_response(s@) {
            Ok(v) => r matches Ok(pack) && pack@ == v,
            Err(e) => r matches Err(re) && re == e,
        },
{
    assert(s@.skip(0) =~= s@);
    let (p, n) = PktLine::read(s, 0)?;
    match p {
        PktLine::StringDataPkt(line) => {
            if !str_eq(line.as_str(), "NAK") {
                return Err(GitError::UnexpectedPkt);
            }
        },
        _ => {
            return Err(GitError::UnexpectedPkt);
        },
    }
    let rest = slice_subrange(s, n, s.len());
    assert(rest@ =~= s@.skip(n as int));
    Packfile::read(rest)
}

/// The first ref at or after `from` that points at `id`, among the branches
/// only where `branches_only` says so; the length where there is none.
pub open spec fn first_match(refs: Seq<GitRefView>, id: Seq<u8>, branches_only: bool, from: int) -> int
    decreases refs.len() - from,
{
    if from >= refs.len() {
        refs.len() as int
    } else if refs[from].object_id == id && (!branches_only || is_prefix(
        encode_utf8("refs/heads/"@),
        encode_utf8(refs[from].name),
    )) {
        from
    } else {
        first_match(refs, id, branches_only, from + 1)
    }
}

/// The ref that HEAD stands for: the first branch that points at the object
/// of HEAD, or where no branch does, the first ref that does.
pub open spec fn spec_head_ref(refs: Seq<GitRefView>, id: Seq<u8>) -> Option<Seq<char>> {
    let b = first_match(refs, id, true, 0);
    let a = first_match(refs, id, false, 0);
    if 0 <= b < refs.len() {
        Some(refs[b].name)
    } else if 0 <= a < refs.len() {
        Some(refs[a].name)
    } else {
        None
    }
}

/// A file below `.git`.
#[derive(Debug, Clone, PartialEq, Eq)]
pub struct RefFile {
    pub path: String,
    pub content: String,
}

impl View for RefFile {
    type V = (Seq<char>, Seq<char>);

    open spec fn view(&self) -> (Seq<char>, Seq<char>) {
        (self.path@, self.content@)
    }
}

/// The meaning of each file of a list.
pub open spec fn files_of(v: Seq<RefFile>) -> Seq<(Seq<char>, Seq<char>)> {
    Seq::new(v.len(), |i: int| v[i]@)
}

/// The files that keep what ref discovery said: `HEAD`, which names the ref
/// it stands for, and one file for each ref, which holds forty digits and a
/// newline.
pub open spec fn spec_ref_files(d: DiscoveryView) -> Result<Seq<(Seq<char>, Seq<char>)>, GitError> {
    match spec_head_ref(d.refs, d.head_object_id) {
        None => Err(GitError::NoHeadRef),
        Some(name) => Ok(
            seq![("HEAD"@, "ref: "@ + name + seq!['\n'])] + Seq::new(
                d.refs.len(),
                |i: int| (d.refs[i].name, hex_chars(d.refs[i].object_id) + seq!['\n']),
            ),
        ),
    }
}

/// Finds the first ref that points at `id`.
fn find_match(refs: &Vec<GitRef>, id: &Sha, branches_only: bool) -> (at: usize)
    ensures
        at == first_match(refs_of(refs@), id@, branches_only, 0),
        at <= refs@.len(),
{
    let ghost all = refs_of(refs@);
    let mut i: usize = 0;
    while i < refs.len()
        invariant
            i <= refs@.len(),
            all == refs_of(refs@),
            first_match(all, id@, branches_only, 0) == first_match(all, id@, branches_only, i as int),
        decreases refs@.len() - i,
    {
        assert(all[i as int] == refs@[i as int]@);
        if refs[i].object_id == *id && (!branches_only || starts_with(
            refs[i].name.as_str().as_bytes(),
            "refs/heads/".as_bytes(),
        )) {
            return i;
        }
        i += 1;
    }
    i
}

impl GitRefDiscoveryResponse {
    /// The name of the ref that HEAD stands for.
    pub fn head_ref(&self) -> (r: Option<&String>)
        ensures
            match spec_head_ref(self@.refs, self@.head_object_id) {
                Some(name) => r matches Some(s) && s@ == name,
                None => r is None,
            },
    {
        let b = find_match(&self.refs, &self.head_object_id, true);
        if b < self.refs.len() {
            return Some(&self.refs[b].name);
        }
        let a = find_match(&self.refs, &self.head_object_id, false);
        if a < self.refs.len() {
            return Some(&self.refs[a].name);
        }
        None
    }

    /// The files to write below `.git`: `HEAD` first, then the refs.
    pub fn write(&self) -> (r: Result<Vec<RefFile>, GitError>)
        ensures
            match spec_ref_files(self@) {
                Ok(files) => r matches Ok(v) && files_of(v@) == files,
                Err(e) => r matches Err(re) && re == e,
            },
    {
        let name = match self.head_ref() {
            None => {
                return Err(GitError::NoHeadRef);
            },
            Some(name) => name,
        };
        proof {
            reveal_strlit("\n");
            assert("\n"@ =~= seq!['\n']);
        }
        let mut content = String::from_str("ref: ");
        content.append(name.as_str());
        content.append("\n");
        let mut files: Vec<RefFile> = Vec::new();
        files.push(RefFile { path: String::from_str("HEAD"), content });
        let ghost head = files_of(files@);
        let ghost refs = self@.refs;
        assert(head =~= seq![("HEAD"@, "ref: "@ + name@ + seq!['\n'])]);
        let mut i: usize = 0;
        while i < self.refs.len()
            invariant
                i <= self.refs@.len(),
                refs == refs_of(self.refs@),
                "\n"@ == seq!['\n'],
                files_of(files@) == head + Seq::new(
                    i as nat,
                    |k: int| (refs[k].name, hex_chars(refs[k].object_id) + seq!['\n']),
                ),
            decreases self.refs@.len() - i,
        {
            let ghost before = files_of(files@);
            let mut content = self.refs[i].object_id.to_hex();
            content.append("\n");
            let file = RefFile { path: self.refs[i].name.clone(), content };
            assert(refs[i as int] == self.refs@[i as int]@);
            assert(file@ == (refs[i as int].name, hex_chars(refs[i as int].object_id) + seq!['\n']));
            files.push(file);
            assert(files_of(files@) =~= before.push(file@));
            assert(before.push(file@) =~= head + Seq::new(
                (i + 1) as nat,
                |k: int| (refs[k].name, hex_chars(refs[k].object_id) + seq!['\n']),
            ));
            i += 1;
        }
        Ok(files)
    }
}

} // verus!
