//! The decisions of a clone. The transport fetches and writes; what is asked
//! of the server, what its answers mean, and what goes to disk is decided
//! here, one step at a time.

use crate::compression::zlib_deflated;
use crate::error::GitError;
use crate::git::any_git_object::{body_of, identity, type_of, ObjectView};
use crate::git::checkout::{plan_checkout, spec_plan_checkout, steps_of, CheckoutStep, StepView};
use crate::git::git_object_trait::{framed, LooseObject};
use crate::git::object_map::{resolve_deltas, spec_objects_of_pack, ObjectMap};
use crate::git::packfile::Packfile;
use crate::git::pkt_line::spec_all_bytes;
use crate::git::refs::{spec_discovery, str_eq, DiscoveryView, GitRefDiscoveryResponse};
use crate::git::upload_pack::{
    files_of, read_upload_pack_response, spec_ref_files, spec_upload_pack_response,
    spec_want_lines, want_request, RefFile, WantPkt,
};
use crate::sha::digest_limit;
use url::Url;
use vstd::prelude::*;

verus! {

/// Whether `s` ends with `suffix`.
pub open spec fn is_suffix(suffix: Seq<char>, s: Seq<char>) -> bool {
    suffix.len() <= s.len() && s.subrange(s.len() - suffix.len(), s.len() as int) == suffix
}

/// Whether `s` ends with `suffix`.
pub fn str_ends_with(s: &str, suffix: &str) -> (r: bool)
    ensures
        r == is_suffix(suffix@, s@),
{
    let n = s.unicode_len();
    let m = suffix.unicode_len();
    if m > n {
        return false;
    }
    str_eq(s.substring_char(n - m, n), suffix)
}

/// The address of a repository, made to end in `.git/`.
pub open spec fn spec_normalized(url: Seq<char>) -> Seq<char> {
    if is_suffix(".git/"@, url) {
        url
    } else if is_suffix(".git"@, url) {
        url + "/"@
    } else if is_suffix("/"@, url) {
        url.subrange(0, url.len() - 1) + ".git/"@
    } else {
        url + ".git/"@
    }
}

/// Makes the address of a repository end in `.git/`.
pub fn normalize_url(url: &str) -> (r: String)
    ensures
        r@ == spec_normalized(url@),
{
    if str_ends_with(url, ".git/") {
        String::from_str(url)
    } else if str_ends_with(url, ".git") {
        let mut r = String::from_str(url);
        r.append("/");
        r
    } else if str_ends_with(url, "/") {
        proof {
            reveal_strlit("/");
        }
        let n = url.unicode_len();
        let mut r = String::from_str(url.substring_char(0, n - 1));
        r.append(".git/");
        r
    } else {
        let mut r = String::from_str(url);
        r.append(".git/");
        r
    }
}

/// The address that `text` writes, in its normal form, where `text` writes
/// an address.
pub uninterp spec fn url_parsed(text: Seq<char>) -> Option<Seq<char>>;

/// The address that `path` names when it is met at the address `base`, in
/// its normal form, where both write addresses.
pub uninterp spec fn url_joined(base: Seq<char>, path: Seq<char>) -> Option<Seq<char>>;

/// The text of an optional string.
pub open spec fn opt_text(r: Option<String>) -> Option<Seq<char>> {
    match r {
        Some(s) => Some(s@),
        None => None,
    }
}

/// `Url::parse` of the `url` crate: the serialization of the address parsed
/// from `text`, or nothing where it reported an error.
#[verifier::external_body]
fn parse_url(text: &str) -> (r: Option<String>)
    ensures
        opt_text(r) == url_parsed(text@),
{
    Url::parse(text).ok().map(String::from)
}

/// `Url::join` of the `url` crate, on the address parsed from `base`: the
/// serialization of the address it gave for `path`, or nothing where parsing
/// or joining reported an error.
#[verifier::external_body]
fn join_url(base: &str, path: &str) -> (r: Option<String>)
    ensures
        opt_text(r) == url_joined(base@, path@),
{
    Url::parse(base).ok()?.join(path).ok().map(String::from)
}

/// The path of ref discovery, below the address of the repository.
pub open spec fn ref_discovery_path() -> Seq<char> {
    "info/refs?service=git-upload-pack"@
}

/// The path of the want request, below the address of the repository.
pub open spec fn upload_pack_path() -> Seq<char> {
    "git-upload-pack"@
}

/// The content type of a want request.
pub fn upload_pack_content_type() -> (r: &'static str)
    ensures
        r@ == "application/x-git-upload-pack-request"@,
{
    "application/x-git-upload-pack-request"
}

/// A repository on a server, known by its address.
#[derive(Debug, PartialEq, Eq)]
pub struct GitClient {
    /// The address, in its normal form; it ends in `.git/`.
    pub url: String,
}

/// All that a clone writes: the objects, the files below `.git`, and the
/// steps of the checkout, to be done in this order.
#[derive(Debug, Clone, PartialEq, Eq)]
pub struct RepositoryPlan {
    pub objects: Vec<LooseObject>,
    pub refs: Vec<RefFile>,
    pub checkout: Vec<CheckoutStep>,
}

/// What a plan means.
pub struct PlanView {
    pub objects: Seq<(Seq<u8>, Seq<u8>)>,
    pub refs: Seq<(Seq<char>, Seq<char>)>,
    pub checkout: Seq<StepView>,
}

/// The identity and the file content of each object of a list.
pub open spec fn loose_of(v: Seq<LooseObject>) -> Seq<(Seq<u8>, Seq<u8>)> {
    Seq::new(v.len(), |i: int| (v[i].sha@, v[i].content@))
}

impl View for RepositoryPlan {
    type V = PlanView;

    open spec fn view(&self) -> PlanView {
        PlanView {
            objects: loose_of(self.objects@),
            refs: files_of(self.refs@),
            checkout: steps_of(self.checkout@),
        }
    }
}

/// What the store must hold for one object: its identity, and the zlib
/// stream of its header and body.
pub open spec fn spec_loose(obj: ObjectView) -> Result<(Seq<u8>, Seq<u8>), GitError> {
    match zlib_deflated(framed(type_of(obj), body_of(obj))) {
        None => Err(GitError::Decompress),
        Some(stream) => if framed(type_of(obj), body_of(obj)).len() >= digest_limit() {
            Err(GitError::TooLarge)
        } else {
            Ok((identity(obj), stream))
        },
    }
}

/// What the store must hold for the objects of a map, in its order.
pub open spec fn spec_loose_objects(map: Seq<(Seq<u8>, ObjectView)>) -> Result<
    Seq<(Seq<u8>, Seq<u8>)>,
    GitError,
>
    decreases map.len(),
{
    if map.len() == 0 {
        Ok(Seq::empty())
    } else {
        match spec_loose(map[0].1) {
            Err(e) => Err(e),
            Ok(first) => match spec_loose_objects(map.skip(1)) {
                Err(e) => Err(e),
                Ok(rest) => Ok(seq![first] + rest),
            },
        }
    }
}

/// All that a clone writes, given what ref discovery said and the objects:
/// every object, `HEAD` and the refs, and the checkout of the commit that
/// HEAD names.
pub open spec fn spec_plan(d: DiscoveryView, map: Seq<(Seq<u8>, ObjectView)>) -> Result<
    PlanView,
    GitError,
> {
    match (
        spec_plan_checkout(map, d.head_object_id),
        spec_loose_objects(map),
        spec_ref_files(d),
    ) {
        (Err(e), _, _) => Err(e),
        (_, Err(e), _) => Err(e),
        (_, _, Err(e)) => Err(e),
        (Ok(checkout), Ok(objects), Ok(refs)) => Ok(PlanView { objects, refs, checkout }),
    }
}

/// What the store must hold for the objects of a map.
#[verifier::loop_isolation(false)]
pub fn loose_objects(map: &ObjectMap) -> (r: Result<Vec<LooseObject>, GitError>)
    ensures
        match spec_loose_objects(map@) {
            Ok(objects) => r matches Ok(v) && loose_of(v@) == objects,
            Err(e) => r matches Err(re) && re == e,
        },
{
    let mut out: Vec<LooseObject> = Vec::new();
    let mut i: usize = 0;
    assert(map@.skip(0) =~= map@);
    assert(loose_of(out@) =~= Seq::<(Seq<u8>, Seq<u8>)>::empty());
    while i < map.entries.len()
        invariant
            i <= map.entries@.len(),
            spec_loose_objects(map@) == match spec_loose_objects(map@.skip(i as int)) {
                Ok(rest) => Ok::<Seq<(Seq<u8>, Seq<u8>)>, GitError>(loose_of(out@) + rest),
                Err(e) => Err(e),
            },
        decreases map.entries@.len() - i,
    {
        let ghost before = loose_of(out@);
        assert(map@.skip(i as int)[0] == map@[i as int]);
        assert(map@.skip(i as int).skip(1) =~= map@.skip(i + 1));
        assert(map@[i as int].1 == map.entries@[i as int].1@);
        let loose = map.entries[i].1.write()?;
        proof {
            let first = (loose.sha@, loose.content@);
            match spec_loose_objects(map@.skip(i + 1)) {
                Ok(rest) => {
                    assert(before + (seq![first] + rest) =~= (before + seq![first]) + rest);
                },
                Err(e) => {},
            }
            assert(loose_of(out@.push(loose)) =~= before + seq![first]);
        }
        out.push(loose);
        i += 1;
    }
    proof {
        assert(loose_of(out@) + Seq::<(Seq<u8>, Seq<u8>)>::empty() =~= loose_of(out@));
    }
    Ok(out)
}

/// All that a clone writes.
pub fn plan_repository(discovery: &GitRefDiscoveryResponse, map: &ObjectMap) -> (r: Result<
    RepositoryPlan,
    GitError,
>)
    ensures
        match spec_plan(discovery@, map@) {
            Ok(plan) => r matches Ok(p) && p@ == plan,
            Err(e) => r matches Err(re) && re == e,
        },
{
    let checkout = plan_checkout(map, &discovery.head_object_id)?;
    let objects = loose_objects(map)?;
    let refs = discovery.write()?;
    Ok(RepositoryPlan { objects, refs, checkout })
}

/// Where a clone stands.
#[derive(Debug, Clone, PartialEq, Eq)]
pub enum CloneState {
    /// Nothing is known yet; ref discovery is under way.
    Init,
    /// The refs are known; the want request is under way.
    Discovered(GitRefDiscoveryResponse),
    /// The answer to the want request is here, unread.
    PackReceived(GitRefDiscoveryResponse, Vec<u8>),
    /// The pack is read; its deltas are not resolved yet.
    ObjectsIndexed(GitRefDiscoveryResponse, Packfile),
    /// Every object is known; the repository is being written.
    Resolved,
    /// The repository is written.
    Done,
    /// The clone failed; nothing more is done.
    Fatal(GitError),
}

/// What happened outside since the last step.
#[derive(Debug, Clone, PartialEq, Eq)]
pub enum CloneEvent {
    /// The server answered ref discovery with these bytes.
    RefsFetched(Vec<u8>),
    /// The server answered the want request with these bytes.
    PackFetched(Vec<u8>),
    /// Nothing: the clone begins, or the last step asked for nothing
    /// outside.
    Proceed,
    /// The plan was carried out.
    Written,
    /// What was asked for failed.
    Failed,
}

/// What to do outside before the next step.
#[derive(Debug, Clone, PartialEq, Eq)]
pub enum CloneAction {
    /// Get this address, and come back with the answer.
    FetchRefs(String),
    /// Post this want request to this address, and come back with the
    /// answer.
    RequestPack(String, Vec<u8>),
    /// Nothing; come back at once.
    Proceed,
    /// Write all this, and come back.
    WriteRepository(RepositoryPlan),
    /// The clone is done.
    Finish,
    /// The clone failed.
    Abort,
}

/// The want request of a clone: the object of HEAD alone, no haves, no
/// capabilities, and done.
pub open spec fn spec_clone_request(d: DiscoveryView) -> Seq<u8> {
    spec_all_bytes(spec_want_lines(seq![d.head_object_id], None, None, true))
}

/// What follows when a clone of the repository at `url` begins: ref
/// discovery at its address.
pub open spec fn begins(url: Seq<char>, next: CloneState, action: CloneAction) -> bool {
    match url_joined(url, ref_discovery_path()) {
        Some(address) => {
            &&& next is Init
            &&& action matches CloneAction::FetchRefs(a) && a@ == address
        },
        None => next == CloneState::Fatal(GitError::BadUrl) && action is Abort,
    }
}

/// What follows when the refs of the repository at `url` are known: the
/// want request at its address.
pub open spec fn discovered(url: Seq<char>, d: DiscoveryView, next: CloneState, action: CloneAction) -> bool {
    match url_joined(url, upload_pack_path()) {
        Some(address) => {
            &&& next matches CloneState::Discovered(found) && found@ == d
            &&& action matches CloneAction::RequestPack(a, body) && a@ == address && body@
                == spec_clone_request(d)
        },
        None => next == CloneState::Fatal(GitError::BadUrl) && action is Abort,
    }
}

/// Whether `next` and `action` are what follows from `state` and `event` in
/// a clone of the repository at `url`. Ref discovery leads to the want
/// request, its answer to the pack, the pack to the objects, the objects to
/// the plan, and the written plan to the end. Whatever fails is fatal, and so
/// is an event that the state does not expect; a fatal state stays.
pub open spec fn follows(
    url: Seq<char>,
    state: CloneState,
    event: CloneEvent,
    next: CloneState,
    action: CloneAction,
) -> bool {
    match (state, event) {
        (CloneState::Fatal(e), _) => next == CloneState::Fatal(e) && action is Abort,
        (_, CloneEvent::Failed) => next == CloneState::Fatal(GitError::Io) && action is Abort,
        (CloneState::Init, CloneEvent::Proceed) => begins(url, next, action),
        (CloneState::Init, CloneEvent::RefsFetched(bytes)) => match spec_discovery(bytes@) {
            Ok(d) => discovered(url, d, next, action),
            Err(e) => next == CloneState::Fatal(e) && action is Abort,
        },
        (CloneState::Discovered(d), CloneEvent::PackFetched(bytes)) => {
            &&& next matches CloneState::PackReceived(kept, answer) && kept@ == d@ && answer@
                == bytes@
            &&& action is Proceed
        },
        (CloneState::PackReceived(d, bytes), CloneEvent::Proceed) => match spec_upload_pack_response(
            bytes@,
        ) {
            Ok(pack) => {
                &&& next matches CloneState::ObjectsIndexed(kept, read) && kept@ == d@ && read@
                    == pack
                &&& action is Proceed
            },
            Err(e) => next == CloneState::Fatal(e) && action is Abort,
        },
        (CloneState::ObjectsIndexed(d, pack), CloneEvent::Proceed) => match spec_objects_of_pack(
            pack@.chunks,
        ) {
            Err(e) => next == CloneState::Fatal(e) && action is Abort,
            Ok(map) => match spec_plan(d@, map) {
                Ok(plan) => {
                    &&& next is Resolved
                    &&& action matches CloneAction::WriteRepository(p) && p@ == plan
                },
                Err(e) => next == CloneState::Fatal(e) && action is Abort,
            },
        },
        (CloneState::Resolved, CloneEvent::Written) => next is Done && action is Finish,
        _ => next == CloneState::Fatal(GitError::Usage) && action is Abort,
    }
}

impl GitClient {
    /// The repository at `url`, which is made to end in `.git/`.
    pub fn new(url: &str) -> (r: Result<GitClient, GitError>)
        ensures
            match url_parsed(spec_normalized(url@)) {
                Some(address) => r matches Ok(client) && client.url@ == address,
                None => r matches Err(e) && e == GitError::BadUrl,
            },
    {
        let normalized = normalize_url(url);
        match parse_url(normalized.as_str()) {
            Some(url) => Ok(GitClient { url }),
            None => Err(GitError::BadUrl),
        }
    }

    /// The address of ref discovery.
    pub fn ref_discovery_url(&self) -> (r: Result<String, GitError>)
        ensures
            match url_joined(self.url@, ref_discovery_path()) {
                Some(address) => r matches Ok(a) && a@ == address,
                None => r matches Err(e) && e == GitError::BadUrl,
            },
    {
        match join_url(self.url.as_str(), "info/refs?service=git-upload-pack") {
            Some(address) => Ok(address),
            None => Err(GitError::BadUrl),
        }
    }

    /// The address of the want request.
    pub fn upload_pack_url(&self) -> (r: Result<String, GitError>)
        ensures
            match url_joined(self.url@, upload_pack_path()) {
                Some(address) => r matches Ok(a) && a@ == address,
                None => r matches Err(e) && e == GitError::BadUrl,
            },
    {
        match join_url(self.url.as_str(), "git-upload-pack") {
            Some(address) => Ok(address),
            None => Err(GitError::BadUrl),
        }
    }

    /// One step of a clone of this repository: from where the clone stands
    /// and what happened, to where it stands then and what to do. A clone
    /// begins in `Init` with `Proceed`.
    #[verifier::rlimit(50)]
    pub fn clone(&self, state: CloneState, event: CloneEvent) -> (r: (CloneState, CloneAction))
        ensures
            follows(self.url@, state, event, r.0, r.1),
    {
        match (state, event) {
            (CloneState::Fatal(e), _) => (CloneState::Fatal(e), CloneAction::Abort),
            (_, CloneEvent::Failed) => (CloneState::Fatal(GitError::Io), CloneAction::Abort),
            (CloneState::Init, CloneEvent::Proceed) => match self.ref_discovery_url() {
                Ok(address) => (CloneState::Init, CloneAction::FetchRefs(address)),
                Err(e) => (CloneState::Fatal(e), CloneAction::Abort),
            },
            (CloneState::Init, CloneEvent::RefsFetched(bytes)) => {
                match GitRefDiscoveryResponse::read(bytes.as_slice()) {
                    Err(e) => (CloneState::Fatal(e), CloneAction::Abort),
                    Ok(found) => {
                        let mut wants: Vec<WantPkt> = Vec::new();
                        wants.push(WantPkt { object_id: found.head_object_id });
                        assert(crate::git::upload_pack::want_ids(wants@) =~= seq![
                            found@.head_object_id,
                        ]);
                        match (self.upload_pack_url(), want_request(&wants, &None, &None, true)) {
                            (Ok(address), Ok(body)) => (
                                CloneState::Discovered(found),
                                CloneAction::RequestPack(address, body),
                            ),
                            (Err(e), _) => (CloneState::Fatal(e), CloneAction::Abort),
                            (_, Err(e)) => (CloneState::Fatal(e), CloneAction::Abort),
                        }
                    },
                }
            },
            (CloneState::Discovered(d), CloneEvent::PackFetched(bytes)) => (
                CloneState::PackReceived(d, bytes),
                CloneAction::Proceed,
            ),
            (CloneState::PackReceived(d, bytes), CloneEvent::Proceed) => {
                match read_upload_pack_response(bytes.as_slice()) {
                    Err(e) => (CloneState::Fatal(e), CloneAction::Abort),
                    Ok(pack) => (CloneState::ObjectsIndexed(d, pack), CloneAction::Proceed),
                }
            },
            (CloneState::ObjectsIndexed(d, pack), CloneEvent::Proceed) => {
                match resolve_deltas(pack.chunks) {
                    Err(e) => (CloneState::Fatal(e), CloneAction::Abort),
                    Ok(map) => match plan_repository(&d, &map) {
                        Err(e) => (CloneState::Fatal(e), CloneAction::Abort),
                        Ok(plan) => (CloneState::Resolved, CloneAction::WriteRepository(plan)),
                    },
                }
            },
            (CloneState::Resolved, CloneEvent::Written) => (CloneState::Done, CloneAction::Finish),
            _ => (CloneState::Fatal(GitError::Usage), CloneAction::Abort),
        }
    }
}

} // verus!
