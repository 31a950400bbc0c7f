use gitcore::compression::compress;
use gitcore::error::GitError;
use gitcore::git::any_git_object::AnyGitObject;
use gitcore::git::checkout::{plan_checkout, CheckoutStep};
use gitcore::git::commits::{Commit, CommitActor};
use gitcore::git::git_blob::Blob;
use gitcore::git::git_client::{
    loose_objects, normalize_url, plan_repository, str_ends_with, upload_pack_content_type,
    CloneAction, CloneEvent, CloneState, GitClient,
};
use gitcore::git::git_object_trait::GitObject;
use gitcore::git::git_tree::{FileMode, Tree, TreeEntry};
use gitcore::git::object_map::ObjectMap;
use gitcore::git::pkt_line::PktLine;
use gitcore::git::refs::{starts_with, str_eq, GitCapabilities, GitRef, GitRefDiscoveryResponse};
use gitcore::git::upload_pack::{
    join_words, read_upload_pack_response, want_lines, want_request, HavePkt, RefFile, ToPktLine,
    WantPkt,
};
use gitcore::sha::Sha;

const HEAD: &str = "ce013625030ba8dba906f756967f9e9ca394464a";
const OTHER: &str = "4b825dc642cb6eb9a060e54bf8d69288fbee4904";

fn sha_of_hex(hex: &str) -> Sha {
    Sha::from_hex(hex.as_bytes()).unwrap()
}

fn text(s: &str) -> Vec<u8> {
    PktLine::StringDataPkt(s.to_string()).to_bytes()
}

fn discovery(lines: &[&str]) -> Vec<u8> {
    let mut out = text("# service=git-upload-pack");
    out.extend_from_slice(b"0000");
    for line in lines {
        out.extend(text(line));
    }
    out.extend_from_slice(b"0000");
    out
}

fn git_ref(hex: &str, name: &str) -> GitRef {
    GitRef { object_id: sha_of_hex(hex), name: name.to_string() }
}

fn actor() -> CommitActor {
    CommitActor {
        name: "A".to_string(),
        email: "a@x".to_string(),
        epoch: 1,
        timezone: "+0000".to_string(),
    }
}

fn object_header(kind: u8, size: usize) -> Vec<u8> {
    let mut out = Vec::new();
    let mut first = (kind << 4) | (size & 0x0f) as u8;
    let mut rest = size >> 4;
    while rest > 0 {
        out.push(first | 0x80);
        first = (rest & 0x7f) as u8;
        rest >>= 7;
    }
    out.push(first);
    out
}

fn pack_of(objects: &[(u8, Vec<u8>)]) -> Vec<u8> {
    let mut out = b"PACK".to_vec();
    out.extend_from_slice(&2u32.to_be_bytes());
    out.extend_from_slice(&(objects.len() as u32).to_be_bytes());
    for (kind, body) in objects {
        out.extend(object_header(*kind, body.len()));
        out.extend(compress(body.clone()).unwrap());
    }
    let trailer = Sha::digest(&out).unwrap();
    out.extend_from_slice(&trailer.0);
    out
}

#[test]
fn ref_discovery_is_read() {
    let bytes = discovery(&[
        &format!("{HEAD} HEAD\0multi_ack thin-pack"),
        &format!("{HEAD} refs/heads/main"),
        &format!("{OTHER} refs/tags/v1"),
    ]);
    assert_eq!(
        bytes[..34].to_vec(),
        b"001e# service=git-upload-pack\n0000".to_vec()
    );
    let read = GitRefDiscoveryResponse::read(&bytes).unwrap();
    assert_eq!(read.head_object_id, sha_of_hex(HEAD));
    assert_eq!(
        read.capabilities,
        GitCapabilities(vec!["multi_ack".to_string(), "thin-pack".to_string()])
    );
    assert_eq!(read.refs, vec![git_ref(HEAD, "refs/heads/main"), git_ref(OTHER, "refs/tags/v1")]);
}

#[test]
fn ref_discovery_keeps_the_last_ref_of_a_name() {
    let bytes = discovery(&[
        &format!("{HEAD} HEAD\0"),
        &format!("{HEAD} refs/heads/a"),
        &format!("{HEAD} refs/heads/b"),
        &format!("{OTHER} refs/heads/a"),
    ]);
    let read = GitRefDiscoveryResponse::read(&bytes).unwrap();
    assert_eq!(read.refs, vec![git_ref(OTHER, "refs/heads/a"), git_ref(HEAD, "refs/heads/b")]);
    assert_eq!(read.capabilities, GitCapabilities(vec![String::new()]));
}

#[test]
fn ref_discovery_ignores_what_follows_the_last_flush() {
    let mut bytes = discovery(&[&format!("{HEAD} HEAD\0x"), &format!("{HEAD} refs/heads/main")]);
    bytes.extend_from_slice(b"garbage");
    assert!(GitRefDiscoveryResponse::read(&bytes).is_ok());
}

#[test]
fn broken_ref_discovery_is_refused() {
    let head = format!("{HEAD} HEAD\0caps");
    assert_eq!(GitRefDiscoveryResponse::read(b""), Err(GitError::PktTruncated));
    let mut wrong_service = text("# service=git-receive-pack");
    wrong_service.extend_from_slice(b"0000");
    assert_eq!(GitRefDiscoveryResponse::read(&wrong_service), Err(GitError::UnexpectedPkt));
    let mut no_flush = text("# service=git-upload-pack");
    no_flush.extend(text(&head));
    assert_eq!(GitRefDiscoveryResponse::read(&no_flush), Err(GitError::UnexpectedPkt));
    let mut no_head = text("# service=git-upload-pack");
    no_head.extend_from_slice(b"00000000");
    assert_eq!(GitRefDiscoveryResponse::read(&no_head), Err(GitError::UnexpectedPkt));
    assert_eq!(
        GitRefDiscoveryResponse::read(&discovery(&[&format!("{HEAD} refs/heads/main\0caps")])),
        Err(GitError::UnexpectedPkt)
    );
    assert_eq!(
        GitRefDiscoveryResponse::read(&discovery(&["zz HEAD\0caps"])),
        Err(GitError::InvalidHex)
    );
    assert_eq!(
        GitRefDiscoveryResponse::read(&discovery(&["abcd HEAD\0caps"])),
        Err(GitError::WrongHashLength)
    );
    assert_eq!(
        GitRefDiscoveryResponse::read(&discovery(&[&head, "abcd refs/heads/main"])),
        Err(GitError::WrongHashLength)
    );
    let mut binary = text("# service=git-upload-pack");
    binary.extend_from_slice(b"0000");
    binary.extend(text(&head));
    binary.extend(PktLine::BinaryDataPkt(vec![1, 2, 3]).to_bytes());
    binary.extend_from_slice(b"0000");
    assert_eq!(GitRefDiscoveryResponse::read(&binary), Err(GitError::UnexpectedPkt));
    let mut unfinished = text("# service=git-upload-pack");
    unfinished.extend_from_slice(b"0000");
    unfinished.extend(text(&head));
    assert_eq!(GitRefDiscoveryResponse::read(&unfinished), Err(GitError::PktTruncated));
}

#[test]
fn ref_and_capabilities_are_read_from_lines() {
    assert_eq!(
        GitRef::read(format!("{HEAD} refs/heads/with space").as_bytes()),
        Ok(git_ref(HEAD, "refs/heads/with space"))
    );
    assert_eq!(GitRef::read(HEAD.as_bytes()), Ok(git_ref(HEAD, "")));
    assert_eq!(GitRef::read(b""), Err(GitError::WrongHashLength));
    assert_eq!(
        GitCapabilities::read(b"a  b "),
        Ok(GitCapabilities(vec![
            "a".to_string(),
            String::new(),
            "b".to_string(),
            String::new(),
        ]))
    );
    assert_eq!(GitCapabilities::read(b""), Ok(GitCapabilities(vec![String::new()])));
    assert_eq!(GitCapabilities::read(&[b'a', b' ', 0xff]), Err(GitError::InvalidUtf8));
}

#[test]
fn head_stands_for_the_first_branch_that_points_at_its_object() {
    let response = |refs| GitRefDiscoveryResponse {
        refs,
        head_object_id: sha_of_hex(HEAD),
        capabilities: GitCapabilities(vec![]),
    };
    let tagged = response(vec![
        git_ref(HEAD, "refs/tags/v1"),
        git_ref(OTHER, "refs/heads/old"),
        git_ref(HEAD, "refs/heads/main"),
        git_ref(HEAD, "refs/heads/copy"),
    ]);
    assert_eq!(tagged.head_ref(), Some(&"refs/heads/main".to_string()));
    let only_tag = response(vec![git_ref(OTHER, "refs/heads/old"), git_ref(HEAD, "refs/tags/v1")]);
    assert_eq!(only_tag.head_ref(), Some(&"refs/tags/v1".to_string()));
    let none = response(vec![git_ref(OTHER, "refs/heads/old")]);
    assert_eq!(none.head_ref(), None);
    assert_eq!(none.write(), Err(GitError::NoHeadRef));
}

#[test]
fn refs_are_written_below_dot_git() {
    let response = GitRefDiscoveryResponse {
        refs: vec![git_ref(HEAD, "refs/heads/main"), git_ref(OTHER, "refs/tags/v1")],
        head_object_id: sha_of_hex(HEAD),
        capabilities: GitCapabilities(vec![]),
    };
    assert_eq!(
        response.write(),
        Ok(vec![
            RefFile { path: "HEAD".to_string(), content: "ref: refs/heads/main\n".to_string() },
            RefFile { path: "refs/heads/main".to_string(), content: format!("{HEAD}\n") },
            RefFile { path: "refs/tags/v1".to_string(), content: format!("{OTHER}\n") },
        ])
    );
}

#[test]
fn want_request_of_a_clone() {
    let wants = vec![WantPkt { object_id: sha_of_hex(HEAD) }];
    assert_eq!(
        want_request(&wants, &None, &None, true),
        Ok(format!("0032want {HEAD}\n00000009done\n").into_bytes())
    );
    assert_eq!(
        want_request(&wants, &None, &None, false),
        Ok(format!("0032want {HEAD}\n00000000").into_bytes())
    );
}

#[test]
fn want_request_with_capabilities_and_haves() {
    let wants = vec![
        WantPkt { object_id: sha_of_hex(HEAD) },
        WantPkt { object_id: sha_of_hex(OTHER) },
    ];
    let haves = Some(vec![HavePkt { object_id: sha_of_hex(OTHER) }]);
    let caps = Some(GitCapabilities(vec!["multi_ack".to_string(), "ofs-delta".to_string()]));
    assert_eq!(
        want_lines(&wants, &haves, &caps, true),
        Ok(vec![
            PktLine::StringDataPkt(format!("want {HEAD} multi_ack ofs-delta")),
            PktLine::StringDataPkt(format!("want {OTHER}")),
            PktLine::FlushPkt,
            PktLine::StringDataPkt(format!("have {OTHER}")),
            PktLine::FlushPkt,
            PktLine::StringDataPkt("done".to_string()),
        ])
    );
    assert_eq!(
        want_lines(&wants[..1].to_vec(), &Some(vec![]), &Some(GitCapabilities(vec![])), false),
        Ok(vec![
            PktLine::StringDataPkt(format!("want {HEAD} ")),
            PktLine::FlushPkt,
            PktLine::FlushPkt,
            PktLine::FlushPkt,
        ])
    );
    assert_eq!(want_lines(&vec![], &haves, &caps, true), Err(GitError::NoWants));
    assert_eq!(want_request(&vec![], &None, &None, true), Err(GitError::NoWants));
}

#[test]
fn values_become_frames() {
    let want = WantPkt { object_id: sha_of_hex(HEAD) };
    let have = HavePkt { object_id: sha_of_hex(HEAD) };
    assert_eq!(want.to_string(), format!("want {HEAD}"));
    assert_eq!(have.to_string(), format!("have {HEAD}"));
    assert_eq!(want.to_pkt_line(), PktLine::StringDataPkt(format!("want {HEAD}")));
    assert_eq!(have.to_pkt_line(), PktLine::StringDataPkt(format!("have {HEAD}")));
    assert_eq!("x".to_string().to_pkt_line(), PktLine::StringDataPkt("x".to_string()));
    assert_eq!(vec![1u8, 2].to_pkt_line(), PktLine::BinaryDataPkt(vec![1, 2]));
    assert_eq!(PktLine::FlushPkt.to_pkt_line(), PktLine::FlushPkt);
    assert_eq!(join_words(&vec![]), "");
    assert_eq!(join_words(&vec!["a".to_string()]), "a");
    assert_eq!(join_words(&vec!["a".to_string(), String::new(), "c".to_string()]), "a  c");
}

#[test]
fn answer_to_a_want_request_is_read() {
    let pack = pack_of(&[(3, b"hello\n".to_vec())]);
    let mut answer = text("NAK");
    answer.extend_from_slice(&pack);
    let read = read_upload_pack_response(&answer).unwrap();
    assert_eq!(read.chunks.len(), 1);
    let mut ack = text("ACK");
    ack.extend_from_slice(&pack);
    assert_eq!(read_upload_pack_response(&ack), Err(GitError::UnexpectedPkt));
    assert_eq!(read_upload_pack_response(&pack), Err(GitError::BadPktLength));
    assert_eq!(read_upload_pack_response(&text("NAK")), Err(GitError::BadPackHeader));
    let mut flush = b"0000".to_vec();
    flush.extend_from_slice(&pack);
    assert_eq!(read_upload_pack_response(&flush), Err(GitError::UnexpectedPkt));
}

#[test]
fn addresses_are_made_to_end_in_dot_git() {
    assert_eq!(normalize_url("https://host/repo.git/"), "https://host/repo.git/");
    assert_eq!(normalize_url("https://host/repo.git"), "https://host/repo.git/");
    assert_eq!(normalize_url("https://host/repo/"), "https://host/repo.git/");
    assert_eq!(normalize_url("https://host/repo"), "https://host/repo.git/");
    assert_eq!(normalize_url("https://host/répo"), "https://host/répo.git/");
    assert_eq!(normalize_url(""), ".git/");
    assert_eq!(normalize_url("/"), ".git/");
    assert_eq!(upload_pack_content_type(), "application/x-git-upload-pack-request");
}

#[test]
fn client_knows_the_addresses_of_a_repository() {
    let client = GitClient::new("HTTPS://Example.COM/user/repo").unwrap();
    assert_eq!(client.url, "https://example.com/user/repo.git/");
    assert_eq!(
        client.ref_discovery_url(),
        Ok("https://example.com/user/repo.git/info/refs?service=git-upload-pack".to_string())
    );
    assert_eq!(
        client.upload_pack_url(),
        Ok("https://example.com/user/repo.git/git-upload-pack".to_string())
    );
    assert_eq!(GitClient::new("http://host/a/b.git/").unwrap().url, "http://host/a/b.git/");
    assert_eq!(GitClient::new("no address"), Err(GitError::BadUrl));
    assert_eq!(GitClient::new(""), Err(GitError::BadUrl));
    let odd = GitClient { url: "not parsed".to_string() };
    assert_eq!(odd.ref_discovery_url(), Err(GitError::BadUrl));
    assert_eq!(odd.upload_pack_url(), Err(GitError::BadUrl));
}

#[test]
fn string_helpers() {
    assert!(str_ends_with("répo.git", ".git"));
    assert!(str_ends_with("x", ""));
    assert!(!str_ends_with("git", ".git"));
    assert!(!str_ends_with("repo.git/", ".git"));
    assert!(str_eq("é", "é"));
    assert!(!str_eq("e", "é"));
    assert!(starts_with(b"refs/heads/main", b"refs/heads/"));
    assert!(!starts_with(b"refs/head", b"refs/heads/"));
    assert!(starts_with(b"x", b""));
}

fn repository() -> (ObjectMap, Sha) {
    let readme = Blob::new(b"read me\n".to_vec());
    let run = Blob::new(b"#!/bin/sh\n".to_vec());
    let target = Blob::new(b"README".to_vec());
    let inner = Blob::new(b"inner\n".to_vec());
    let sub = Tree::new(vec![
        TreeEntry::new(&inner, "inner.txt".to_string(), FileMode::Regular).unwrap(),
    ]);
    let root = Tree::new(vec![
        TreeEntry::new(&run, "run.sh".to_string(), FileMode::Executable).unwrap(),
        TreeEntry::new(&sub, "sub".to_string(), FileMode::Directory).unwrap(),
        TreeEntry::new(&readme, "README".to_string(), FileMode::Regular).unwrap(),
        TreeEntry::new(&target, "link".to_string(), FileMode::Symbolic).unwrap(),
    ]);
    let commit =
        Commit::new(root.sha1().unwrap().0, vec![], actor(), Some(actor()), "init\n".to_string());
    let head = commit.sha1().unwrap();
    let mut map = ObjectMap::new();
    for object in [
        AnyGitObject::Commit(commit),
        AnyGitObject::Tree(root),
        AnyGitObject::Tree(sub),
        AnyGitObject::Blob(readme),
        AnyGitObject::Blob(run),
        AnyGitObject::Blob(target),
        AnyGitObject::Blob(inner),
    ] {
        map.insert_object(object).unwrap();
    }
    (map, head)
}

#[test]
fn checkout_lists_directories_before_what_they_hold() {
    let (map, head) = repository();
    assert_eq!(
        plan_checkout(&map, &head),
        Ok(vec![
            CheckoutStep::WriteFile {
                path: "README".to_string(),
                content: b"read me\n".to_vec(),
                executable: false,
            },
            CheckoutStep::CreateSymlink { path: "link".to_string(), target: b"README".to_vec() },
            CheckoutStep::WriteFile {
                path: "run.sh".to_string(),
                content: b"#!/bin/sh\n".to_vec(),
                executable: true,
            },
            CheckoutStep::CreateDir { path: "sub".to_string() },
            CheckoutStep::WriteFile {
                path: "sub/inner.txt".to_string(),
                content: b"inner\n".to_vec(),
                executable: false,
            },
        ])
    );
}

#[test]
fn checkout_needs_every_object_it_names() {
    let (map, head) = repository();
    assert_eq!(plan_checkout(&map, &Sha([0u8; 20])), Err(GitError::BadReference));
    let blob = map.entries[3].0;
    assert_eq!(plan_checkout(&map, &blob), Err(GitError::BadReference));

    let mut without_blob = ObjectMap::new();
    for (_, object) in map.entries.iter().take(6) {
        without_blob.insert_object(object.clone()).unwrap();
    }
    assert_eq!(plan_checkout(&without_blob, &head), Err(GitError::BadReference));

    let mut without_tree = ObjectMap::new();
    without_tree.insert_object(map.entries[0].1.clone()).unwrap();
    assert_eq!(plan_checkout(&without_tree, &head), Err(GitError::BadReference));
}

#[test]
fn checkout_refuses_a_directory_that_is_a_blob_and_a_tree_that_holds_itself() {
    let blob = Blob::new(b"x".to_vec());
    let root = Tree::new(vec![
        TreeEntry::new(&blob, "dir".to_string(), FileMode::Directory).unwrap(),
    ]);
    let commit = Commit::new(root.sha1().unwrap().0, vec![], actor(), None, String::new());
    let head = commit.sha1().unwrap();
    let mut map = ObjectMap::new();
    map.insert_object(AnyGitObject::Commit(commit)).unwrap();
    map.insert_object(AnyGitObject::Tree(root)).unwrap();
    map.insert_object(AnyGitObject::Blob(blob)).unwrap();
    assert_eq!(plan_checkout(&map, &head), Err(GitError::BadReference));

    let key = Sha([5u8; 20]);
    let cyclic = Tree::new(vec![TreeEntry {
        mode: FileMode::Directory,
        name: "again".to_string(),
        hash: key,
    }]);
    let commit = Commit::new(key.0, vec![], actor(), None, String::new());
    let head = commit.sha1().unwrap();
    let mut map = ObjectMap::new();
    map.insert_object(AnyGitObject::Commit(commit)).unwrap();
    map.insert(key, AnyGitObject::Tree(cyclic));
    assert_eq!(plan_checkout(&map, &head), Err(GitError::BadReference));
}

#[test]
fn plan_holds_objects_refs_and_checkout() {
    let (map, head) = repository();
    let discovery = GitRefDiscoveryResponse {
        refs: vec![GitRef { object_id: head, name: "refs/heads/main".to_string() }],
        head_object_id: head,
        capabilities: GitCapabilities(vec![]),
    };
    let plan = plan_repository(&discovery, &map).unwrap();
    assert_eq!(plan.objects.len(), 7);
    assert_eq!(plan.objects, loose_objects(&map).unwrap());
    for (loose, (sha, object)) in plan.objects.iter().zip(map.entries.iter()) {
        assert_eq!(&loose.sha, sha);
        assert_eq!(AnyGitObject::decode(loose.content.clone()).as_ref(), Ok(object));
    }
    assert_eq!(plan.refs, discovery.write().unwrap());
    assert_eq!(plan.checkout, plan_checkout(&map, &head).unwrap());
    assert_eq!(plan.refs[0].content, "ref: refs/heads/main\n");
}

#[test]
fn clone_goes_step_by_step() {
    let blob = Blob::new(b"hello\n".to_vec());
    let tree = Tree::new(vec![
        TreeEntry::new(&blob, "hello.txt".to_string(), FileMode::Regular).unwrap(),
    ]);
    let commit = Commit::new(tree.sha1().unwrap().0, vec![], actor(), None, "m\n".to_string());
    let head = commit.sha1().unwrap().to_hex();
    let refs = discovery(&[&format!("{head} HEAD\0caps"), &format!("{head} refs/heads/main")]);
    let mut answer = text("NAK");
    answer.extend(pack_of(&[
        (1, commit.encode_body().unwrap()),
        (2, tree.encode_body().unwrap()),
        (3, blob.encode_body().unwrap()),
    ]));

    let client = GitClient::new("https://host/repo").unwrap();
    let (state, action) = client.clone(CloneState::Init, CloneEvent::Proceed);
    assert_eq!(state, CloneState::Init);
    assert_eq!(
        action,
        CloneAction::FetchRefs(
            "https://host/repo.git/info/refs?service=git-upload-pack".to_string()
        )
    );
    let (state, action) = client.clone(state, CloneEvent::RefsFetched(refs));
    assert!(matches!(state, CloneState::Discovered(_)));
    assert_eq!(
        action,
        CloneAction::RequestPack(
            "https://host/repo.git/git-upload-pack".to_string(),
            format!("0032want {head}\n00000009done\n").into_bytes()
        )
    );
    let (state, action) = client.clone(state, CloneEvent::PackFetched(answer.clone()));
    assert!(matches!(state, CloneState::PackReceived(_, _)));
    assert_eq!(action, CloneAction::Proceed);
    let (state, action) = client.clone(state, CloneEvent::Proceed);
    assert!(matches!(state, CloneState::ObjectsIndexed(_, _)));
    assert_eq!(action, CloneAction::Proceed);
    let (state, action) = client.clone(state, CloneEvent::Proceed);
    assert_eq!(state, CloneState::Resolved);
    let plan = match action {
        CloneAction::WriteRepository(plan) => plan,
        other => panic!("unexpected action {other:?}"),
    };
    assert_eq!(plan.objects.len(), 3);
    assert_eq!(plan.refs.len(), 2);
    assert_eq!(
        plan.checkout,
        vec![CheckoutStep::WriteFile {
            path: "hello.txt".to_string(),
            content: b"hello\n".to_vec(),
            executable: false,
        }]
    );
    let (state, action) = client.clone(state, CloneEvent::Written);
    assert_eq!((state, action), (CloneState::Done, CloneAction::Finish));
}

#[test]
fn clone_fails_for_good() {
    let client = GitClient::new("https://host/repo").unwrap();
    let advance = |state, event| client.clone(state, event);
    let odd = GitClient { url: "not parsed".to_string() };
    assert_eq!(
        odd.clone(CloneState::Init, CloneEvent::Proceed),
        (CloneState::Fatal(GitError::BadUrl), CloneAction::Abort)
    );
    assert_eq!(
        advance(CloneState::Init, CloneEvent::Failed),
        (CloneState::Fatal(GitError::Io), CloneAction::Abort)
    );
    assert_eq!(
        advance(CloneState::Init, CloneEvent::RefsFetched(b"junk".to_vec())),
        (CloneState::Fatal(GitError::BadPktLength), CloneAction::Abort)
    );
    assert_eq!(
        advance(CloneState::Init, CloneEvent::Written),
        (CloneState::Fatal(GitError::Usage), CloneAction::Abort)
    );
    assert_eq!(
        advance(CloneState::Done, CloneEvent::Proceed),
        (CloneState::Fatal(GitError::Usage), CloneAction::Abort)
    );
    assert_eq!(
        advance(CloneState::Resolved, CloneEvent::Failed),
        (CloneState::Fatal(GitError::Io), CloneAction::Abort)
    );
    assert_eq!(
        advance(CloneState::Fatal(GitError::SizeMismatch), CloneEvent::Written),
        (CloneState::Fatal(GitError::SizeMismatch), CloneAction::Abort)
    );
    assert_eq!(
        advance(CloneState::Fatal(GitError::SizeMismatch), CloneEvent::Failed),
        (CloneState::Fatal(GitError::SizeMismatch), CloneAction::Abort)
    );

    let head = sha_of_hex(HEAD);
    let found = GitRefDiscoveryResponse {
        refs: vec![],
        head_object_id: head,
        capabilities: GitCapabilities(vec![]),
    };
    let (state, _) = advance(CloneState::Discovered(found.clone()), CloneEvent::PackFetched(vec![]));
    assert_eq!(
        advance(state, CloneEvent::Proceed),
        (CloneState::Fatal(GitError::PktTruncated), CloneAction::Abort)
    );
    let mut answer = text("NAK");
    answer.extend(pack_of(&[(3, b"hello\n".to_vec())]));
    let (state, _) = advance(CloneState::PackReceived(found, answer), CloneEvent::Proceed);
    assert_eq!(
        advance(state, CloneEvent::Proceed),
        (CloneState::Fatal(GitError::BadReference), CloneAction::Abort)
    );
}
