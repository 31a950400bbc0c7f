use gitcore::compression::{compress, decompress, decompress_slice};
use gitcore::error::{ErrorKind, GitError};
use gitcore::git::any_git_object::AnyGitObject;
use gitcore::git::commits::{Commit, CommitActor};
use gitcore::git::git_blob::Blob;
use gitcore::git::git_object_trait::{parse_frame, GitObject, GitObjectType};
use gitcore::git::git_tree::{bytes_le, FileMode, Tree, TreeEntry};
use gitcore::sha::Sha;
use gitcore::text::FromText;

fn sha_of_hex(hex: &str) -> Sha {
    Sha::from_hex(hex.as_bytes()).unwrap()
}

fn entry(mode: FileMode, name: &str, fill: u8) -> TreeEntry {
    TreeEntry { mode, name: name.to_string(), hash: Sha([fill; 20]) }
}

fn john() -> CommitActor {
    CommitActor {
        name: "John Doe".to_string(),
        email: "john.doe@codecrafte.rs".to_string(),
        epoch: 0,
        timezone: "+0000".to_string(),
    }
}

fn sample_commit() -> Commit {
    Commit::new(
        sha_of_hex("4b825dc642cb6eb9a060e54bf8d69288fbee4904").0,
        vec![sha_of_hex("ce013625030ba8dba906f756967f9e9ca394464a").0],
        john(),
        Some(john()),
        "hello\n".to_string(),
    )
}

#[test]
fn blob_body_is_its_content() {
    for content in [b"".to_vec(), b"hello\n".to_vec(), vec![0u8, 255, 10, 0]] {
        let blob = Blob::new(content.clone());
        assert_eq!(blob.encode_body(), Ok(content.clone()));
        assert_eq!(Blob::decode_body(blob.encode_body().unwrap()), Ok(Blob::new(content.clone())));
        assert_eq!(blob.content().to_vec(), content);
        assert_eq!(blob.get_first_index().to_vec(), content);
        assert_eq!(blob.get_blob_first_index().to_vec(), content);
    }
}

#[test]
fn empty_tree_has_the_known_identity() {
    let tree = Tree::new(vec![]);
    assert_eq!(tree.encode_body(), Ok(vec![]));
    assert_eq!(tree.sha1().unwrap().to_hex(), "4b825dc642cb6eb9a060e54bf8d69288fbee4904");
    assert_eq!(
        AnyGitObject::Tree(tree).sha1().unwrap().to_hex(),
        "4b825dc642cb6eb9a060e54bf8d69288fbee4904"
    );
    assert_eq!(
        Sha::digest(b"tree 0\0").unwrap(),
        sha_of_hex("4b825dc642cb6eb9a060e54bf8d69288fbee4904")
    );
}

#[test]
fn hello_blob_has_the_known_identity_and_place() {
    let blob = Blob::new(b"hello\n".to_vec());
    assert_eq!(blob.get_header(), Ok(b"blob 6\0".to_vec()));
    assert_eq!(blob.encode_uncompressed(), Ok(b"blob 6\0hello\n".to_vec()));
    assert_eq!(blob.sha1().unwrap().to_hex(), "ce013625030ba8dba906f756967f9e9ca394464a");
    let loose = blob.write().unwrap();
    assert_eq!(loose.sha.to_hex(), "ce013625030ba8dba906f756967f9e9ca394464a");
    assert_eq!(loose.folder_path("."), "./.git/objects/ce");
    assert_eq!(loose.file_path("."), "./.git/objects/ce/013625030ba8dba906f756967f9e9ca394464a");
    assert_eq!(decompress(loose.content.clone()), Ok(b"blob 6\0hello\n".to_vec()));
}

#[test]
fn stored_blob_is_read_back() {
    let loose = Blob::new(b"hello\n".to_vec()).write().unwrap();
    let read = AnyGitObject::decode(loose.content.clone()).unwrap();
    assert_eq!(read.try_as_blob().unwrap().content().to_vec(), b"hello\n".to_vec());
    assert_eq!(Blob::decode(loose.content), Ok(Blob::new(b"hello\n".to_vec())));
    let tree = Tree::new(vec![]).write().unwrap();
    assert_eq!(Blob::decode(tree.content), Err(GitError::UnknownType));
}

#[test]
fn stored_empty_tree_lists_nothing() {
    let loose = AnyGitObject::Tree(Tree::new(vec![])).write().unwrap();
    assert_eq!(loose.sha.to_hex(), "4b825dc642cb6eb9a060e54bf8d69288fbee4904");
    let read = AnyGitObject::decode(loose.content).unwrap();
    let tree = read.try_as_tree().unwrap();
    assert_eq!(tree.entries().len(), 0);
}

#[test]
fn compression_round_trip() {
    let data = b"blob 6\0hello\n".to_vec();
    let packed = compress(data.clone()).unwrap();
    assert_ne!(packed, data);
    assert_eq!(decompress(packed.clone()), Ok(data.clone()));
    let mut followed = packed.clone();
    followed.extend_from_slice(b"what follows");
    assert_eq!(decompress_slice(&followed), Ok((data, packed.len() as u64)));
    assert_eq!(decompress(b"garbage".to_vec()), Err(GitError::Decompress));
    assert_eq!(decompress_slice(b"garbage"), Err(GitError::Decompress));
    assert_eq!(decompress_slice(&packed[..packed.len() - 2]), Err(GitError::Decompress));
}

#[test]
fn tree_of_one_file() {
    let blob = Blob::new(b"A\n".to_vec());
    assert_eq!(blob.sha1().unwrap().to_hex(), "f70f10e4db19068f79bc43844b49f3eece45c4e8");
    let entry = TreeEntry::new(&blob, "a.txt".to_string(), FileMode::Regular).unwrap();
    let tree = Tree::new(vec![entry]);
    let mut body = b"100644 a.txt\0".to_vec();
    body.extend_from_slice(&sha_of_hex("f70f10e4db19068f79bc43844b49f3eece45c4e8").0);
    assert_eq!(tree.encode_body(), Ok(body));
    assert_eq!(tree.sha1().unwrap().to_hex(), "11ab7d5124894d58b4852a45c0242e92aea630c9");
    assert_eq!(tree.sha1(), tree.sha1());

    let plain = Blob::new(b"A".to_vec());
    assert_eq!(plain.sha1().unwrap().to_hex(), "8c7e5a667f1b771847fe88c01c3de34413a1b220");
    let tree = Tree::new(vec![TreeEntry::new(&plain, "a.txt".to_string(), FileMode::Regular).unwrap()]);
    assert_eq!(tree.sha1().unwrap().to_hex(), "a383868b6d7d052bae54aa4a1f7d2c1fb3695d0a");
}

#[test]
fn tree_sorts_its_entries_by_name() {
    let a = entry(FileMode::Regular, "a.txt", 1);
    let b = entry(FileMode::Directory, "b", 2);
    let upper = entry(FileMode::Executable, "Z", 3);
    let long = entry(FileMode::Symbolic, "a.txt.bak", 4);
    let one = Tree::new(vec![long.clone(), b.clone(), a.clone(), upper.clone()]);
    let two = Tree::new(vec![upper.clone(), a.clone(), long.clone(), b.clone()]);
    assert_eq!(one.entries(), &vec![upper, a, long, b]);
    assert_eq!(one, two);
    assert_eq!(one.encode_body(), two.encode_body());
    assert_eq!(one.sha1(), two.sha1());
}

#[test]
fn tree_keeps_the_order_of_entries_with_one_name() {
    let first = entry(FileMode::Regular, "same", 1);
    let second = entry(FileMode::Regular, "same", 2);
    let before = entry(FileMode::Regular, "a", 3);
    let tree = Tree::new(vec![first.clone(), before.clone(), second.clone()]);
    assert_eq!(tree.entries(), &vec![before, first, second]);
}

#[test]
fn names_are_ordered_by_their_bytes() {
    assert!(bytes_le(b"", b""));
    assert!(bytes_le(b"", b"a"));
    assert!(!bytes_le(b"a", b""));
    assert!(bytes_le(b"a", b"a"));
    assert!(bytes_le(b"a", b"ab"));
    assert!(!bytes_le(b"ab", b"a"));
    assert!(bytes_le(b"Z", b"a"));
    assert!(bytes_le(b"a", "é".as_bytes()));
    assert!(!bytes_le(&[200], &[100]));
}

#[test]
fn tree_round_trip() {
    let tree = Tree::new(vec![
        entry(FileMode::Regular, "readme with space.md", 1),
        entry(FileMode::Directory, "src", 2),
        entry(FileMode::Executable, "run.sh", 3),
        entry(FileMode::Symbolic, "länk", 4),
        entry(FileMode::Regular, "", 5),
    ]);
    let body = tree.encode_body().unwrap();
    let read = Tree::decode_body(body.clone()).unwrap();
    assert_eq!(read, tree);
    assert_eq!(read.encode_body(), Ok(body));
    let names: Vec<&str> = read.entries().iter().map(|e| e.name.as_str()).collect();
    assert_eq!(names, vec!["", "länk", "readme with space.md", "run.sh", "src"]);
}

#[test]
fn tree_entries_are_sorted_when_read() {
    let mut body = entry(FileMode::Regular, "b", 1).encode();
    body.extend(entry(FileMode::Regular, "a", 2).encode());
    let read = Tree::decode_body(body).unwrap();
    assert_eq!(
        read.entries(),
        &vec![entry(FileMode::Regular, "a", 2), entry(FileMode::Regular, "b", 1)]
    );
}

#[test]
fn tree_entry_is_written_and_read() {
    let e = entry(FileMode::Directory, "sub", 7);
    let mut bytes = b"40000 sub\0".to_vec();
    bytes.extend_from_slice(&[7u8; 20]);
    assert_eq!(e.encode(), bytes);
    bytes.extend_from_slice(b"more");
    assert_eq!(TreeEntry::decode(&bytes, 0), Ok((e, 30)));
}

#[test]
fn broken_trees_are_refused() {
    let mut unknown = b"100600 a\0".to_vec();
    unknown.extend_from_slice(&[1u8; 20]);
    assert_eq!(Tree::decode_body(unknown), Err(GitError::UnknownMode));
    let mut padded = b"040000 a\0".to_vec();
    padded.extend_from_slice(&[1u8; 20]);
    assert_eq!(Tree::decode_body(padded), Err(GitError::UnknownMode));
    let mut mode = b"\xff\xfe a\0".to_vec();
    mode.extend_from_slice(&[1u8; 20]);
    assert_eq!(Tree::decode_body(mode), Err(GitError::InvalidUtf8));
    let mut name = b"100644 \xff\0".to_vec();
    name.extend_from_slice(&[1u8; 20]);
    assert_eq!(Tree::decode_body(name), Err(GitError::InvalidUtf8));
    let mut short = b"100644 a\0".to_vec();
    short.extend_from_slice(&[1u8; 19]);
    assert_eq!(Tree::decode_body(short), Err(GitError::WrongHashLength));
    assert_eq!(Tree::decode_body(b"100644 a".to_vec()), Err(GitError::WrongHashLength));
    assert_eq!(Tree::decode_body(b"100644".to_vec()), Err(GitError::WrongHashLength));
}

#[test]
fn modes_are_written_and_read() {
    let all = [
        (FileMode::Regular, "100644"),
        (FileMode::Executable, "100755"),
        (FileMode::Symbolic, "120000"),
        (FileMode::Directory, "40000"),
    ];
    for (mode, text) in all {
        assert_eq!(mode.as_ref(), text);
        assert_eq!(mode.text(), text.as_bytes().to_vec());
        assert_eq!(FileMode::from_text(text.as_bytes()), Ok(mode));
    }
    assert_eq!(FileMode::from_text(b"644"), Err(GitError::UnknownMode));
    assert_eq!(FileMode::from_text(b""), Err(GitError::UnknownMode));
}

#[test]
fn mode_follows_from_metadata() {
    assert_eq!(FileMode::from_metadata(true, false, true), FileMode::Directory);
    assert_eq!(FileMode::from_metadata(true, true, false), FileMode::Directory);
    assert_eq!(FileMode::from_metadata(false, true, true), FileMode::Symbolic);
    assert_eq!(FileMode::from_metadata(false, false, true), FileMode::Executable);
    assert_eq!(FileMode::from_metadata(false, false, false), FileMode::Regular);
}

#[test]
fn object_types_are_written_and_read() {
    let all = [
        (GitObjectType::Blob, "blob"),
        (GitObjectType::Tree, "tree"),
        (GitObjectType::Commit, "commit"),
    ];
    for (kind, text) in all {
        assert_eq!(kind.as_ref(), text);
        assert_eq!(kind.name(), text.as_bytes().to_vec());
        assert_eq!(GitObjectType::from_text(text.as_bytes()), Ok(kind));
    }
    assert_eq!(GitObjectType::from_text(b"tag"), Err(GitError::UnknownType));
    assert_eq!(Blob::get_type(), GitObjectType::Blob);
    assert_eq!(Tree::get_type(), GitObjectType::Tree);
    assert_eq!(Commit::get_type(), GitObjectType::Commit);
}

#[test]
fn commit_is_written_line_by_line() {
    let body = sample_commit().encode_body().unwrap();
    let expected = "tree 4b825dc642cb6eb9a060e54bf8d69288fbee4904\n\
        parent ce013625030ba8dba906f756967f9e9ca394464a\n\
        author John Doe <john.doe@codecrafte.rs> 0 +0000\n\
        committer John Doe <john.doe@codecrafte.rs> 0 +0000\n\
        \nhello\n";
    assert_eq!(body, expected.as_bytes().to_vec());
    assert_eq!(
        sample_commit().sha1().unwrap().to_hex(),
        "ae08deb64e65f58bf3df4602db35f8f78c877a38"
    );
}

#[test]
fn commit_round_trip_keeps_the_order_of_parents() {
    let author = CommitActor {
        name: "Ada  Lovelace the 1st".to_string(),
        email: "ada@example.org".to_string(),
        epoch: 18446744073709551615,
        timezone: "-0130".to_string(),
    };
    let committer = CommitActor {
        name: String::new(),
        email: String::new(),
        epoch: 1700000000,
        timezone: String::new(),
    };
    let commit = Commit::new(
        [1u8; 20],
        vec![[3u8; 20], [2u8; 20], [3u8; 20]],
        author,
        Some(committer),
        "subject\n\nbody with ünicode\nand no newline at the end".to_string(),
    );
    let body = commit.encode_body().unwrap();
    let read = Commit::decode_body(body.clone()).unwrap();
    assert_eq!(read, commit);
    assert_eq!(read.parent_hash, vec![Sha([3u8; 20]), Sha([2u8; 20]), Sha([3u8; 20])]);
    assert_eq!(read.encode_body(), Ok(body));
    assert_eq!(read.sha1(), commit.sha1());

    let root = Commit::new([1u8; 20], vec![], john(), Some(john()), String::new());
    assert_eq!(Commit::decode_body(root.encode_body().unwrap()), Ok(root));
}

#[test]
fn commit_without_committer_is_written_with_its_author() {
    let commit = Commit::new([1u8; 20], vec![], john(), None, "m".to_string());
    let named = Commit::new([1u8; 20], vec![], john(), Some(john()), "m".to_string());
    assert_eq!(commit.encode_body(), named.encode_body());
    assert_eq!(Commit::decode_body(commit.encode_body().unwrap()), Ok(named));
}

#[test]
fn commit_headers_may_come_in_any_order() {
    let body = "encoding latin1\n\
        committer C <c@x> 2 +0100\n\
        parent ce013625030ba8dba906f756967f9e9ca394464a\n\
        author A <a@x> 1 +0000\n\
        tree 4B825DC642CB6EB9A060E54BF8D69288FBEE4904\n\
        tree ce013625030ba8dba906f756967f9e9ca394464a\n\
        \nmessage";
    let read = Commit::decode_body(body.as_bytes().to_vec()).unwrap();
    assert_eq!(read.tree_hash, sha_of_hex("4b825dc642cb6eb9a060e54bf8d69288fbee4904"));
    assert_eq!(read.parent_hash, vec![sha_of_hex("ce013625030ba8dba906f756967f9e9ca394464a")]);
    assert_eq!(read.author.name, "A");
    assert_eq!(read.author.epoch, 1);
    assert_eq!(read.committer.unwrap().timezone, "+0100");
    assert_eq!(read.commit_message, "message");
}

#[test]
fn broken_commits_are_refused() {
    let decode = |body: &str| Commit::decode_body(body.as_bytes().to_vec());
    let tree = "tree 4b825dc642cb6eb9a060e54bf8d69288fbee4904\n";
    let author = "author A <a@x> 1 +0000\n";
    assert_eq!(decode(""), Err(GitError::MissingField));
    assert_eq!(decode(&format!("{tree}{author}")), Err(GitError::MissingField));
    assert_eq!(decode(&format!("{author}\n")), Err(GitError::MissingField));
    assert_eq!(decode(&format!("{tree}\n")), Err(GitError::MissingField));
    assert_eq!(decode(&format!("tree xyz\n{author}\n")), Err(GitError::InvalidHex));
    assert_eq!(decode(&format!("tree abcd\n{author}\n")), Err(GitError::WrongHashLength));
    assert_eq!(decode(&format!("{tree}parent 12\n{author}\n")), Err(GitError::WrongHashLength));
    assert_eq!(decode(&format!("{tree}author A a@x 1 +0000\n\n")), Err(GitError::BadActor));
    assert_eq!(decode(&format!("{tree}author 1 +0000\n\n")), Err(GitError::BadActor));
    assert_eq!(decode(&format!("{tree}author A <a@x> soon +0000\n\n")), Err(GitError::InvalidNumber));
    assert_eq!(decode(&format!("{tree}author A <a@x> +1 +0000\n\n")), Err(GitError::InvalidNumber));
    assert_eq!(
        decode(&format!("{tree}author A <a@x> 18446744073709551616 +0000\n\n")),
        Err(GitError::InvalidNumber)
    );
    assert_eq!(
        decode(&format!("{tree}{author}committer nobody\n\n")),
        Err(GitError::BadActor)
    );
    let mut message = format!("{tree}{author}\n").into_bytes();
    message.push(0xff);
    assert_eq!(Commit::decode_body(message), Err(GitError::InvalidUtf8));
    let mut header = format!("{tree}{author}note ").into_bytes();
    header.extend_from_slice(&[0xff, b'\n', b'\n']);
    assert_eq!(Commit::decode_body(header), Err(GitError::InvalidUtf8));
    let mut key = format!("{tree}{author}").into_bytes();
    key.extend_from_slice(&[0xc3, b' ', b'x', b'\n', b'\n']);
    assert_eq!(Commit::decode_body(key), Err(GitError::InvalidUtf8));
}

#[test]
fn actor_is_read_from_the_right() {
    assert_eq!(
        CommitActor::from_str(b"John Q. Doe <john@x.org> 12 +0200"),
        Ok(CommitActor {
            name: "John Q. Doe".to_string(),
            email: "john@x.org".to_string(),
            epoch: 12,
            timezone: "+0200".to_string(),
        })
    );
    assert_eq!(
        CommitActor::from_str(b"<> 0 Z"),
        Ok(CommitActor {
            name: String::new(),
            email: String::new(),
            epoch: 0,
            timezone: "Z".to_string(),
        })
    );
    assert_eq!(john().encode(), b"John Doe <john.doe@codecrafte.rs> 0 +0000".to_vec());
    assert_eq!(CommitActor::from_str(&john().encode()), Ok(john()));
    assert_eq!(CommitActor::from_str(b""), Err(GitError::BadActor));
    assert_eq!(CommitActor::from_str(b"A < 1 +0000"), Err(GitError::BadActor));
}

#[test]
fn any_object_round_trip_through_the_store() {
    let objects = vec![
        AnyGitObject::Blob(Blob::new(b"content".to_vec())),
        AnyGitObject::Tree(Tree::new(vec![
            entry(FileMode::Regular, "a", 1),
            entry(FileMode::Directory, "b", 2),
        ])),
        AnyGitObject::Commit(sample_commit()),
    ];
    for object in objects {
        let loose = object.write().unwrap();
        assert_eq!(loose.sha, object.sha1().unwrap());
        let read = AnyGitObject::decode(loose.content).unwrap();
        assert_eq!(read, object);
        assert_eq!(read.sha1(), object.sha1());
        assert_eq!(read.encode_body(), object.encode_body());
        assert_eq!(read.get_type(), object.get_type());
        assert_eq!(
            AnyGitObject::from_body(object.get_type(), object.encode_body().unwrap()),
            Ok(object)
        );
    }
}

#[test]
fn any_object_is_one_of_three() {
    let blob = AnyGitObject::Blob(Blob::new(vec![1]));
    let tree = AnyGitObject::Tree(Tree::new(vec![]));
    let commit = AnyGitObject::Commit(sample_commit());
    assert!(blob.try_as_blob_ref().is_some() && blob.try_as_tree_ref().is_none());
    assert!(tree.try_as_tree_ref().is_some() && tree.try_as_commit_ref().is_none());
    assert!(commit.try_as_commit_ref().is_some() && commit.try_as_blob_ref().is_none());
    assert_eq!(blob.clone().try_as_blob(), Some(Blob::new(vec![1])));
    assert_eq!(blob.clone().try_as_tree(), None);
    assert_eq!(tree.clone().try_as_tree(), Some(Tree::new(vec![])));
    assert_eq!(tree.try_as_commit(), None);
    assert_eq!(commit.clone().try_as_commit(), Some(sample_commit()));
    assert_eq!(commit.try_as_blob(), None);
}

#[test]
fn broken_frames_of_objects_are_refused() {
    assert_eq!(parse_frame(b"blob 3\0abc"), Ok((GitObjectType::Blob, b"abc".to_vec())));
    assert_eq!(parse_frame(b"tree 0\0"), Ok((GitObjectType::Tree, vec![])));
    assert_eq!(parse_frame(b"blob 3abc"), Err(GitError::CorruptHeader));
    assert_eq!(parse_frame(b"blob3\0abc"), Err(GitError::CorruptHeader));
    assert_eq!(parse_frame(b"tag 3\0abc"), Err(GitError::CorruptHeader));
    assert_eq!(parse_frame(b"blob three\0abc"), Err(GitError::CorruptHeader));
    assert_eq!(parse_frame(b"blob  3\0abc"), Err(GitError::CorruptHeader));
    assert_eq!(parse_frame(b"blob \0"), Err(GitError::CorruptHeader));
    assert_eq!(parse_frame(b"blob 4\0abc"), Err(GitError::SizeMismatch));
    assert_eq!(parse_frame(b"blob 2\0abc"), Err(GitError::SizeMismatch));
    assert_eq!(AnyGitObject::decode_framed(b"commit 0\0"), Err(GitError::MissingField));
    assert_eq!(AnyGitObject::decode(b"not zlib".to_vec()), Err(GitError::Decompress));
    assert_eq!(
        AnyGitObject::decode(compress(b"blob 1\0".to_vec()).unwrap()),
        Err(GitError::SizeMismatch)
    );
}

#[test]
fn errors_belong_to_families() {
    assert_eq!(GitError::Io.kind(), ErrorKind::Io);
    assert_eq!(GitError::PktTooShort.kind(), ErrorKind::Protocol);
    assert_eq!(GitError::NoHeadRef.kind(), ErrorKind::Protocol);
    assert_eq!(GitError::CorruptHeader.kind(), ErrorKind::Format);
    assert_eq!(GitError::BadVarint.kind(), ErrorKind::Format);
    assert_eq!(GitError::UnknownMode.kind(), ErrorKind::Format);
    assert_eq!(GitError::InvalidHex.kind(), ErrorKind::Format);
    assert_eq!(GitError::WrongHashLength.kind(), ErrorKind::Format);
    assert_eq!(GitError::SizeMismatch.kind(), ErrorKind::Integrity);
    assert_eq!(GitError::CountMismatch.kind(), ErrorKind::Integrity);
    assert_eq!(GitError::UnresolvedDelta(Sha([0; 20])).kind(), ErrorKind::Integrity);
    assert_eq!(GitError::ChecksumMismatch.kind(), ErrorKind::Integrity);
    assert_eq!(GitError::UnsupportedObjectType.kind(), ErrorKind::Unsupported);
    assert_eq!(GitError::Usage.kind(), ErrorKind::Usage);
}
