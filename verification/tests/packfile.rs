use gitcore::compression::compress;
use gitcore::delta::DeltaInstruction;
use gitcore::error::GitError;
use gitcore::git::any_git_object::AnyGitObject;
use gitcore::git::git_blob::Blob;
use gitcore::git::git_object_trait::GitObject;
use gitcore::git::object_map::{apply_delta, resolve_deltas, ObjectMap};
use gitcore::git::packfile::{
    read_array, read_variable_length_integer, ObjRefDelta, Packfile, PackfileObject,
};
use gitcore::sha::Sha;

fn sha_of_hex(hex: &str) -> Sha {
    Sha::from_hex(hex.as_bytes()).unwrap()
}

fn object_header(kind: u8, size: usize) -> Vec<u8> {
    let mut out = Vec::new();
    let mut first = (kind << 4) | (size & 0x0f) as u8;
    let mut rest = size >> 4;
    while rest > 0 {
        out.push(first | 0x80);
        first = (rest & 0x7f) as u8;
        rest >>= 7;
    }
    out.push(first);
    out
}

fn blob_chunk(content: &[u8]) -> Vec<u8> {
    let mut out = object_header(3, content.len());
    out.extend(compress(content.to_vec()).unwrap());
    out
}

fn delta_chunk(base: &Sha, payload: &[u8]) -> Vec<u8> {
    let mut out = object_header(7, payload.len());
    out.extend_from_slice(&base.0);
    out.extend(compress(payload.to_vec()).unwrap());
    out
}

fn pack_of(count: u32, chunks: &[Vec<u8>]) -> Vec<u8> {
    let mut out = b"PACK".to_vec();
    out.extend_from_slice(&2u32.to_be_bytes());
    out.extend_from_slice(&count.to_be_bytes());
    for chunk in chunks {
        out.extend_from_slice(chunk);
    }
    let trailer = Sha::digest(&out).unwrap();
    out.extend_from_slice(&trailer.0);
    out
}

#[test]
fn varint_with_type_in_first_byte() {
    assert_eq!(read_variable_length_integer(&[0x90, 0x01], 0, true), Ok((16, Some(1), 2)));
}

#[test]
fn varint_without_type() {
    assert_eq!(read_variable_length_integer(&[0x80, 0x02], 0, false), Ok((256, None, 2)));
}

#[test]
fn varint_of_one_byte_and_at_a_position() {
    assert_eq!(read_variable_length_integer(&[0x35], 0, true), Ok((5, Some(3), 1)));
    assert_eq!(read_variable_length_integer(&[0x7f], 0, false), Ok((127, None, 1)));
    assert_eq!(read_variable_length_integer(&[0xff, 0xff, 0x05], 2, false), Ok((5, None, 1)));
    // 0x95: type 1, low bits 5; then 0x81 0x01: 1 + 128 in groups of seven.
    assert_eq!(
        read_variable_length_integer(&[0x95, 0x81, 0x01], 0, true),
        Ok((5 + 16 * (1 + 128), Some(1), 3))
    );
}

#[test]
fn varint_that_ends_early_or_does_not_fit_is_refused() {
    assert_eq!(read_variable_length_integer(&[], 0, false), Err(GitError::BadVarint));
    assert_eq!(read_variable_length_integer(&[0x80, 0x80], 0, true), Err(GitError::BadVarint));
    let mut long = vec![0xffu8; 10];
    long.push(0x7f);
    assert_eq!(read_variable_length_integer(&long, 0, false), Err(GitError::BadVarint));
    // Leading groups of zero do not make the value larger.
    let mut padded = vec![0x81u8];
    padded.extend(vec![0x80u8; 12]);
    padded.push(0x00);
    assert_eq!(read_variable_length_integer(&padded, 0, false), Ok((1, None, 14)));
}

#[test]
fn array_is_read_at_a_position() {
    assert_eq!(read_array::<4>(&[1, 2, 3, 4, 5, 6], 1), Ok([2, 3, 4, 5]));
    assert_eq!(read_array::<4>(&[1, 2, 3, 4, 5, 6], 3), Err(GitError::Truncated));
    assert_eq!(read_array::<0>(&[], 0), Ok([]));
}

#[test]
fn blob_object_is_decoded_from_a_pack() {
    let chunk = blob_chunk(b"hello\n");
    let mut bytes = chunk.clone();
    bytes.extend_from_slice(b"trailing");
    let (obj, used) = PackfileObject::decode(&bytes).unwrap();
    assert_eq!(obj, PackfileObject::Blob(Blob::new(b"hello\n".to_vec())));
    assert_eq!(used, chunk.len() as u64);
}

#[test]
fn object_from_inflated_payload() {
    assert_eq!(
        PackfileObject::from_inflated(3, 3, &[], b"abc".to_vec()),
        Ok(PackfileObject::Blob(Blob::new(b"abc".to_vec())))
    );
    assert_eq!(
        PackfileObject::from_inflated(3, 4, &[], b"abc".to_vec()),
        Err(GitError::SizeMismatch)
    );
    assert_eq!(
        PackfileObject::from_inflated(4, 3, &[], b"abc".to_vec()),
        Err(GitError::UnsupportedObjectType)
    );
    assert_eq!(
        PackfileObject::from_inflated(6, 3, &[], b"abc".to_vec()),
        Err(GitError::UnsupportedObjectType)
    );
    assert_eq!(
        PackfileObject::from_inflated(7, 4, &[1, 2, 3], vec![6, 7, 0x90, 0x06]),
        Err(GitError::WrongHashLength)
    );
    let base = [7u8; 20];
    assert_eq!(
        PackfileObject::from_inflated(7, 6, &base, vec![6, 7, 0x90, 0x06, 0x01, b'!']),
        Ok(PackfileObject::ObjRefDelta(ObjRefDelta {
            base_obj_size: 6,
            target_obj_size: 7,
            obj_name: Sha(base),
            instructions: vec![
                DeltaInstruction::Copy { offset: 0, length: 6 },
                DeltaInstruction::Insert(b"!".to_vec()),
            ],
        }))
    );
}

#[test]
fn tag_and_offset_delta_are_unsupported() {
    let mut tag = object_header(4, 3);
    tag.extend(compress(b"abc".to_vec()).unwrap());
    assert_eq!(PackfileObject::decode(&tag), Err(GitError::UnsupportedObjectType));
    let mut ofs = object_header(6, 3);
    ofs.extend(compress(b"abc".to_vec()).unwrap());
    assert_eq!(PackfileObject::decode(&ofs), Err(GitError::UnsupportedObjectType));
}

#[test]
fn broken_objects_are_refused() {
    assert_eq!(PackfileObject::decode(&[]), Err(GitError::BadVarint));
    let mut bad = object_header(3, 3);
    bad.extend_from_slice(b"not zlib at all");
    assert_eq!(PackfileObject::decode(&bad), Err(GitError::Decompress));
    let mut wrong_size = object_header(3, 4);
    wrong_size.extend(compress(b"abc".to_vec()).unwrap());
    assert_eq!(PackfileObject::decode(&wrong_size), Err(GitError::SizeMismatch));
    let mut short_name = object_header(7, 4);
    short_name.extend_from_slice(&[1, 2, 3]);
    assert_eq!(PackfileObject::decode(&short_name), Err(GitError::WrongHashLength));
}

#[test]
fn pack_with_blob_and_ref_delta_round_trip() {
    let content = b"hello\n".to_vec();
    let base_sha = sha_of_hex("ce013625030ba8dba906f756967f9e9ca394464a");
    let mut payload = vec![content.len() as u8, content.len() as u8 + 1];
    payload.extend_from_slice(&[0x90, content.len() as u8]);
    payload.extend_from_slice(&[0x01, b'!']);
    let bytes = pack_of(2, &[blob_chunk(&content), delta_chunk(&base_sha, &payload)]);

    let pack = Packfile::read(&bytes).unwrap();
    assert_eq!(pack.version, 2);
    assert_eq!(pack.checksum.0.to_vec(), bytes[bytes.len() - 20..].to_vec());
    assert_eq!(pack.chunks.len(), 2);
    assert_eq!(pack.chunks[0], PackfileObject::Blob(Blob::new(content.clone())));
    assert_eq!(
        pack.chunks[1],
        PackfileObject::ObjRefDelta(ObjRefDelta {
            base_obj_size: 6,
            target_obj_size: 7,
            obj_name: base_sha,
            instructions: vec![
                DeltaInstruction::Copy { offset: 0, length: 6 },
                DeltaInstruction::Insert(b"!".to_vec()),
            ],
        })
    );

    let map = resolve_deltas(pack.chunks).unwrap();
    assert_eq!(map.len(), 2);
    let made_sha = sha_of_hex("3ad99a16c6e3f94bfe9b7ff08cb90967988e3d88");
    assert_eq!(map.get(&base_sha), Some(&AnyGitObject::Blob(Blob::new(content))));
    assert_eq!(map.get(&made_sha), Some(&AnyGitObject::Blob(Blob::new(b"hello\n!".to_vec()))));
    assert_eq!(map.entries[0].0, base_sha);
    assert_eq!(map.entries[1].0, made_sha);
}

#[test]
fn delta_whose_base_comes_later_is_resolved_in_a_later_pass() {
    let content = b"hello\n".to_vec();
    let base_sha = sha_of_hex("ce013625030ba8dba906f756967f9e9ca394464a");
    let mid_sha = sha_of_hex("3ad99a16c6e3f94bfe9b7ff08cb90967988e3d88");
    let first = vec![6u8, 7, 0x90, 6, 0x01, b'!'];
    let second = vec![7u8, 8, 0x90, 7, 0x01, b'?'];
    let bytes = pack_of(
        3,
        &[delta_chunk(&mid_sha, &second), delta_chunk(&base_sha, &first), blob_chunk(&content)],
    );
    let pack = Packfile::read(&bytes).unwrap();
    let map = resolve_deltas(pack.chunks).unwrap();
    assert_eq!(map.len(), 3);
    let last = Blob::new(b"hello\n!?".to_vec());
    let last_sha = last.sha1().unwrap();
    assert_eq!(map.get(&last_sha), Some(&AnyGitObject::Blob(last)));
    assert_eq!(map.entries[1].0, mid_sha);
    assert_eq!(map.entries[2].0, last_sha);
}

#[test]
fn delta_without_base_is_unresolved() {
    let missing = Sha([9u8; 20]);
    let payload = vec![6u8, 7, 0x90, 6, 0x01, b'!'];
    let bytes = pack_of(2, &[blob_chunk(b"hello\n"), delta_chunk(&missing, &payload)]);
    let pack = Packfile::read(&bytes).unwrap();
    assert_eq!(resolve_deltas(pack.chunks), Err(GitError::UnresolvedDelta(missing)));
}

#[test]
fn delta_must_state_the_sizes_of_base_and_result() {
    let base = AnyGitObject::Blob(Blob::new(b"hello\n".to_vec()));
    let delta = |base_obj_size: usize, target_obj_size: usize, instructions| ObjRefDelta {
        base_obj_size,
        target_obj_size,
        obj_name: Sha([0u8; 20]),
        instructions,
    };
    let copy = || vec![DeltaInstruction::Copy { offset: 0, length: 6 }];
    assert_eq!(
        apply_delta(&base, &delta(6, 6, copy())),
        Ok(AnyGitObject::Blob(Blob::new(b"hello\n".to_vec())))
    );
    assert_eq!(apply_delta(&base, &delta(5, 6, copy())), Err(GitError::SizeMismatch));
    assert_eq!(apply_delta(&base, &delta(6, 7, copy())), Err(GitError::SizeMismatch));
    let outside = vec![DeltaInstruction::Copy { offset: 1, length: 6 }];
    assert_eq!(apply_delta(&base, &delta(6, 6, outside)), Err(GitError::BadDelta));
}

#[test]
fn object_map_keeps_each_identity_once() {
    let mut map = ObjectMap::new();
    let a = AnyGitObject::Blob(Blob::new(b"a".to_vec()));
    let b = AnyGitObject::Blob(Blob::new(b"b".to_vec()));
    map.insert_object(a.clone()).unwrap();
    map.insert_object(b.clone()).unwrap();
    map.insert_object(a.clone()).unwrap();
    assert_eq!(map.len(), 2);
    assert_eq!(map.get(&a.sha1().unwrap()), Some(&a));
    assert_eq!(map.get(&b.sha1().unwrap()), Some(&b));
    assert_eq!(map.get(&Sha([0u8; 20])), None);
    map.insert(a.sha1().unwrap(), b.clone());
    assert_eq!(map.get(&a.sha1().unwrap()), Some(&b));
    assert_eq!(map.len(), 2);
}

#[test]
fn broken_packs_are_refused() {
    let good = pack_of(1, &[blob_chunk(b"hello\n")]);
    assert!(Packfile::read(&good).is_ok());

    assert_eq!(Packfile::read(b"PAC"), Err(GitError::BadPackHeader));
    let mut magic = good.clone();
    magic[0] = b'p';
    assert_eq!(Packfile::read(&magic), Err(GitError::BadPackHeader));
    assert_eq!(Packfile::read(b"PACK\0\0"), Err(GitError::Truncated));

    let mut version = good.clone();
    version[7] = 3;
    assert_eq!(Packfile::read(&version), Err(GitError::UnsupportedVersion));
    assert_eq!(Packfile::read(&good[..20]), Err(GitError::Truncated));

    let mut trailer = good.clone();
    let last = trailer.len() - 1;
    trailer[last] ^= 1;
    assert_eq!(Packfile::read(&trailer), Err(GitError::ChecksumMismatch));

    let fewer = pack_of(1, &[blob_chunk(b"hello\n"), blob_chunk(b"more")]);
    assert_eq!(Packfile::read(&fewer), Err(GitError::CountMismatch));
    let more = pack_of(2, &[blob_chunk(b"hello\n")]);
    assert_eq!(Packfile::read(&more), Err(GitError::BadVarint));
    let empty = pack_of(0, &[]);
    assert_eq!(Packfile::read(&empty).unwrap().chunks.len(), 0);
}
