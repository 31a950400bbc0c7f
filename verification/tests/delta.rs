use gitcore::delta::DeltaInstruction;
use gitcore::error::GitError;

#[test]
fn apply_without_instructions_gives_nothing() {
    let out = DeltaInstruction::apply(&vec![], b"base");
    assert_eq!(out, Vec::<u8>::new());
    let out = DeltaInstruction::apply(&vec![], b"");
    assert_eq!(out, Vec::<u8>::new());
}

#[test]
fn copy_of_the_whole_base_gives_the_base() {
    let base = b"the quick brown fox".to_vec();
    let ix = vec![DeltaInstruction::Copy { offset: 0, length: base.len() }];
    assert_eq!(DeltaInstruction::apply(&ix, &base), base);
}

#[test]
fn inserts_are_joined_in_order() {
    let ix = vec![
        DeltaInstruction::Insert(b"ab".to_vec()),
        DeltaInstruction::Insert(b"".to_vec()),
        DeltaInstruction::Insert(b"cde".to_vec()),
    ];
    assert_eq!(DeltaInstruction::apply(&ix, b"ignored"), b"abcde".to_vec());
    assert_eq!(DeltaInstruction::apply(&ix, b""), b"abcde".to_vec());
}

#[test]
fn result_is_as_long_as_lengths_and_data_together() {
    let base = b"0123456789".to_vec();
    let ix = vec![
        DeltaInstruction::Copy { offset: 2, length: 3 },
        DeltaInstruction::Insert(b"xy".to_vec()),
        DeltaInstruction::Copy { offset: 9, length: 1 },
        DeltaInstruction::Copy { offset: 10, length: 0 },
    ];
    let out = DeltaInstruction::apply(&ix, &base);
    assert_eq!(out.len(), 3 + 2 + 1);
    assert_eq!(out, b"234xy9".to_vec());
}

#[test]
fn copy_outside_the_base_is_refused() {
    let base = b"0123456789".to_vec();
    let ix = vec![DeltaInstruction::Copy { offset: 8, length: 3 }];
    assert!(!DeltaInstruction::fits(&ix, base.len()));
    assert_eq!(DeltaInstruction::try_apply(&ix, &base), Err(GitError::BadDelta));
    let far = vec![DeltaInstruction::Copy { offset: usize::MAX, length: 2 }];
    assert_eq!(DeltaInstruction::try_apply(&far, &base), Err(GitError::BadDelta));
    let ok = vec![DeltaInstruction::Copy { offset: 8, length: 2 }];
    assert!(DeltaInstruction::fits(&ok, base.len()));
    assert_eq!(DeltaInstruction::try_apply(&ok, &base), Ok(b"89".to_vec()));
}

#[test]
fn insert_instruction_is_read() {
    let bytes = [0x03, b'a', b'b', b'c', 0xff];
    assert_eq!(
        DeltaInstruction::read(&bytes, 0),
        Ok((DeltaInstruction::Insert(b"abc".to_vec()), 4))
    );
}

#[test]
fn copy_instruction_is_read_from_its_flags() {
    // Offset byte 0 and length byte 0.
    assert_eq!(
        DeltaInstruction::read(&[0x91, 0x02, 0x03], 0),
        Ok((DeltaInstruction::Copy { offset: 2, length: 3 }, 3))
    );
    // Offset bytes 1 and 3, length byte 1.
    assert_eq!(
        DeltaInstruction::read(&[0x80 | 0x02 | 0x08 | 0x20, 0x01, 0x02, 0x03], 0),
        Ok((DeltaInstruction::Copy { offset: 0x0200_0100, length: 0x0300 }, 4))
    );
    // All seven argument bytes.
    assert_eq!(
        DeltaInstruction::read(&[0xff, 1, 2, 3, 4, 5, 6, 7], 0),
        Ok((DeltaInstruction::Copy { offset: 0x0403_0201, length: 0x07_0605 }, 8))
    );
    // The third length byte alone.
    assert_eq!(
        DeltaInstruction::read(&[0xc0, 0x01], 0),
        Ok((DeltaInstruction::Copy { offset: 0, length: 0x1_0000 }, 2))
    );
}

#[test]
fn copy_length_zero_stands_for_65536() {
    assert_eq!(
        DeltaInstruction::read(&[0x80], 0),
        Ok((DeltaInstruction::Copy { offset: 0, length: 0x1_0000 }, 1))
    );
    assert_eq!(
        DeltaInstruction::read(&[0x90, 0x00], 0),
        Ok((DeltaInstruction::Copy { offset: 0, length: 0x1_0000 }, 2))
    );
}

#[test]
fn instruction_is_read_at_a_position() {
    let bytes = [0x01, b'x', 0x90, 0x04];
    assert_eq!(
        DeltaInstruction::read(&bytes, 2),
        Ok((DeltaInstruction::Copy { offset: 0, length: 4 }, 4))
    );
}

#[test]
fn broken_instructions_are_refused() {
    assert_eq!(DeltaInstruction::read(&[], 0), Err(GitError::Truncated));
    assert_eq!(DeltaInstruction::read(&[0x00], 0), Err(GitError::BadDelta));
    assert_eq!(DeltaInstruction::read(&[0x03, b'a'], 0), Err(GitError::Truncated));
    assert_eq!(DeltaInstruction::read(&[0x91, 0x02], 0), Err(GitError::Truncated));
}

#[test]
fn instructions_are_read_to_the_end() {
    let bytes = [0x90, 0x05, 0x01, b'!'];
    assert_eq!(
        DeltaInstruction::read_many(&bytes),
        Ok(vec![
            DeltaInstruction::Copy { offset: 0, length: 5 },
            DeltaInstruction::Insert(b"!".to_vec()),
        ])
    );
    assert_eq!(DeltaInstruction::read_many(&[]), Ok(vec![]));
    assert_eq!(DeltaInstruction::read_many(&[0x01, b'a', 0x02, b'b']), Err(GitError::Truncated));
}
