use gitcore::error::GitError;
use gitcore::git::pkt_line::PktLine;

#[test]
fn flush_is_four_zeros() {
    assert_eq!(PktLine::FlushPkt.to_bytes(), b"0000".to_vec());
}

#[test]
fn text_is_framed_with_its_newline() {
    assert_eq!(PktLine::StringDataPkt("done".to_string()).to_bytes(), b"0009done\n".to_vec());
    assert_eq!(PktLine::StringDataPkt(String::new()).to_bytes(), b"0005\n".to_vec());
    assert_eq!(
        PktLine::StringDataPkt("# service=git-upload-pack".to_string()).to_bytes(),
        b"001e# service=git-upload-pack\n".to_vec()
    );
}

#[test]
fn bytes_are_framed_as_they_are() {
    assert_eq!(PktLine::BinaryDataPkt(vec![1, 2, 3]).to_bytes(), b"0007\x01\x02\x03".to_vec());
    assert_eq!(PktLine::BinaryDataPkt(vec![]).to_bytes(), b"0004".to_vec());
}

#[test]
fn long_payloads_get_longer_lengths() {
    let bytes = PktLine::BinaryDataPkt(vec![b'x'; 0xfffb]).to_bytes();
    assert_eq!(bytes[..4].to_vec(), b"ffff".to_vec());
    let bytes = PktLine::BinaryDataPkt(vec![b'x'; 0xfffc]).to_bytes();
    assert_eq!(bytes[..5].to_vec(), b"10000".to_vec());
    assert_eq!(bytes.len(), 5 + 0xfffc);
}

#[test]
fn written_frames_are_read_back() {
    let lines = vec![
        PktLine::StringDataPkt("want ce013625030ba8dba906f756967f9e9ca394464a".to_string()),
        PktLine::StringDataPkt(String::new()),
        PktLine::StringDataPkt("héllo wörld\0caps".to_string()),
        PktLine::BinaryDataPkt(vec![0, 1, 2, 0xff]),
        PktLine::BinaryDataPkt(vec![b'\n', b'x']),
        PktLine::FlushPkt,
    ];
    for line in lines {
        let mut bytes = line.to_bytes();
        let len = bytes.len();
        bytes.extend_from_slice(b"whatever follows");
        assert_eq!(PktLine::read(&bytes, 0), Ok((line, len)));
    }
}

#[test]
fn bytes_that_end_in_a_newline_come_back_as_text() {
    let bytes = PktLine::BinaryDataPkt(b"abc\n".to_vec()).to_bytes();
    assert_eq!(PktLine::read(&bytes, 0), Ok((PktLine::StringDataPkt("abc".to_string()), 8)));
}

#[test]
fn frame_is_read_at_a_position() {
    let bytes = b"00000009done\n0000";
    assert_eq!(PktLine::read(bytes, 0), Ok((PktLine::FlushPkt, 4)));
    assert_eq!(PktLine::read(bytes, 4), Ok((PktLine::StringDataPkt("done".to_string()), 13)));
    assert_eq!(PktLine::read(bytes, 13), Ok((PktLine::FlushPkt, 17)));
}

#[test]
fn length_digits_of_either_case_are_read() {
    assert_eq!(PktLine::read(b"000Aabcdef", 0), Ok((PktLine::BinaryDataPkt(b"abcdef".to_vec()), 10)));
    assert_eq!(PktLine::read(b"000aabcdef", 0), Ok((PktLine::BinaryDataPkt(b"abcdef".to_vec()), 10)));
}

#[test]
fn broken_frames_are_refused() {
    assert_eq!(PktLine::read(b"", 0), Err(GitError::PktTruncated));
    assert_eq!(PktLine::read(b"00", 0), Err(GitError::PktTruncated));
    assert_eq!(PktLine::read(b"zzzz", 0), Err(GitError::BadPktLength));
    assert_eq!(PktLine::read(b"+00a", 0), Err(GitError::BadPktLength));
    assert_eq!(PktLine::read(b"0001", 0), Err(GitError::PktTooShort));
    assert_eq!(PktLine::read(b"0003", 0), Err(GitError::PktTooShort));
    assert_eq!(PktLine::read(b"0004", 0), Err(GitError::PktTooShort));
    assert_eq!(PktLine::read(b"0009don", 0), Err(GitError::PktTruncated));
    assert_eq!(PktLine::read(b"0007\xff\xfe\n", 0), Err(GitError::InvalidUtf8));
}

#[test]
fn frames_are_read_to_the_end() {
    assert_eq!(
        PktLine::read_many(b"0009done\n00000005\n"),
        Ok(vec![
            PktLine::StringDataPkt("done".to_string()),
            PktLine::FlushPkt,
            PktLine::StringDataPkt(String::new()),
        ])
    );
    assert_eq!(PktLine::read_many(b""), Ok(vec![]));
    assert_eq!(PktLine::read_many(b"0009done\n00"), Err(GitError::PktTruncated));
}

#[test]
fn frames_are_written_one_after_the_other() {
    let lines = vec![
        PktLine::StringDataPkt("a".to_string()),
        PktLine::FlushPkt,
        PktLine::BinaryDataPkt(vec![b'b']),
    ];
    assert_eq!(PktLine::all_to_bytes(&lines), b"0006a\n00000005b".to_vec());
    assert_eq!(PktLine::all_to_bytes(&vec![]), Vec::<u8>::new());
}

#[test]
fn text_of_a_frame() {
    assert_eq!(
        PktLine::StringDataPkt("x".to_string()).try_as_string_data_pkt(),
        Some("x".to_string())
    );
    assert_eq!(PktLine::FlushPkt.try_as_string_data_pkt(), None);
    assert_eq!(PktLine::BinaryDataPkt(vec![1]).try_as_string_data_pkt(), None);
}
