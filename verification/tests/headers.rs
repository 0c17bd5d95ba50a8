use baxzup::header::{
    member_end, member_header, member_header_with_mode, member_start, patch_header,
    subarchive_mode, HeaderBlock,
};

fn placeholder(name: &str) -> tar::Header {
    let mut header = tar::Header::new_gnu();
    header.set_path(name).unwrap();
    header.set_mode(0o100644);
    header.set_mtime(1_700_000_000);
    header.set_entry_type(tar::EntryType::Regular);
    header.set_size(0);
    header.set_cksum();
    header
}

fn reread(block: &HeaderBlock) -> tar::Header {
    let bytes = block.to_bytes();
    tar::Header::from_byte_slice(&bytes).clone()
}

fn checksum(bytes: &[u8; 512]) -> u32 {
    let mut sum: u32 = 0;
    for (i, b) in bytes.iter().enumerate() {
        sum += if (148..156).contains(&i) { 0x20 } else { *b as u32 };
    }
    sum
}

fn check_round_trip(size: u64) {
    let before = placeholder("docs.tar.xz");
    let block = HeaderBlock::from_bytes(*before.as_bytes());
    let patched = patch_header(&block, size);
    let after = reread(&patched);
    assert_eq!(after.size().unwrap(), size);
    assert_eq!(after.entry_size().unwrap(), size);
    assert_eq!(after.cksum().unwrap(), checksum(&patched.to_bytes()));
    assert_eq!(after.path().unwrap().to_str().unwrap(), "docs.tar.xz");
    assert_eq!(after.mode().unwrap(), 0o100644);
    assert_eq!(after.mtime().unwrap(), 1_700_000_000);
    let (old, new) = (block.to_bytes(), patched.to_bytes());
    for i in 0..512 {
        if !(124..136).contains(&i) && !(148..156).contains(&i) {
            assert_eq!(old[i], new[i]);
        }
    }
}

#[test]
fn a_patched_header_states_the_size_of_the_body() {
    check_round_trip(0);
    check_round_trip(1);
    check_round_trip(12345);
    check_round_trip(4096);
    check_round_trip(0o77777777777);
}

#[test]
fn a_size_from_eight_gib_on_is_written_in_binary() {
    check_round_trip(0o100000000000);
    check_round_trip(1 << 40);
    check_round_trip(u64::MAX);
    let block = HeaderBlock::from_bytes(*placeholder("big.tar.xz").as_bytes());
    let patched = patch_header(&block, 0o100000000000).to_bytes();
    assert_eq!(&patched[124..136], &[0x80, 0, 0, 0, 0, 0, 0, 2, 0, 0, 0, 0]);
}

#[test]
fn the_size_field_holds_eleven_octal_digits() {
    let block = HeaderBlock::from_bytes(*placeholder("docs.tar.xz").as_bytes());
    let patched = patch_header(&block, 12345).to_bytes();
    assert_eq!(&patched[124..136], b"00000030071\0");
    assert_eq!(&patched[148..156], format!("{:07o}\0", checksum(&patched)).as_bytes());
}

#[test]
fn a_patch_takes_the_place_of_an_earlier_size() {
    let mut stale = placeholder("docs.tar.xz");
    stale.set_size(999_999);
    stale.set_cksum();
    let block = HeaderBlock::from_bytes(*stale.as_bytes());
    let patched = patch_header(&block, 42);
    assert_eq!(reread(&patched).size().unwrap(), 42);
    assert_eq!(reread(&patched).cksum().unwrap(), checksum(&patched.to_bytes()));
}

#[test]
fn header_blocks_keep_their_bytes() {
    let mut bytes = [0u8; 512];
    for (i, b) in bytes.iter_mut().enumerate() {
        *b = (i % 251) as u8;
    }
    assert_eq!(HeaderBlock::from_bytes(bytes).to_bytes(), bytes);
}

#[test]
fn the_mode_of_a_directory_becomes_that_of_a_file() {
    assert_eq!(subarchive_mode(0o040755), 0o100755);
    assert_eq!(subarchive_mode(0o040700), 0o100700);
    assert_eq!(subarchive_mode(0o047777), 0o107777);
    // The formula is a plain exclusive or, whatever the type bits are.
    assert_eq!(subarchive_mode(0o100644), 0o040644);
    assert_eq!(subarchive_mode(0), 0o140000);
}

#[test]
fn the_member_header_is_that_of_a_regular_file() {
    let mut dir = tar::Header::new_gnu();
    dir.set_path("docs").unwrap();
    dir.set_mode(0o040755);
    dir.set_uid(1000);
    dir.set_entry_type(tar::EntryType::Directory);
    dir.set_size(0);
    let base = HeaderBlock::from_bytes(*dir.as_bytes());
    let member = reread(&member_header(&base).unwrap());
    assert_eq!(member.mode().unwrap(), 0o100755);
    assert_eq!(member.entry_type(), tar::EntryType::Regular);
    assert_eq!(member.uid().unwrap(), 1000);
    assert_eq!(member.path().unwrap().to_str().unwrap(), "docs");

    let other = reread(&member_header_with_mode(&base, 0o040700));
    assert_eq!(other.mode().unwrap(), 0o100700);
    assert_eq!(other.entry_type(), tar::EntryType::Regular);
}

#[test]
fn a_header_without_a_readable_mode_gives_no_member_header() {
    let mut bytes = *placeholder("docs").as_bytes();
    bytes[100..107].copy_from_slice(b"zzzzzzz");
    assert!(member_header(&HeaderBlock::from_bytes(bytes)).is_none());
}

#[test]
fn a_member_ends_on_a_block_boundary() {
    assert_eq!(member_end(512, 0), Some(512));
    assert_eq!(member_end(512, 1), Some(1024));
    assert_eq!(member_end(512, 512), Some(1024));
    assert_eq!(member_end(512, 513), Some(1536));
    assert_eq!(member_end(1536, 1000), Some(2560));
    assert_eq!(member_end(0, u64::MAX), None);
    assert_eq!(member_end(u64::MAX - 100, 10), None);
    assert_eq!(member_end(u64::MAX - 512, 512), Some(u64::MAX));
    assert_eq!(member_end(u64::MAX - 511, 512), None);
}

#[test]
fn a_header_lies_one_block_before_its_body() {
    assert_eq!(member_start(512, 0), Some(0));
    assert_eq!(member_start(1024, 1), Some(0));
    assert_eq!(member_start(2560, 1000), Some(1024));
    assert_eq!(member_start(1023, 1), None);
    assert_eq!(member_start(0, 0), None);
    assert_eq!(member_start(u64::MAX, u64::MAX), None);
    for (start, len) in [(0u64, 0u64), (512, 511), (1536, 512), (4096, 70_000)] {
        let end = member_end(start + 512, len).unwrap();
        assert_eq!(member_start(end, len), Some(start));
    }
}

#[test]
fn the_mode_field_holds_the_seven_lowest_octal_digits() {
    let base = HeaderBlock::from_bytes(*placeholder("docs").as_bytes());
    for mode in [0u32, 0o755, 0o040755, 0o7777777, 0o10000000, 0o123456701, u32::MAX] {
        let bytes = member_header_with_mode(&base, mode).to_bytes();
        let member = subarchive_mode(mode);
        assert_eq!(&bytes[100..108], format!("{:07o}\0", member % 0o10000000).as_bytes());
        assert_eq!(bytes[156], b'0');
        let before = base.to_bytes();
        for i in 0..512 {
            if !(100..108).contains(&i) && i != 156 {
                assert_eq!(bytes[i], before[i]);
            }
        }
    }
}

#[test]
fn every_width_of_size_reads_back() {
    let mut size: u64 = 1;
    for _ in 0..64 {
        check_round_trip(size);
        check_round_trip(size - 1);
        size = size.wrapping_mul(2);
    }
}
