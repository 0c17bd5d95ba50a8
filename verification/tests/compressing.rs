use baxzup::compress::{build_encoder, encoder_outcome, CompressProgress, CompressorConfig, MAX_LEVEL};
use baxzup::error::{CompressConfigError, DisplayConfigError, EncoderFault};
use baxzup::settings::{check_chars, check_color, unknown};
use std::io::Read;

#[test]
fn a_level_above_nine_is_refused() {
    assert_eq!(MAX_LEVEL, 9);
    for level in 0..=9 {
        assert_eq!(CompressorConfig { level, threads: 1, block_size: 0 }.validate(), Ok(()));
    }
    assert_eq!(
        CompressorConfig { level: 10, threads: 1, block_size: 0 }.validate(),
        Err(CompressConfigError::LevelTooHigh { level: 10 })
    );
    assert_eq!(
        build_encoder(&CompressorConfig { level: 4000, threads: 0, block_size: 0 }, 4).err(),
        Some(CompressConfigError::LevelTooHigh { level: 4000 })
    );
}

#[test]
fn zero_threads_stand_for_all_cores() {
    let all = CompressorConfig { level: 6, threads: 0, block_size: 0 };
    assert_eq!(all.effective_threads(8), 8);
    assert_eq!(all.effective_threads(1), 1);
    let three = CompressorConfig { level: 6, threads: 3, block_size: 0 };
    assert_eq!(three.effective_threads(8), 3);
}

#[test]
fn a_refusal_of_the_library_is_reported_by_its_kind() {
    // The library refuses an encoder without threads.
    let refused = xz2::stream::MtStreamBuilder::new().preset(6).threads(0).encoder();
    assert!(refused.is_err());
    assert_eq!(
        encoder_outcome(refused).err(),
        Some(CompressConfigError::Encoder { fault: EncoderFault::Options })
    );
    assert!(encoder_outcome(xz2::stream::MtStreamBuilder::new().preset(1).encoder()).is_ok());
    assert_eq!(
        build_encoder(&CompressorConfig { level: 6, threads: 0, block_size: 0 }, 0).err(),
        Some(CompressConfigError::Encoder { fault: EncoderFault::Options })
    );
}

#[test]
fn a_container_survives_compression() {
    // The container of the two-roots scenario, built in memory.
    let entries: [(&str, bool); 4] =
        [("docs", true), ("docs/a.txt", false), ("docs/b.txt", false), ("logs", true)];
    let mut builder = tar::Builder::new(Vec::new());
    for (name, is_dir) in entries.iter() {
        let mut header = tar::Header::new_gnu();
        let body: &[u8] = if *is_dir { b"" } else { b"some text\n" };
        header.set_entry_type(if *is_dir {
            tar::EntryType::Directory
        } else {
            tar::EntryType::Regular
        });
        header.set_mode(if *is_dir { 0o755 } else { 0o644 });
        header.set_size(body.len() as u64);
        builder.append_data(&mut header, name, body).unwrap();
    }
    let container = builder.into_inner().unwrap();

    let cfg = CompressorConfig { level: 3, threads: 0, block_size: 0 };
    let stream = build_encoder(&cfg, 2).unwrap();
    let mut encoder = xz2::read::XzEncoder::new_stream(&container[..], stream);
    let mut compressed = Vec::new();
    encoder.read_to_end(&mut compressed).unwrap();
    assert_eq!(encoder.total_in(), container.len() as u64);
    assert_eq!(encoder.total_out(), compressed.len() as u64);
    assert_ne!(compressed, container);

    let mut restored = Vec::new();
    xz2::read::XzDecoder::new(&compressed[..]).read_to_end(&mut restored).unwrap();
    assert_eq!(restored, container);
    let mut archive = tar::Archive::new(&restored[..]);
    let mut seen = Vec::new();
    for entry in archive.entries().unwrap() {
        let entry = entry.unwrap();
        let is_dir = entry.header().entry_type() == tar::EntryType::Directory;
        seen.push((entry.path().unwrap().to_str().unwrap().to_string(), is_dir));
    }
    let expected: Vec<(String, bool)> = entries.iter().map(|(n, d)| (n.to_string(), *d)).collect();
    assert_eq!(seen, expected);
}

#[test]
fn progress_counts_what_is_new() {
    let mut progress = CompressProgress::new();
    assert_eq!((progress.bytes_consumed(), progress.bytes_produced()), (0, 0));
    assert_eq!(progress.sample(100, 0), None);
    assert_eq!(progress.sample(500, 60), Some(60));
    assert_eq!(progress.sample(900, 60), None);
    assert_eq!(progress.sample(900, 100), Some(40));
    assert_eq!((progress.bytes_consumed(), progress.bytes_produced()), (900, 100));
    // A stale sample does not set the counters back.
    assert_eq!(progress.sample(800, 90), None);
    assert_eq!((progress.bytes_consumed(), progress.bytes_produced()), (900, 100));
    assert_eq!(progress.sample(u64::MAX, u64::MAX), Some(u64::MAX - 100));
}

#[test]
fn progress_characters_come_in_twos_at_least() {
    assert_eq!(check_chars("█░"), Ok(()));
    assert_eq!(check_chars("|/-\\ "), Ok(()));
    assert_eq!(check_chars("█"), Err(DisplayConfigError::TooFewChars));
    assert_eq!(check_chars(""), Err(DisplayConfigError::TooFewChars));
}

#[test]
fn colour_names_hold_letters_digits_underscores_and_slashes() {
    assert_eq!(check_color("yellow"), Ok(()));
    assert_eq!(check_color("bright_red/blue"), Ok(()));
    assert_eq!(check_color("Color256"), Ok(()));
    assert_eq!(check_color(""), Ok(()));
    assert_eq!(check_color("red.bold"), Err(DisplayConfigError::InvalidColor));
    assert_eq!(check_color("red}"), Err(DisplayConfigError::InvalidColor));
    assert_eq!(check_color("rot\u{e9}"), Err(DisplayConfigError::InvalidColor));
    assert_eq!(check_color("re d"), Err(DisplayConfigError::InvalidColor));
}

#[test]
fn a_name_nobody_knows_is_unknown() {
    assert_eq!(unknown(), "unknown");
}
