use baxzup::error::ExclusionConfigError;
use baxzup::tags::{classify_directory, KeepMode, TagKeepMode, TagRules};

fn names(list: &[&str]) -> Vec<Vec<u8>> {
    list.iter().map(|n| n.as_bytes().to_vec()).collect()
}

fn rules(mode: TagKeepMode) -> TagRules {
    let mut tags = TagRules::new();
    tags.insert(b"TAGFILE".to_vec(), mode);
    tags
}

#[test]
fn every_spelling_of_a_mode_is_read() {
    for sep in ["-", " ", "_", ""] {
        assert_eq!(TagKeepMode::parse(&format!("keep{}tag", sep)).unwrap(), TagKeepMode::Tag);
        assert_eq!(TagKeepMode::parse(&format!("keep{}dir", sep)).unwrap(), TagKeepMode::Dir);
        assert_eq!(TagKeepMode::parse(&format!("keep{}none", sep)).unwrap(), TagKeepMode::Nothing);
    }
}

#[test]
fn the_case_of_a_mode_does_not_matter() {
    assert_eq!(TagKeepMode::parse("Keep-Tag").unwrap(), TagKeepMode::Tag);
    assert_eq!(TagKeepMode::parse("KEEP_DIR").unwrap(), TagKeepMode::Dir);
    assert_eq!(TagKeepMode::parse("keepNONE").unwrap(), TagKeepMode::Nothing);
}

#[test]
fn an_unknown_mode_is_refused() {
    for word in ["", "keep", "keep-all", "keep--tag", "keep-tag ", "tag", "keep.tag", "k\u{212a}eep-tag"] {
        assert!(matches!(TagKeepMode::parse(word), Err(ExclusionConfigError::UnknownTagMode)));
    }
}

#[test]
fn tag_rules_map_names_to_modes() {
    let mut tags = TagRules::new();
    assert_eq!(tags.get(b"CACHEDIR.TAG"), None);
    tags.insert(b"CACHEDIR.TAG".to_vec(), TagKeepMode::Tag);
    tags.insert(b".nobackup".to_vec(), TagKeepMode::Nothing);
    assert_eq!(tags.get(b"CACHEDIR.TAG"), Some(TagKeepMode::Tag));
    assert_eq!(tags.get(b".nobackup"), Some(TagKeepMode::Nothing));
    assert_eq!(tags.get(b"cachedir.tag"), None);
    // A later rule for the same name takes the place of the earlier one.
    tags.insert(b"CACHEDIR.TAG".to_vec(), TagKeepMode::Dir);
    assert_eq!(tags.get(b"CACHEDIR.TAG"), Some(TagKeepMode::Dir));
    assert_eq!(tags.get(b".nobackup"), Some(TagKeepMode::Nothing));
}

#[test]
fn without_a_tag_every_child_stays() {
    let d = classify_directory(names(&["a", "b", "c"]), &rules(TagKeepMode::Nothing));
    assert_eq!(d.keep_mode, KeepMode::Recurse);
    assert_eq!(d.entries_to_recurse, names(&["a", "b", "c"]));
    let empty = classify_directory(Vec::new(), &rules(TagKeepMode::Tag));
    assert_eq!(empty.keep_mode, KeepMode::Recurse);
    assert!(empty.entries_to_recurse.is_empty());
}

#[test]
fn keep_none_drops_the_directory() {
    let d = classify_directory(names(&["a", "TAGFILE", "b"]), &rules(TagKeepMode::Nothing));
    assert_eq!(d.keep_mode, KeepMode::Nothing);
    assert!(d.entries_to_recurse.is_empty());
}

#[test]
fn keep_dir_drops_the_children() {
    let d = classify_directory(names(&["a", "TAGFILE", "b"]), &rules(TagKeepMode::Dir));
    assert_eq!(d.keep_mode, KeepMode::Dir);
    assert!(d.entries_to_recurse.is_empty());
}

#[test]
fn keep_tag_keeps_only_the_tag() {
    let d = classify_directory(names(&["a", "TAGFILE", "b"]), &rules(TagKeepMode::Tag));
    assert_eq!(d.keep_mode, KeepMode::Tag);
    assert_eq!(d.entries_to_recurse, names(&["TAGFILE"]));
}

#[test]
fn the_first_tag_among_the_children_decides() {
    let mut tags = TagRules::new();
    tags.insert(b"one".to_vec(), TagKeepMode::Dir);
    tags.insert(b"two".to_vec(), TagKeepMode::Tag);
    let d = classify_directory(names(&["x", "two", "one"]), &tags);
    assert_eq!(d.keep_mode, KeepMode::Tag);
    assert_eq!(d.entries_to_recurse, names(&["two"]));
    let d = classify_directory(names(&["one", "two"]), &tags);
    assert_eq!(d.keep_mode, KeepMode::Dir);
    assert!(d.entries_to_recurse.is_empty());
}
