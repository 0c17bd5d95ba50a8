use baxzup::error::ExclusionConfigError;
use baxzup::path::PathStyle;
use baxzup::pattern::{is_excluded, parse_excluded_pattern, pattern_from, translate_pattern};

fn compiled(patterns: &[&str]) -> Vec<baxzup::pattern::ExclusionPattern> {
    patterns.iter().map(|p| parse_excluded_pattern(p, PathStyle::Unix).unwrap()).collect()
}

#[test]
fn a_raw_pattern_stands_for_its_body_behind_its_flags() {
    assert_eq!(translate_pattern("?/cache/i", PathStyle::Unix), "(?i)cache");
    assert_eq!(translate_pattern("?/cache/", PathStyle::Unix), "cache");
    assert_eq!(translate_pattern("?/a/b/c/xs", PathStyle::Unix), "(?xs)a/b/c");
    assert_eq!(translate_pattern("?/\\.tmp$/imsUx", PathStyle::Unix), "(?imsUx)\\.tmp$");
    assert_eq!(translate_pattern("?//", PathStyle::Unix), "");
}

#[test]
fn a_pattern_that_misses_the_raw_form_is_plain() {
    // No closing slash.
    assert_eq!(translate_pattern("?/cache", PathStyle::Unix), "(?:^|/)\\?/cache$");
    // A letter behind the closing slash that is no flag.
    assert_eq!(translate_pattern("?/a/q", PathStyle::Unix), "(?:^|/)\\?/a/q$");
    // A line feed in the body.
    assert_eq!(translate_pattern("?/a\nb/", PathStyle::Unix), "(?:^|/)\\?/a\nb$");
    assert_eq!(translate_pattern("?", PathStyle::Unix), "(?:^|/)\\?$");
}

#[test]
fn a_plain_pattern_is_taken_literally_and_anchored() {
    assert_eq!(translate_pattern("cache", PathStyle::Unix), "(?:^|/)cache$");
    assert_eq!(translate_pattern("cache/", PathStyle::Unix), "(?:^|/)cache$");
    assert_eq!(translate_pattern("a.b", PathStyle::Unix), "(?:^|/)a\\.b$");
    assert_eq!(translate_pattern("", PathStyle::Unix), "(?:^|/)$");
    assert_eq!(
        translate_pattern("-[]{}()*+?.,\\^$|#", PathStyle::Unix),
        "(?:^|/)\\-\\[\\]\\{\\}\\(\\)\\*\\+\\?\\.\\,\\\\\\^\\$\\|\\#$"
    );
    assert_eq!(
        translate_pattern("C:\\Program Files\\", PathStyle::Windows),
        "(?:^|\\\\)C:\\\\Program Files$"
    );
}

#[test]
fn plain_patterns_match_whole_segments_only() {
    let patterns = compiled(&["cache"]);
    assert!(is_excluded(&patterns, b"/home/me/cache"));
    assert!(is_excluded(&patterns, b"cache"));
    assert!(!is_excluded(&patterns, b"/home/me/mycache"));
    assert!(!is_excluded(&patterns, b"/home/me/cache2"));
    assert!(!is_excluded(&patterns, b"/home/me/cache/file"));
    let nested = compiled(&["me/cache/"]);
    assert!(is_excluded(&nested, b"/home/me/cache"));
    assert!(!is_excluded(&nested, b"/home/some/cache"));
}

#[test]
fn a_star_in_a_plain_pattern_is_a_star() {
    let patterns = compiled(&["*.tmp"]);
    assert!(is_excluded(&patterns, b"/data/logs/*.tmp"));
    assert!(!is_excluded(&patterns, b"/data/logs/x.tmp"));
}

#[test]
fn raw_patterns_match_anywhere() {
    let patterns = compiled(&["?/cache/i"]);
    assert!(is_excluded(&patterns, b"/home/me/.Cache/x"));
    assert!(is_excluded(&patterns, b"/home/me/mycache"));
    assert!(!is_excluded(&patterns, b"/home/me/data"));
    let tmp = compiled(&["?/\\.tmp$/"]);
    assert!(is_excluded(&tmp, b"/data/logs/x.tmp"));
    assert!(!is_excluded(&tmp, b"/data/logs/x.tmp.keep"));
}

#[test]
fn any_pattern_of_the_set_excludes() {
    let patterns = compiled(&["cache", "?/\\.tmp$/", "node_modules"]);
    assert!(is_excluded(&patterns, b"/p/node_modules"));
    assert!(is_excluded(&patterns, b"/p/a.tmp"));
    assert!(is_excluded(&patterns, b"/p/cache"));
    assert!(!is_excluded(&patterns, b"/p/src"));
    assert!(!is_excluded(&Vec::new(), b"/p/cache"));
}

#[test]
fn paths_are_matched_as_bytes() {
    let patterns = compiled(&["?/(?-u)\\xff/"]);
    assert!(is_excluded(&patterns, &[b'/', b'a', 0xff]));
    assert!(!is_excluded(&patterns, b"/a"));
}

#[test]
fn a_malformed_raw_pattern_is_refused() {
    match parse_excluded_pattern("?/(unclosed/", PathStyle::Unix) {
        Err(ExclusionConfigError::Pattern { message }) => assert!(!message.is_empty()),
        other => panic!("expected a pattern error, got {:?}", other.map(|_| ())),
    }
}

#[test]
fn the_compilers_answer_is_passed_on() {
    let kept = pattern_from(regex::bytes::Regex::new("^/a$")).unwrap();
    assert!(kept.is_match(b"/a"));
    assert!(!kept.is_match(b"/ab"));
    assert!(matches!(
        pattern_from(regex::bytes::Regex::new("(")),
        Err(ExclusionConfigError::Pattern { .. })
    ));
}

#[test]
fn a_pattern_comes_back_exactly_if_its_expression_compiles() {
    for pattern in ["cache", "?/a+b/", "?/[a-z]{2}/i", "", "*", "(", "?//"] {
        let source = translate_pattern(pattern, PathStyle::Unix);
        let verdict = regex::bytes::Regex::new(&source).is_ok();
        assert_eq!(parse_excluded_pattern(pattern, PathStyle::Unix).is_ok(), verdict);
        assert!(verdict);
    }
    for pattern in ["?/(/", "?/a{2,1}/", "?/[z-a]/", "?/\\/q/x"] {
        let source = translate_pattern(pattern, PathStyle::Unix);
        let verdict = regex::bytes::Regex::new(&source).is_ok();
        assert_eq!(parse_excluded_pattern(pattern, PathStyle::Unix).is_ok(), verdict);
    }
    assert!(parse_excluded_pattern("?/(/", PathStyle::Unix).is_err());
    assert!(parse_excluded_pattern("?/a{2,1}/", PathStyle::Unix).is_err());
}
