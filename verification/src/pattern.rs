//! Exclusion patterns: their two written forms, the regular expression
//! each stands for, and the test of a path against a set of them.

use crate::error::ExclusionConfigError;
use crate::path::PathStyle;
use vstd::prelude::*;
use vstd::string::StrSliceExecFns;

verus! {

#[verifier::external_type_specification]
#[verifier::external_body]
pub struct ExRegex(regex::bytes::Regex);

#[verifier::external_type_specification]
#[verifier::external_body]
pub struct ExRegexError(regex::Error);

/// The expression text that a compiled expression was made from.
pub uninterp spec fn regex_text(re: regex::bytes::Regex) -> Seq<char>;

/// Whether the expression compiler accepts the text `text`.
pub uninterp spec fn regex_accepts(text: Seq<char>) -> bool;

/// Whether a compiled expression finds a match anywhere in `haystack`.
pub uninterp spec fn regex_matches(re: regex::bytes::Regex, haystack: Seq<u8>) -> bool;

/// `regex::bytes::Regex::new`. Whether a text compiles depends on the
/// text alone, and a compiled expression remembers the text it was made
/// from.
#[verifier::external_body]
fn compile(text: &str) -> (r: Result<regex::bytes::Regex, regex::Error>)
    ensures
        r is Ok <==> regex_accepts(text@),
        r matches Ok(re) ==> regex_text(re) == text@,
{
    regex::bytes::Regex::new(text)
}

/// `regex::bytes::Regex::is_match`: whether the expression matches
/// anywhere in the haystack, which depends on the compiled expression and
/// the haystack alone.
#[verifier::external_body]
fn is_match(re: &regex::bytes::Regex, haystack: &[u8]) -> (b: bool)
    ensures
        b == regex_matches(*re, haystack@),
{
    re.is_match(haystack)
}

/// The `Display` text of a `regex::Error`. Nothing is claimed of it.
#[verifier::external_body]
fn describe(e: &regex::Error) -> (message: String) {
    e.to_string()
}

/// `String::push`: appends one character.
#[verifier::external_body]
fn push_char(s: &mut String, c: char)
    ensures
        final(s)@ == old(s)@.push(c),
{
    s.push(c)
}

/// A flag letter of the raw form.
pub open spec fn is_flag(c: char) -> bool {
    c == 'i' || c == 'm' || c == 's' || c == 'U' || c == 'x'
}

/// A character that the plain form takes literally although the
/// expression syntax gives it a meaning.
pub open spec fn is_special(c: char) -> bool {
    c == '-' || c == '[' || c == ']' || c == '{' || c == '}' || c == '(' || c == ')' || c == '*'
        || c == '+' || c == '?' || c == '.' || c == ',' || c == '\\' || c == '^' || c == '$' || c
        == '|' || c == '#'
}

/// Whether `s` is written in the raw form `?/body/flags` with its closing
/// slash at `j`: the body holds no line feed, and what follows the closing
/// slash are flag letters only.
pub open spec fn raw_split(s: Seq<char>, j: int) -> bool {
    &&& 2 <= j < s.len()
    &&& s[0] == '?'
    &&& s[1] == '/'
    &&& s[j] == '/'
    &&& forall|k: int| j < k < s.len() ==> is_flag(#[trigger] s[k])
    &&& forall|k: int| 2 <= k < j ==> #[trigger] s[k] != '\n'
}

/// Whether `s` is written in the raw form.
pub open spec fn is_raw(s: Seq<char>) -> bool {
    exists|j: int| raw_split(s, j)
}

/// The expression that a raw pattern with its closing slash at `j` stands
/// for: its body, behind its flags where it has any.
pub open spec fn raw_source(s: Seq<char>, j: int) -> Seq<char> {
    let body = s.subrange(2, j);
    let flags = s.subrange(j + 1, s.len() as int);
    if flags.len() == 0 {
        body
    } else {
        seq!['(', '?'] + flags + seq![')'] + body
    }
}

/// `c` as the expression syntax takes it literally.
pub open spec fn escaped_char(c: char) -> Seq<char> {
    if is_special(c) {
        seq!['\\', c]
    } else {
        seq![c]
    }
}

/// `s` with each of its characters taken literally.
pub open spec fn escaped(s: Seq<char>) -> Seq<char>
    decreases s.len(),
{
    if s.len() == 0 {
        Seq::<char>::empty()
    } else {
        escaped(s.drop_last()) + escaped_char(s.last())
    }
}

/// `s` without one trailing separator.
pub open spec fn without_trailing(s: Seq<char>, sep: char) -> Seq<char> {
    if s.len() > 0 && s.last() == sep {
        s.drop_last()
    } else {
        s
    }
}

/// The group that matches where a segment begins: at the start of the
/// path or behind a separator.
pub open spec fn segment_anchor(sep: char) -> Seq<char> {
    seq!['(', '?', ':', '^', '|'] + escaped_char(sep) + seq![')']
}

/// The expression that a plain pattern stands for: its text, taken
/// literally, as whole segments at the end of the path.
pub open spec fn plain_source(s: Seq<char>, sep: char) -> Seq<char> {
    segment_anchor(sep) + escaped(without_trailing(s, sep)) + seq!['$']
}

/// The expression that the pattern `s` stands for.
pub open spec fn pattern_source(s: Seq<char>, sep: char) -> Seq<char> {
    if is_raw(s) {
        raw_source(s, choose|j: int| raw_split(s, j))
    } else {
        plain_source(s, sep)
    }
}

/// A raw pattern has one closing slash only.
pub proof fn lemma_raw_split_unique(s: Seq<char>, j1: int, j2: int)
    requires
        raw_split(s, j1),
        raw_split(s, j2),
    ensures
        j1 == j2,
{
    if j1 < j2 {
        assert(is_flag(s[j2]));
    } else if j2 < j1 {
        assert(is_flag(s[j1]));
    }
}

fn flag_letter(c: char) -> (b: bool)
    ensures
        b == is_flag(c),
{
    c == 'i' || c == 'm' || c == 's' || c == 'U' || c == 'x'
}

fn special(c: char) -> (b: bool)
    ensures
        b == is_special(c),
{
    c == '-' || c == '[' || c == ']' || c == '{' || c == '}' || c == '(' || c == ')' || c == '*'
        || c == '+' || c == '?' || c == '.' || c == ',' || c == '\\' || c == '^' || c == '$' || c
        == '|' || c == '#'
}

/// The characters of `s`.
fn chars_of(s: &str) -> (out: Vec<char>)
    ensures
        out@ == s@,
{
    let n = s.unicode_len();
    let mut out: Vec<char> = Vec::new();
    let mut i: usize = 0;
    while i < n
        invariant
            i <= n,
            n == s@.len(),
            out@ == s@.subrange(0, i as int),
        decreases n - i,
    {
        out.push(s.get_char(i));
        i += 1;
    }
    assert(s@.subrange(0, n as int) == s@);
    out
}

/// The string made of `chars`.
fn string_of(chars: &Vec<char>) -> (out: String)
    ensures
        out@ == chars@,
{
    let mut out = String::new();
    let mut i: usize = 0;
    while i < chars.len()
        invariant
            i <= chars.len(),
            out@ == chars@.subrange(0, i as int),
        decreases chars.len() - i,
    {
        push_char(&mut out, chars[i]);
        i += 1;
    }
    assert(chars@.subrange(0, chars.len() as int) == chars@);
    out
}

/// Finds the closing slash of a raw pattern.
fn find_raw_split(s: &Vec<char>) -> (found: Option<usize>)
    ensures
        match found {
            Some(j) => raw_split(s@, j as int),
            None => !is_raw(s@),
        },
{
    let n = s.len();
    if n < 3 || s[0] != '?' || s[1] != '/' {
        return None;
    }
    let mut j: usize = n;
    while j > 2 && flag_letter(s[j - 1])
        invariant
            2 <= j <= n,
            n == s.len(),
            forall|k: int| j <= k < n ==> is_flag(#[trigger] s@[k]),
        decreases j,
    {
        j -= 1;
    }
    // The closing slash can only stand just below the run of flag letters.
    if j <= 2 || s[j - 1] != '/' {
        assert forall|c: int| !raw_split(s@, c) by {
            if raw_split(s@, c) {
                if c >= j {
                    assert(is_flag(s@[c]));
                } else if j > 2 {
                    assert(is_flag(s@[j - 1]));
                }
            }
        }
        return None;
    }
    let close = j - 1;
    let mut k: usize = 2;
    while k < close
        invariant
            2 <= k <= close < n,
            n == s.len(),
            forall|m: int| 2 <= m < k ==> #[trigger] s@[m] != '\n',
        decreases close - k,
    {
        if s[k] == '\n' {
            assert forall|c: int| !raw_split(s@, c) by {
                if raw_split(s@, c) {
                    if c > close {
                        assert(is_flag(s@[c]));
                    } else if c < close {
                        assert(is_flag(s@[close as int]));
                    }
                }
            }
            return None;
        }
        k += 1;
    }
    Some(close)
}

/// Appends `c`, taken literally, to `out`.
fn push_escaped(out: &mut Vec<char>, c: char)
    ensures
        final(out)@ == old(out)@ + escaped_char(c),
{
    if special(c) {
        out.push('\\');
    }
    out.push(c);
    assert(out@ =~= old(out)@ + escaped_char(c));
}

/// The expression that the pattern `s` stands for.
fn translate(s: &Vec<char>, sep: char) -> (out: Vec<char>)
    ensures
        out@ == pattern_source(s@, sep),
{
    let mut out: Vec<char> = Vec::new();
    match find_raw_split(s) {
        Some(j) => {
            proof {
                lemma_raw_split_unique(s@, j as int, choose|c: int| raw_split(s@, c));
            }
            assert(j < s.len());
            if j + 1 < s.len() {
                out.push('(');
                out.push('?');
                let mut k: usize = j + 1;
                while k < s.len()
                    invariant
                        j + 1 <= k <= s.len(),
                        out@ == seq!['(', '?'] + s@.subrange(j + 1, k as int),
                    decreases s.len() - k,
                {
                    out.push(s[k]);
                    k += 1;
                }
                out.push(')');
            }
            let ghost head = out@;
            let mut k: usize = 2;
            while k < j
                invariant
                    2 <= k <= j < s.len(),
                    out@ == head + s@.subrange(2, k as int),
                decreases j - k,
            {
                out.push(s[k]);
                k += 1;
            }
            assert(out@ =~= raw_source(s@, j as int));
        },
        None => {
            out.push('(');
            out.push('?');
            out.push(':');
            out.push('^');
            out.push('|');
            push_escaped(&mut out, sep);
            out.push(')');
            assert(out@ =~= segment_anchor(sep));
            let end = if s.len() > 0 && s[s.len() - 1] == sep {
                s.len() - 1
            } else {
                s.len()
            };
            assert(s@.subrange(0, end as int) =~= without_trailing(s@, sep));
            let mut k: usize = 0;
            assert(s@.subrange(0, 0) =~= Seq::<char>::empty());
            while k < end
                invariant
                    k <= end <= s.len(),
                    out@ == segment_anchor(sep) + escaped(s@.subrange(0, k as int)),
                decreases end - k,
            {
                push_escaped(&mut out, s[k]);
                assert(s@.subrange(0, k + 1).drop_last() =~= s@.subrange(0, k as int));
                k += 1;
            }
            out.push('$');
        },
    }
    out
}

/// The separator of `style` as a character.
pub open spec fn separator_char(style: PathStyle) -> char {
    match style {
        PathStyle::Unix => '/',
        PathStyle::Windows => '\\',
    }
}

/// The regular expression that the configured pattern `s` stands for.
///
/// A pattern written as `?/body/flags` is a raw expression: it stands for
/// its body, with its flags in front. Any other pattern is plain text: it
/// matches where a path ends in that text as whole segments.
pub fn translate_pattern(s: &str, style: PathStyle) -> (out: String)
    ensures
        out@ == pattern_source(s@, separator_char(style)),
{
    let sep = match style {
        PathStyle::Unix => '/',
        PathStyle::Windows => '\\',
    };
    let chars = chars_of(s);
    let source = translate(&chars, sep);
    string_of(&source)
}

/// A compiled exclusion pattern. Its view is the text of the regular
/// expression it was compiled from; which paths it excludes is for the
/// compiled expression to say.
pub struct ExclusionPattern {
    regex: regex::bytes::Regex,
}

impl View for ExclusionPattern {
    type V = Seq<char>;

    closed spec fn view(&self) -> Seq<char> {
        regex_text(self.regex)
    }
}

impl ExclusionPattern {
    /// Whether the pattern matches anywhere in `path`.
    pub closed spec fn excludes(&self, path: Seq<u8>) -> bool {
        regex_matches(self.regex, path)
    }

    /// Whether the pattern matches anywhere in `path`.
    pub fn is_match(&self, path: &[u8]) -> (b: bool)
        ensures
            b == self.excludes(path@),
    {
        is_match(&self.regex, path)
    }
}

/// What becomes of the compiler's answer: a compiled expression is kept
/// as a pattern, a refusal is reported with the compiler's words.
pub fn pattern_from(compiled: Result<regex::bytes::Regex, regex::Error>) -> (r: Result<
    ExclusionPattern,
    ExclusionConfigError,
>)
    ensures
        match compiled {
            Ok(re) => r matches Ok(p) && p@ == regex_text(re) && forall|path: Seq<u8>|
                #[trigger] p.excludes(path) == regex_matches(re, path),
            Err(_) => r matches Err(e) && e is Pattern,
        },
{
    match compiled {
        Ok(re) => Ok(ExclusionPattern { regex: re }),
        Err(e) => Err(ExclusionConfigError::Pattern { message: describe(&e) }),
    }
}

/// Compiles the configured pattern `s`. A pattern comes back exactly if
/// the compiler accepts the expression that `s` stands for, and it was
/// compiled from that expression; a refusal is reported with the
/// compiler's words.
pub fn parse_excluded_pattern(s: &str, style: PathStyle) -> (r: Result<
    ExclusionPattern,
    ExclusionConfigError,
>)
    ensures
        r is Ok <==> regex_accepts(pattern_source(s@, separator_char(style))),
        r matches Ok(p) ==> p@ == pattern_source(s@, separator_char(style)),
        r matches Err(e) ==> e is Pattern,
{
    let source = translate_pattern(s, style);
    pattern_from(compile(source.as_str()))
}

/// Whether one of `patterns` matches `path`.
pub open spec fn excluded_by(patterns: Seq<ExclusionPattern>, path: Seq<u8>) -> bool {
    exists|i: int| 0 <= i < patterns.len() && (#[trigger] patterns[i]).excludes(path)
}

/// Whether one of `patterns` matches `path`.
pub fn is_excluded(patterns: &Vec<ExclusionPattern>, path: &[u8]) -> (b: bool)
    ensures
        b == excluded_by(patterns@, path@),
{
    let mut i: usize = 0;
    while i < patterns.len()
        invariant
            i <= patterns.len(),
            forall|k: int| 0 <= k < i ==> !(#[trigger] patterns[k]).excludes(path@),
        decreases patterns.len() - i,
    {
        if patterns[i].is_match(path) {
            return true;
        }
        i += 1;
    }
    false
}

} // verus!
