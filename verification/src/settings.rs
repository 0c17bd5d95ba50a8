//! Checks on the settings of the progress display, and the word that
//! stands for a name nobody could tell.

use crate::error::DisplayConfigError;
use vstd::prelude::*;
use vstd::string::StrSliceExecFns;

verus! {

/// Whether a colour name may hold `c`: a letter or digit of ASCII, `_`
/// or `/`.
pub open spec fn color_char(c: char) -> bool {
    c == '_' || c == '/' || ('0' <= c <= '9') || ('a' <= c <= 'z') || ('A' <= c <= 'Z')
}

/// Whether every character of `s` may stand in a colour name.
pub open spec fn color_name(s: Seq<char>) -> bool {
    forall|i: int| 0 <= i < s.len() ==> color_char(#[trigger] s[i])
}

/// Accepts a set of progress characters if it holds at least two.
pub fn check_chars(chars: &str) -> (r: Result<(), DisplayConfigError>)
    ensures
        chars@.len() >= 2 ==> r is Ok,
        chars@.len() < 2 ==> r == Err::<(), DisplayConfigError>(DisplayConfigError::TooFewChars),
{
    if chars.unicode_len() < 2 {
        Err(DisplayConfigError::TooFewChars)
    } else {
        Ok(())
    }
}

/// Accepts a colour name if all its characters are letters or digits of
/// ASCII, `_` or `/`.
pub fn check_color(color: &str) -> (r: Result<(), DisplayConfigError>)
    ensures
        color_name(color@) ==> r is Ok,
        !color_name(color@) ==> r == Err::<(), DisplayConfigError>(
            DisplayConfigError::InvalidColor,
        ),
{
    let n = color.unicode_len();
    let mut i: usize = 0;
    while i < n
        invariant
            i <= n,
            n == color@.len(),
            forall|k: int| 0 <= k < i ==> color_char(#[trigger] color@[k]),
        decreases n - i,
    {
        let c = color.get_char(i);
        let ok = c == '_' || c == '/' || ('0' <= c && c <= '9') || ('a' <= c && c <= 'z') || ('A'
            <= c && c <= 'Z');
        if !ok {
            assert(!color_char(color@[i as int]));
            return Err(DisplayConfigError::InvalidColor);
        }
        i += 1;
    }
    Ok(())
}

/// The word that stands for a name that could not be found out.
pub fn unknown() -> (word: String)
    ensures
        word@ == "unknown"@,
{
    "unknown".to_owned()
}

} // verus!
