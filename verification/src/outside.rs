//! The declarations through which the library calls its outside crates:
//! regular-expression search from `fancy-regex` and language-code lookup
//! from `isolang`.  Each result is a function of the plain arguments alone,
//! so each gets a name the callers' contracts speak through.

use vstd::prelude::*;

verus! {

/// What fancy-regex's leftmost-first search finds for a pattern in a text:
/// the matched characters, or nothing.  A function of pattern and text
/// alone.
pub uninterp spec fn regex_first_match(pattern: Seq<char>, text: Seq<char>) -> Option<Seq<char>>;

/// Relies on `fancy_regex::Regex::new` and `Regex::find`: compiles the
/// pattern and returns the leftmost match in the text.  An unparseable
/// pattern finds nothing.
#[verifier::external_body]
pub(crate) fn regex_find_first(pattern: &str, text: &str) -> (r: Option<String>)
    ensures
        match r {
            Some(m) => regex_first_match(pattern@, text@) == Some(m@),
            None => regex_first_match(pattern@, text@) is None,
        },
{
    let re = match fancy_regex::Regex::new(pattern) {
        Ok(re) => re,
        Err(_) => return None,
    };
    match re.find(text) {
        Ok(Some(m)) => Some(m.as_str().to_string()),
        _ => None,
    }
}

/// What the first capture group of fancy-regex's leftmost match holds, or
/// nothing.  A function of pattern and text alone.
pub uninterp spec fn regex_first_group(pattern: Seq<char>, text: Seq<char>) -> Option<Seq<char>>;

/// Relies on `fancy_regex::Regex::new` and `Regex::captures`: compiles the
/// pattern, runs it once, and hands back capture group one of the leftmost
/// match.
#[verifier::external_body]
pub(crate) fn regex_capture_one(pattern: &str, text: &str) -> (r: Option<String>)
    ensures
        match r {
            Some(m) => regex_first_group(pattern@, text@) == Some(m@),
            None => regex_first_group(pattern@, text@) is None,
        },
{
    let re = match fancy_regex::Regex::new(pattern) {
        Ok(re) => re,
        Err(_) => return None,
    };
    match re.captures(text) {
        Ok(Some(caps)) => caps.get(1).map(|g| g.as_str().to_string()),
        _ => None,
    }
}

/// The canonical three-letter code of an ISO 639-3 language code, when the
/// code names a language.
pub uninterp spec fn part3_lang_code(code: Seq<char>) -> Option<Seq<char>>;

/// Relies on `isolang::Language::from_639_3`, converted back out through
/// its `to_639_3` accessor.
#[verifier::external_body]
pub(crate) fn lang_from_part3(code: &str) -> (r: Option<String>)
    ensures
        match r {
            Some(c) => part3_lang_code(code@) == Some(c@),
            None => part3_lang_code(code@) is None,
        },
{
    isolang::Language::from_639_3(code).map(|l| l.to_639_3().to_string())
}

/// The canonical three-letter code of an ISO 639-1 two-letter code, when
/// the code names a language.
pub uninterp spec fn part1_lang_code(code: Seq<char>) -> Option<Seq<char>>;

/// Relies on `isolang::Language::from_639_1`, converted out through
/// `to_639_3`.
#[verifier::external_body]
pub(crate) fn lang_from_part1(code: &str) -> (r: Option<String>)
    ensures
        match r {
            Some(c) => part1_lang_code(code@) == Some(c@),
            None => part1_lang_code(code@) is None,
        },
{
    isolang::Language::from_639_1(code).map(|l| l.to_639_3().to_string())
}

/// The English display name of an ISO 639-3 language code.
pub uninterp spec fn lang_display_name(code: Seq<char>) -> Option<Seq<char>>;

/// Relies on `isolang::Language::from_639_3`, read out through `to_name`.
#[verifier::external_body]
pub(crate) fn lang_english_name(code: &str) -> (r: Option<String>)
    ensures
        match r {
            Some(n) => lang_display_name(code@) == Some(n@),
            None => lang_display_name(code@) is None,
        },
{
    isolang::Language::from_639_3(code).map(|l| l.to_name().to_string())
}

} // verus!
