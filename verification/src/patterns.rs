//! Regular expressions, through the `regex` crate.
use vstd::prelude::*;

verus! {

#[verifier::external_type_specification]
#[verifier::external_body]
pub struct ExRegexError(regex::Error);

/// Whether the `regex` crate finds a match of `pattern` in `text`; `None`
/// when it refuses the pattern.
pub uninterp spec fn regex_matches(pattern: Seq<char>, text: Seq<char>) -> Option<bool>;

/// `text` with every match of `pattern` replaced by `replacement`, as the
/// `regex` crate's `replace_all` gives it; `None` when it refuses the
/// pattern.
pub uninterp spec fn regex_replaced(pattern: Seq<char>, text: Seq<char>, replacement: Seq<char>) -> Option<Seq<char>>;

/// The capture group `group` of each successive non-overlapping match of
/// `pattern` in `text`, as the `regex` crate finds them; `None` when the
/// crate refuses the pattern.
pub uninterp spec fn regex_captures(pattern: Seq<char>, text: Seq<char>, group: nat) -> Option<Seq<Option<Seq<char>>>>;

/// The text of optional strings.
pub open spec fn opt_texts(v: Seq<Option<String>>) -> Seq<Option<Seq<char>>> {
    v.map_values(|h: Option<String>| match h {
        Some(s) => Some(s@),
        None => None,
    })
}

/// `regex::Regex::new(pattern)` then `Regex::is_match(text)`. Named as a
/// function of the pattern and the text alone; `Err` exactly when the name
/// gives `None`.
#[verifier::external_body]
pub(crate) fn is_match(pattern: &str, text: &str) -> (r: Result<bool, regex::Error>)
    ensures
        match r {
            Ok(b) => regex_matches(pattern@, text@) == Some(b),
            Err(_) => regex_matches(pattern@, text@) is None,
        },
{
    let re = regex::Regex::new(pattern)?;
    Ok(re.is_match(text))
}

/// `regex::Regex::new(pattern)` then `Regex::replace_all(text,
/// replacement)`, converted to an owned string. Named as a function of
/// its arguments alone.
#[verifier::external_body]
pub(crate) fn replace_all(pattern: &str, text: &str, replacement: &str) -> (r: Result<String, regex::Error>)
    ensures
        match r {
            Ok(s) => regex_replaced(pattern@, text@, replacement@) == Some(s@),
            Err(_) => regex_replaced(pattern@, text@, replacement@) is None,
        },
{
    let re = regex::Regex::new(pattern)?;
    Ok(re.replace_all(text, replacement).into_owned())
}

/// `regex::Regex::new(pattern)` and, for each capture of
/// `Regex::captures_iter` over `text`, group `group` as an owned string.
/// Named as a function of its arguments alone.
#[verifier::external_body]
pub(crate) fn capture_groups(pattern: &str, text: &str, group: usize) -> (r: Result<Vec<Option<String>>, regex::Error>)
    ensures
        match r {
            Ok(v) => regex_captures(pattern@, text@, group as nat) == Some(opt_texts(v@)),
            Err(_) => regex_captures(pattern@, text@, group as nat) is None,
        },
{
    let re = regex::Regex::new(pattern)?;
    Ok(re.captures_iter(text).map(|c| c.get(group).map(|m| m.as_str().to_string())).collect())
}

} // verus!
