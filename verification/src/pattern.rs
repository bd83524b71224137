//! Regular expressions, through the `regex` crate.

use vstd::prelude::*;

verus! {

/// What the `regex` crate gives for `pattern` on `text`: the leftmost-first match, if any;
/// or the message of the error when `pattern` does not compile.
pub uninterp spec fn regex_first_match(pattern: Seq<char>, text: Seq<char>) -> Result<Option<Seq<char>>, Seq<char>>;

/// What the `regex` crate gives for `pattern` on `text`: for each successive
/// non-overlapping match, its first capture group if it took part; or the message of the
/// error when `pattern` does not compile.
pub uninterp spec fn regex_group1s(pattern: Seq<char>, text: Seq<char>) -> Result<Seq<Option<Seq<char>>>, Seq<char>>;

/// Compiles `pattern` with `regex::Regex::new` and finds its first match in `text` with
/// `regex::Regex::find`.
///
/// Trusted: the result is the one named by `regex_first_match`, a function of the pattern
/// and the text alone.
#[verifier::external_body]
pub(crate) fn find_first(pattern: &str, text: &str) -> (r: Result<Option<String>, String>)
    ensures
        regex_first_match(pattern@, text@) == (match r {
            Ok(Some(m)) => Ok::<Option<Seq<char>>, Seq<char>>(Some(m@)),
            Ok(None) => Ok::<Option<Seq<char>>, Seq<char>>(None),
            Err(e) => Err::<Option<Seq<char>>, Seq<char>>(e@),
        }),
{
    match regex::Regex::new(pattern) {
        Ok(re) => match re.find(text) {
            Some(m) => Ok(Some(m.as_str().to_string())),
            None => Ok(None),
        },
        Err(e) => Err(e.to_string()),
    }
}

/// Compiles `pattern` with `regex::Regex::new` and lists, with
/// `regex::Regex::captures_iter`, the first capture group of each match in `text`.
///
/// Trusted: the result is the one named by `regex_group1s`, a function of the pattern and
/// the text alone.
#[verifier::external_body]
pub(crate) fn group1_all(pattern: &str, text: &str) -> (r: Result<Vec<Option<String>>, String>)
    ensures
        regex_group1s(pattern@, text@) == (match r {
            Ok(v) => Ok::<Seq<Option<Seq<char>>>, Seq<char>>(
                v@.map_values(|o: Option<String>| match o {
                    Some(s) => Some(s@),
                    None => None,
                }),
            ),
            Err(e) => Err::<Seq<Option<Seq<char>>>, Seq<char>>(e@),
        }),
{
    match regex::Regex::new(pattern) {
        Ok(re) => {
            let mut out: Vec<Option<String>> = Vec::new();
            for cap in re.captures_iter(text) {
                match cap.get(1) {
                    Some(m) => out.push(Some(m.as_str().to_string())),
                    None => out.push(None),
                }
            }
            Ok(out)
        },
        Err(e) => Err(e.to_string()),
    }
}

} // verus!
