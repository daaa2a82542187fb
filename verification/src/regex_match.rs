//! Regular expressions for the regex rule of a field, through the `regex` crate.
use vstd::prelude::*;

verus! {

#[verifier::external_type_specification]
#[verifier::external_body]
pub struct ExRegex(regex::Regex);

/// Whether `pattern` is a regular expression that the `regex` crate compiles.
pub uninterp spec fn regex_compiles(pattern: Seq<char>) -> bool;

/// Whether the regular expression `pattern` matches somewhere in `haystack`.
pub uninterp spec fn regex_matches(pattern: Seq<char>, haystack: Seq<char>) -> bool;

/// The texts that the named group `group` takes in the successive matches
/// of the regular expression `pattern` in `haystack`, one entry per match
/// (`None` where the group takes no part in that match).
pub uninterp spec fn regex_group_captures(pattern: Seq<char>, haystack: Seq<char>, group: Seq<char>) -> Seq<Option<Seq<char>>>;

/// The texts of optional strings.
pub open spec fn opt_texts(v: Seq<Option<String>>) -> Seq<Option<Seq<char>>> {
    v.map_values(|c: Option<String>| match c {
        Some(s) => Some(s@),
        None => None,
    })
}

/// A compiled regular expression together with the pattern it was compiled from.
pub struct CompiledRegex {
    pattern: String,
    inner: regex::Regex,
}

impl View for CompiledRegex {
    type V = Seq<char>;

    closed spec fn view(&self) -> Seq<char> {
        self.pattern@
    }
}

impl CompiledRegex {
    /// The pattern the regex was compiled from.
    pub fn as_str(&self) -> (s: &str)
        ensures
            s@ == self@,
    {
        self.pattern.as_str()
    }
}

/// Compiles `pattern` with `regex::Regex::new`; `None` when it does not compile.
#[verifier::external_body]
pub(crate) fn compile_regex(pattern: &str) -> (r: Option<CompiledRegex>)
    ensures
        r is Some <==> regex_compiles(pattern@),
        r matches Some(c) ==> c@ == pattern@,
{
    match regex::Regex::new(pattern) {
        Ok(inner) => Some(CompiledRegex { pattern: pattern.to_string(), inner }),
        Err(_) => None,
    }
}

/// Whether the regex matches somewhere in `haystack` (`regex::Regex::is_match`).
#[verifier::external_body]
pub(crate) fn regex_is_match(re: &CompiledRegex, haystack: &str) -> (b: bool)
    ensures
        b == regex_matches(re@, haystack@),
{
    re.inner.is_match(haystack)
}

/// The texts the named group `group` takes in the successive matches of
/// the regex in `haystack` (`regex::Regex::captures_iter`, then
/// `Captures::name`), in match order.
#[verifier::external_body]
pub(crate) fn regex_captures(re: &CompiledRegex, haystack: &str, group: &str) -> (r: Vec<Option<String>>)
    ensures
        opt_texts(r@) == regex_group_captures(re@, haystack@, group@),
{
    re.inner.captures_iter(haystack).map(|cap| cap.name(group).map(|m| m.as_str().to_string())).collect()
}

} // verus!
