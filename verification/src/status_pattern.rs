//! Recognising response status lines such as `"200":` with the `regex` crate.
//!
//! The readers compile two patterns: one that tests whether a line starts a
//! response (`^"[0-9]{3}"`), and one that picks the status code out of it
//! (`^"([0-9]{3})"`).  Matching is done by `regex`; what its contracts claim
//! is stated on the trusted items below.
use vstd::prelude::*;
use regex::Regex;

verus! {

/// The pattern of a line that starts a response block.
pub const STATUS_LINE: &'static str = "^\"[0-9]{3}\"";

/// The pattern that captures the status code of a response line.
pub const STATUS_CODE: &'static str = "^\"([0-9]{3})\"";

#[verifier::external_type_specification]
#[verifier::external_body]
pub struct ExRegex(Regex);

#[verifier::external_type_specification]
#[verifier::external_body]
pub struct ExRegexError(regex::Error);

/// Whether `regex::Regex::new` accepts `pattern`.
pub uninterp spec fn regex_compiles(pattern: Seq<char>) -> bool;

/// Whether the regex of `pattern` matches somewhere in `haystack`
/// (`regex::Regex::is_match`).
pub uninterp spec fn regex_is_match(pattern: Seq<char>, haystack: Seq<char>) -> bool;

/// The text of capture group `group` of the first match of the regex of
/// `pattern` in `haystack` (`regex::Regex::captures`, then `Captures::get`).
pub uninterp spec fn regex_group(pattern: Seq<char>, haystack: Seq<char>, group: nat) -> Option<
    Seq<char>,
>;

/// Whether `c` is one of the ASCII digits `0`..`9`.
pub open spec fn is_ascii_digit(c: char) -> bool {
    '0' <= c <= '9'
}

/// Whether `s` starts with a double quote, three ASCII digits and another
/// double quote, like the line `"404":`.
pub open spec fn quoted_status(s: Seq<char>) -> bool {
    &&& s.len() >= 5
    &&& s[0] == '"'
    &&& is_ascii_digit(s[1])
    &&& is_ascii_digit(s[2])
    &&& is_ascii_digit(s[3])
    &&& s[4] == '"'
}

/// The status code of a line for which [`quoted_status`] holds: the three
/// digits between the quotes.
pub open spec fn quoted_status_code(s: Seq<char>) -> Seq<char> {
    s.subrange(1, 4)
}

/// A compiled regular expression, together with the pattern it was compiled
/// from.
pub struct LinePattern {
    re: Regex,
    source: Ghost<Seq<char>>,
}

impl LinePattern {
    /// The pattern this regex was compiled from.
    pub closed spec fn source(&self) -> Seq<char> {
        self.source@
    }
}

/// Calls `regex::Regex::new`.  The contract claims that it succeeds exactly
/// when [`regex_compiles`] holds of the pattern, and that the compiled regex
/// is the one of that pattern.  When `regex` accepts a pattern is left
/// unsaid: its documentation names syntax errors and a size limit.
#[verifier::external_body]
fn compile(pattern: &str) -> (res: Result<LinePattern, regex::Error>)
    ensures
        res is Ok <==> regex_compiles(pattern@),
        res matches Ok(p) ==> p.source() == pattern@,
{
    match Regex::new(pattern) {
        Ok(re) => Ok(LinePattern { re, source: Ghost(pattern@) }),
        Err(e) => Err(e),
    }
}

/// Calls `regex::Regex::is_match`.  The contract claims that the answer is
/// [`regex_is_match`] of the pattern and the haystack, and, for the pattern
/// [`STATUS_LINE`] (`^` anchors at the start of the haystack, `[0-9]` is an
/// ASCII digit, `{3}` repeats it three times), that the haystack matches
/// exactly when it starts with a quoted three-digit code.
#[verifier::external_body]
fn is_match(p: &LinePattern, haystack: &str) -> (b: bool)
    ensures
        b == regex_is_match(p.source(), haystack@),
        p.source() == STATUS_LINE@ ==> (b == quoted_status(haystack@)),
{
    p.re.is_match(haystack)
}

/// Calls `regex::Regex::captures` and then `Captures::get` for group `group`,
/// and copies the matched text.  The contract claims that the result is
/// [`regex_group`] of the pattern, the haystack and the group, and, for the
/// pattern [`STATUS_CODE`] and group 1, that a group is found exactly when
/// the haystack starts with a quoted three-digit code, and that it is those
/// three digits.
#[verifier::external_body]
fn capture_group(p: &LinePattern, haystack: &str, group: usize) -> (r: Option<String>)
    ensures
        match r {
            Some(s) => regex_group(p.source(), haystack@, group as nat) == Some(s@),
            None => regex_group(p.source(), haystack@, group as nat) is None,
        },
        p.source() == STATUS_CODE@ && group == 1 ==> (r is Some <==> quoted_status(haystack@)),
        p.source() == STATUS_CODE@ && group == 1 ==> (r matches Some(s) ==> s@
            == quoted_status_code(haystack@)),
{
    p.re.captures(haystack).and_then(|c| c.get(group)).map(|m| m.as_str().to_string())
}

/// The two compiled patterns the readers need.
pub struct StatusPatterns {
    line: LinePattern,
    code: LinePattern,
}

impl StatusPatterns {
    /// Both patterns are the ones named [`STATUS_LINE`] and [`STATUS_CODE`].
    pub closed spec fn wf(&self) -> bool {
        &&& self.line.source() == STATUS_LINE@
        &&& self.code.source() == STATUS_CODE@
    }

    /// Compiles both patterns; `None` exactly when `regex` refuses one of them.
    pub fn compile() -> (r: Option<StatusPatterns>)
        ensures
            r is Some <==> (regex_compiles(STATUS_LINE@) && regex_compiles(STATUS_CODE@)),
            r matches Some(p) ==> p.wf(),
    {
        let line = match compile(STATUS_LINE) {
            Ok(p) => p,
            Err(_) => {
                return None;
            },
        };
        let code = match compile(STATUS_CODE) {
            Ok(p) => p,
            Err(_) => {
                return None;
            },
        };
        Some(StatusPatterns { line, code })
    }

    /// Whether `line` starts a response block: a quoted three-digit code at
    /// its very start.
    pub fn is_status_line(&self, line: &[char]) -> (b: bool)
        requires
            self.wf(),
        ensures
            b == quoted_status(line@),
    {
        let s = crate::text::string_from_chars(line);
        is_match(&self.line, s.as_str())
    }

    /// The status code of `line`, when it starts with a quoted three-digit
    /// code.
    pub fn status_code(&self, line: &[char]) -> (r: Option<Vec<char>>)
        requires
            self.wf(),
        ensures
            r is Some <==> quoted_status(line@),
            r matches Some(c) ==> c@ == quoted_status_code(line@),
    {
        let s = crate::text::string_from_chars(line);
        match capture_group(&self.code, s.as_str(), 1) {
            Some(c) => Some(crate::text::chars_of(c.as_str())),
            None => None,
        }
    }
}

} // verus!
