//! Dialects: the placeholder pattern, the policy for names that are not
//! present, and the escape sequences of one substitution syntax.
use vstd::prelude::*;

use fancy_regex::Regex;

use crate::Error;

verus! {

#[verifier::external_type_specification]
#[verifier::external_body]
pub struct ExRegex(fancy_regex::Regex);

/// Whether fancy_regex accepts `pattern`.
pub uninterp spec fn compiles(pattern: Seq<char>) -> bool;

/// What fancy_regex finds of `pattern` in `text`, as `split_matches` cuts
/// it: for each match, the text before it and its groups; then the text
/// after the last match. `None` where the matcher reports an error, where a
/// match starts before the previous one ends, or where a group's span is
/// not a slice of `text` (a pattern that moves a match's start inside a
/// lookaround can do both).
pub uninterp spec fn regex_split(pattern: Seq<char>, text: Seq<char>) -> Option<
    (Seq<(Seq<char>, Seq<Option<Seq<char>>>)>, Seq<char>),
>;

/// `$NAME`, `${NAME}` and `${NAME-default}`, where `$` is not preceded by `\`.
pub const BASH_PATTERN: &'static str = r"(?<!\\)\$(?:(?<name>\w+)|(?:{(?<name>\w+)(?:-(?<default>\w+))?}))";

/// `$NAME`, where `$` is not preceded by another `$`.
pub const DOCKER_PATTERN: &'static str = r"(?<!\$)\$(?<name>\w+)";

/// `%NAME%`, where the first `%` is not preceded by another `%`.
pub const CMD_PATTERN: &'static str = r"(?<!\%)%(?<name>\w+)%";

/// What to do with a placeholder whose name is not present and which holds
/// no inline default.
#[derive(Debug)]
pub enum OnNotPresent {
    /// The call fails with `Error::NotPresent`.
    Error,
    /// The placeholder is left in the output as it was written.
    Passthrough,
    /// The placeholder is replaced by empty text; the fallback held here is
    /// not emitted.
    Default(String),
}

/// One substitution syntax.
///
/// The pattern marks placeholders: group 0 is the whole placeholder, the
/// first group after it that takes part in a match is the name, and the next
/// one, where there is one, the inline default. `escape` lists the
/// dialect's sentinel characters as (literal, replacement) pairs, in the
/// form each dialect is documented with. `unescape` is what the engine
/// applies: each pair is an escape sequence and the text it stands for;
/// outside placeholders, the sequence is replaced by that text. All fields
/// are set together by `Config::new` alone.
pub struct Config {
    pattern: Regex,
    pattern_text: String,
    on_not_present: OnNotPresent,
    escape: Vec<(String, String)>,
    unescape: Vec<(String, String)>,
}

/// A placeholder found in a text, with the text between it and the one
/// before it (or the start of the text).
pub struct RegexMatch {
    pub before: String,
    /// Each group of the pattern, group 0 first; `None` where a group took
    /// no part in the match.
    pub groups: Vec<Option<String>>,
}

/// The text of each group.
pub open spec fn groups_view(g: Seq<Option<String>>) -> Seq<Option<Seq<char>>> {
    g.map_values(
        |o: Option<String>|
            match o {
                Some(s) => Some(s@),
                None => None,
            },
    )
}

/// A match as text: what stands before it, and its groups.
pub open spec fn match_view(m: RegexMatch) -> (Seq<char>, Seq<Option<Seq<char>>>) {
    (m.before@, groups_view(m.groups@))
}

pub open spec fn matches_view(ms: Seq<RegexMatch>) -> Seq<(Seq<char>, Seq<Option<Seq<char>>>)> {
    ms.map_values(|m: RegexMatch| match_view(m))
}

/// The text a placeholder was written as: its group 0.
pub open spec fn whole(m: (Seq<char>, Seq<Option<Seq<char>>>)) -> Seq<char> {
    if m.1.len() > 0 && m.1[0] is Some {
        m.1[0]->Some_0
    } else {
        seq![]
    }
}

/// The text that a sequence of matches was cut from, without its tail.
pub open spec fn matched_text(ms: Seq<(Seq<char>, Seq<Option<Seq<char>>>)>) -> Seq<char>
    decreases ms.len(),
{
    if ms.len() == 0 {
        seq![]
    } else {
        matched_text(ms.drop_last()) + ms.last().0 + whole(ms.last())
    }
}

/// `ms` and `tail` cut `text` into the text between placeholders and the
/// placeholders themselves, each with its group 0.
pub open spec fn splits(
    ms: Seq<(Seq<char>, Seq<Option<Seq<char>>>)>,
    tail: Seq<char>,
    text: Seq<char>,
) -> bool {
    &&& forall|k: int| 0 <= k < ms.len() ==> (#[trigger] ms[k]).1.len() > 0 && ms[k].1[0] is Some
    &&& matched_text(ms) + tail == text
}

/// Relies on fancy_regex::Regex::new: compiles `pattern`; `None` where it
/// reports an error.
#[verifier::external_body]
fn compile(pattern: &str) -> (r: Option<Regex>)
    ensures
        r is Some == compiles(pattern@),
{
    Regex::new(pattern).ok()
}

/// Relies on fancy_regex::Regex::captures_iter on the pattern that
/// `config` was built from: its matches come left to right without overlap,
/// and group 0 of each is the whole match, so the text before each match,
/// the match, and the tail after the last one put together give `text`
/// back (as `try_replacen` of that crate puts them). `None` where the
/// matcher reports an error.
#[verifier::external_body]
pub(crate) fn split_matches(config: &Config, text: &str) -> (r: Option<(Vec<RegexMatch>, String)>)
    ensures
        match r {
            Some((ms, tail)) => regex_split(config.pattern_view(), text@) == Some(
                (matches_view(ms@), tail@),
            ) && splits(matches_view(ms@), tail@, text@),
            None => regex_split(config.pattern_view(), text@) is None,
        },
{
    let mut found = Vec::new();
    let mut last: usize = 0;
    for cap in config.pattern.captures_iter(text) {
        let cap = cap.ok()?;
        let m = cap.get(0)?;
        let before = text.get(last..m.start())?.to_string();
        let groups = cap.iter().map(|g| match g {
            Some(g) => text.get(g.start()..g.end()).map(|t| Some(t.to_string())),
            None => Some(None),
        }).collect::<Option<Vec<Option<String>>>>()?;
        found.push(RegexMatch { before, groups });
        last = m.end();
    }
    Some((found, text.get(last..)?.to_string()))
}

impl Config {
    /// Builds a dialect from its parts; `Error::Pattern` where the pattern
    /// does not compile.
    pub fn new(
        pattern: &str,
        on_not_present: OnNotPresent,
        escape: Vec<(String, String)>,
        unescape: Vec<(String, String)>,
    ) -> (r: Result<Config, Error>)
        ensures
            r is Ok == compiles(pattern@),
            r matches Err(e) ==> e == Error::Pattern,
            r matches Ok(c) ==> c.pattern_view() == pattern@ && c.escapes() == escape@
                && c.unescapes() == unescape@ && c.policy() == on_not_present,
    {
        match compile(pattern) {
            Some(re) => Ok(
                Config {
                    pattern: re,
                    pattern_text: pattern.to_owned(),
                    on_not_present,
                    escape,
                    unescape,
                },
            ),
            None => Err(Error::Pattern),
        }
    }

    /// The text the pattern was compiled from.
    pub closed spec fn pattern_view(&self) -> Seq<char> {
        self.pattern_text@
    }

    /// The policy for names that are not present.
    pub closed spec fn policy(&self) -> OnNotPresent {
        self.on_not_present
    }

    /// The sentinel pairs, (literal, replacement).
    pub closed spec fn escapes(&self) -> Seq<(String, String)> {
        self.escape@
    }

    /// The pairs the engine applies, (escape sequence, text it stands for).
    pub closed spec fn unescapes(&self) -> Seq<(String, String)> {
        self.unescape@
    }

    pub fn on_not_present(&self) -> (r: &OnNotPresent)
        ensures
            *r == self.policy(),
    {
        &self.on_not_present
    }

    pub fn escape(&self) -> (r: &Vec<(String, String)>)
        ensures
            r@ == self.escapes(),
    {
        &self.escape
    }

    pub fn unescape(&self) -> (r: &Vec<(String, String)>)
        ensures
            r@ == self.unescapes(),
    {
        &self.unescape
    }

    /// The compiled pattern.
    pub fn pattern(&self) -> &Regex {
        &self.pattern
    }

    /// The text the pattern was compiled from.
    pub fn pattern_text(&self) -> (r: &str)
        ensures
            r@ == self.pattern_view(),
    {
        self.pattern_text.as_str()
    }

    /// `$NAME`, `${NAME}` and `${NAME-default}`; sentinel `\$` → `$`, and
    /// `\$` stands for `$`.
    pub fn bash() -> (r: Result<Config, Error>)
        ensures
            r is Ok == compiles(BASH_PATTERN@),
            r matches Err(e) ==> e == Error::Pattern,
            r matches Ok(c) ==> c.pattern_view() == BASH_PATTERN@ && is_preset(
                c,
                (seq!['\\', '$'], seq!['$']),
                (seq!['\\', '$'], seq!['$']),
            ),
    {
        proof {
            reveal_strlit("\\$");
            reveal_strlit("$");
            assert("\\$"@ =~= seq!['\\', '$']);
            assert("$"@ =~= seq!['$']);
        }
        Config::preset(BASH_PATTERN, ("\\$", "$"), ("\\$", "$"))
    }

    /// `$NAME` only; sentinel `$` → `$$`: a literal `$` is written `$$`, so
    /// `$$` stands for `$`.
    pub fn docker() -> (r: Result<Config, Error>)
        ensures
            r is Ok == compiles(DOCKER_PATTERN@),
            r matches Err(e) ==> e == Error::Pattern,
            r matches Ok(c) ==> c.pattern_view() == DOCKER_PATTERN@ && is_preset(
                c,
                (seq!['$'], seq!['$', '$']),
                (seq!['$', '$'], seq!['$']),
            ),
    {
        proof {
            reveal_strlit("$$");
            reveal_strlit("$");
            assert("$$"@ =~= seq!['$', '$']);
            assert("$"@ =~= seq!['$']);
        }
        Config::preset(DOCKER_PATTERN, ("$", "$$"), ("$$", "$"))
    }

    /// `%NAME%`; sentinel `$` → `$$`, as docker's: `$$` stands for `$`.
    pub fn cmd() -> (r: Result<Config, Error>)
        ensures
            r is Ok == compiles(CMD_PATTERN@),
            r matches Err(e) ==> e == Error::Pattern,
            r matches Ok(c) ==> c.pattern_view() == CMD_PATTERN@ && is_preset(
                c,
                (seq!['$'], seq!['$', '$']),
                (seq!['$', '$'], seq!['$']),
            ),
    {
        proof {
            reveal_strlit("$$");
            reveal_strlit("$");
            assert("$$"@ =~= seq!['$', '$']);
            assert("$"@ =~= seq!['$']);
        }
        Config::preset(CMD_PATTERN, ("$", "$$"), ("$$", "$"))
    }

    fn preset(pattern: &str, escape: (&str, &str), unescape: (&str, &str)) -> (r: Result<
        Config,
        Error,
    >)
        ensures
            r is Ok == compiles(pattern@),
            r matches Err(e) ==> e == Error::Pattern,
            r matches Ok(c) ==> c.pattern_view() == pattern@ && is_preset(
                c,
                (escape.0@, escape.1@),
                (unescape.0@, unescape.1@),
            ),
    {
        let escape = vec![(escape.0.to_owned(), escape.1.to_owned())];
        let unescape = vec![(unescape.0.to_owned(), unescape.1.to_owned())];
        Config::new(pattern, OnNotPresent::Default(String::new()), escape, unescape)
    }
}

/// A built-in dialect: policy `Default` with an empty fallback, one
/// sentinel pair and one escape sequence.
pub open spec fn is_preset(
    c: Config,
    escape: (Seq<char>, Seq<char>),
    unescape: (Seq<char>, Seq<char>),
) -> bool {
    &&& c.policy() is Default
    &&& c.policy()->Default_0@.len() == 0
    &&& c.escapes().len() == 1
    &&& c.escapes()[0].0@ == escape.0
    &&& c.escapes()[0].1@ == escape.1
    &&& c.unescapes().len() == 1
    &&& c.unescapes()[0].0@ == unescape.0
    &&& c.unescapes()[0].1@ == unescape.1
}

} // verus!
