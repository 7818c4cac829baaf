//! The substitution engine: each placeholder is resolved through a value
//! source and the dialect's policy; escape sequences outside placeholders
//! are replaced by the text they stand for.
use vstd::prelude::*;

use crate::dialect::{
    Config,
    OnNotPresent,
    RegexMatch,
    groups_view,
    match_view,
    matches_view,
    regex_split,
    split_matches,
    splits,
};
use crate::source::{ValueSource, resolved};
use crate::Error;

verus! {

/// The escape pairs of a dialect as text.
pub open spec fn escape_view(v: Seq<(String, String)>) -> Seq<(Seq<char>, Seq<char>)> {
    v.map_values(|p: (String, String)| (p.0@, p.1@))
}

/// Escape sequence `k` starts at position `i` of `s`.
pub open spec fn escape_at(esc: Seq<(Seq<char>, Seq<char>)>, s: Seq<char>, i: int, k: int) -> bool {
    let e = esc[k].0;
    &&& e.len() > 0
    &&& 0 <= i
    &&& i + e.len() <= s.len()
    &&& s.subrange(i, i + e.len()) == e
}

/// The first escape sequence, from the `k`-th on, that starts at `i`; -1 if none.
pub open spec fn first_escape(esc: Seq<(Seq<char>, Seq<char>)>, s: Seq<char>, i: int, k: int) -> int
    decreases esc.len() - k,
{
    if k < 0 || k >= esc.len() {
        -1
    } else if escape_at(esc, s, i, k) {
        k
    } else {
        first_escape(esc, s, i, k + 1)
    }
}

/// `s` from position `i` on, read left to right, with each escape sequence
/// replaced by the text it stands for; where two start at one position, the
/// one listed first holds.
pub open spec fn unescape_from(esc: Seq<(Seq<char>, Seq<char>)>, s: Seq<char>, i: int) -> Seq<char>
    decreases s.len() - i,
{
    if i < 0 || i >= s.len() {
        seq![]
    } else {
        let k = first_escape(esc, s, i, 0);
        if 0 <= k < esc.len() && esc[k].0.len() > 0 && i + esc[k].0.len() <= s.len() {
            esc[k].1 + unescape_from(esc, s, i + esc[k].0.len())
        } else {
            seq![s[i]] + unescape_from(esc, s, i + 1)
        }
    }
}

pub open spec fn unescape(esc: Seq<(Seq<char>, Seq<char>)>, s: Seq<char>) -> Seq<char> {
    unescape_from(esc, s, 0)
}

/// The groups of a match that took part in it, in order.
pub open spec fn participating(groups: Seq<Option<Seq<char>>>) -> Seq<Seq<char>>
    decreases groups.len(),
{
    if groups.len() == 0 {
        seq![]
    } else {
        let init = participating(groups.drop_last());
        match groups.last() {
            Some(g) => init.push(g),
            None => init,
        }
    }
}

/// What one placeholder becomes: the error it records, if any, and the
/// text that stands in its place. A match with no name group is left as
/// it was written.
pub open spec fn outcome<V: ValueSource>(
    source: &V,
    policy: OnNotPresent,
    m: (Seq<char>, Seq<Option<Seq<char>>>),
) -> (Option<Error>, Seq<char>) {
    let g = participating(m.1);
    if g.len() < 2 {
        (None, if g.len() == 1 { g[0] } else { seq![] })
    } else {
        match source.lookup(g[1]) {
            Ok(v) => (None, v),
            Err(Error::NotPresent) => if g.len() > 2 {
                (None, g[2])
            } else {
                match policy {
                    OnNotPresent::Error => (Some(Error::NotPresent), seq![]),
                    OnNotPresent::Passthrough => (None, g[0]),
                    OnNotPresent::Default(_) => (None, seq![]),
                }
            },
            Err(e) => (Some(e), seq![]),
        }
    }
}

/// The rewritten text of all matches, without the tail.
pub open spec fn expanded_text<V: ValueSource>(
    source: &V,
    policy: OnNotPresent,
    esc: Seq<(Seq<char>, Seq<char>)>,
    ms: Seq<(Seq<char>, Seq<Option<Seq<char>>>)>,
) -> Seq<char>
    decreases ms.len(),
{
    if ms.len() == 0 {
        seq![]
    } else {
        expanded_text(source, policy, esc, ms.drop_last()) + unescape(esc, ms.last().0)
            + outcome(source, policy, ms.last()).1
    }
}

/// The error of the last match that records one.
pub open spec fn last_error<V: ValueSource>(source: &V, policy: OnNotPresent, ms: Seq<(Seq<char>, Seq<Option<Seq<char>>>)>) -> Option<Error>
    decreases ms.len(),
{
    if ms.len() == 0 {
        None
    } else {
        match outcome(source, policy, ms.last()).0 {
            Some(e) => Some(e),
            None => last_error(source, policy, ms.drop_last()),
        }
    }
}

/// The result of a substitution over the matches `ms` and the text `tail`
/// after the last of them: the last recorded error, or the rewritten text.
pub open spec fn expand<V: ValueSource>(
    source: &V,
    policy: OnNotPresent,
    esc: Seq<(Seq<char>, Seq<char>)>,
    ms: Seq<(Seq<char>, Seq<Option<Seq<char>>>)>,
    tail: Seq<char>,
) -> Result<Seq<char>, Error> {
    match last_error(source, policy, ms) {
        Some(e) => Err(e),
        None => Ok(expanded_text(source, policy, esc, ms) + unescape(esc, tail)),
    }
}

/// Whether `pat` is non-empty and occurs in `s` at position `i`.
fn occurs_at(s: &str, i: usize, pat: &str) -> (r: bool)
    requires
        i <= s@.len(),
    ensures
        r == (pat@.len() > 0 && i + pat@.len() <= s@.len() && s@.subrange(i as int, i + pat@.len())
            == pat@),
{
    let n = s.unicode_len();
    let m = pat.unicode_len();
    if m == 0 || m > n - i {
        return false;
    }
    let mut j: usize = 0;
    while j < m
        invariant
            n == s@.len(),
            m == pat@.len(),
            i + m <= n,
            j <= m,
            forall|t: int| 0 <= t < j ==> s@[i + t] == pat@[t],
        decreases m - j,
    {
        if s.get_char(i + j) != pat.get_char(j) {
            assert(s@.subrange(i as int, i + m)[j as int] != pat@[j as int]);
            return false;
        }
        j = j + 1;
    }
    assert(s@.subrange(i as int, i + m) =~= pat@);
    true
}

/// The first escape sequence of `esc` that starts at position `i` of `s`.
fn find_escape(esc: &Vec<(String, String)>, s: &str, i: usize) -> (r: Option<usize>)
    requires
        i <= s@.len(),
    ensures
        match r {
            Some(k) => k < esc@.len() && first_escape(escape_view(esc@), s@, i as int, 0) == k
                && escape_at(escape_view(esc@), s@, i as int, k as int),
            None => first_escape(escape_view(esc@), s@, i as int, 0) == -1,
        },
{
    let ghost ev = escape_view(esc@);
    let mut k: usize = 0;
    while k < esc.len()
        invariant
            k <= esc@.len(),
            i <= s@.len(),
            ev == escape_view(esc@),
            first_escape(ev, s@, i as int, 0) == first_escape(ev, s@, i as int, k as int),
        decreases esc@.len() - k,
    {
        if occurs_at(s, i, esc[k].0.as_str()) {
            return Some(k);
        }
        k = k + 1;
    }
    None
}

/// Appends `s` to `out`, each escape sequence replaced by its text.
fn unescape_into(esc: &Vec<(String, String)>, s: &str, out: &mut String)
    ensures
        final(out)@ == old(out)@ + unescape(escape_view(esc@), s@),
{
    let ghost ev = escape_view(esc@);
    let n = s.unicode_len();
    let mut i: usize = 0;
    while i < n
        invariant
            n == s@.len(),
            i <= n,
            ev == escape_view(esc@),
            out@ + unescape_from(ev, s@, i as int) == old(out)@ + unescape(ev, s@),
        decreases n - i,
    {
        let ghost before = out@;
        match find_escape(esc, s, i) {
            Some(k) => {
                let literal = esc[k].1.as_str();
                out.append(literal);
                let len = esc[k].0.as_str().unicode_len();
                assert(before + unescape_from(ev, s@, i as int) == before + (ev[k as int].1
                    + unescape_from(ev, s@, i + len)));
                assert(out@ + unescape_from(ev, s@, i + len) =~= before + (ev[k as int].1
                    + unescape_from(ev, s@, i + len)));
                i = i + len;
            },
            None => {
                let one = s.substring_char(i, i + 1);
                out.append(one);
                assert(one@ =~= seq![s@[i as int]]);
                assert(out@ + unescape_from(ev, s@, i + 1) =~= before + (seq![s@[i as int]]
                    + unescape_from(ev, s@, i + 1)));
                i = i + 1;
            },
        }
    }
    assert(unescape_from(ev, s@, n as int) == Seq::<char>::empty());
    assert(out@ =~= out@ + unescape_from(ev, s@, n as int));
}

/// The groups of a match that took part in it, in order.
fn group_texts(groups: &Vec<Option<String>>) -> (r: Vec<String>)
    ensures
        r@.len() == participating(groups_view(groups@)).len(),
        forall|t: int|
            0 <= t < r@.len() ==> (#[trigger] r@[t])@ == participating(groups_view(groups@))[t],
{
    let ghost gv = groups_view(groups@);
    let mut r: Vec<String> = Vec::new();
    let mut j: usize = 0;
    while j < groups.len()
        invariant
            j <= groups@.len(),
            gv == groups_view(groups@),
            r@.len() == participating(gv.subrange(0, j as int)).len(),
            forall|t: int|
                0 <= t < r@.len() ==> (#[trigger] r@[t])@ == participating(
                    gv.subrange(0, j as int),
                )[t],
        decreases groups@.len() - j,
    {
        proof {
            assert(gv.subrange(0, j + 1).drop_last() =~= gv.subrange(0, j as int));
        }
        match &groups[j] {
            Some(g) => {
                r.push(g.clone());
            },
            None => {},
        }
        j = j + 1;
    }
    proof {
        assert(gv.subrange(0, groups@.len() as int) =~= gv);
    }
    r
}

/// Resolves one placeholder: the error it records, if any, and its text.
fn resolve_match<V: ValueSource>(source: &V, policy: &OnNotPresent, m: &RegexMatch) -> (r: (
    Option<Error>,
    String,
))
    ensures
        r.0 == outcome(source, *policy, match_view(*m)).0,
        r.1@ == outcome(source, *policy, match_view(*m)).1,
{
    let g = group_texts(&m.groups);
    if g.len() < 2 {
        if g.len() == 1 {
            return (None, g[0].clone());
        }
        return (None, String::new());
    }
    match source.get(g[1].as_str()) {
        Ok(v) => (None, v),
        Err(Error::NotPresent) => {
            if g.len() > 2 {
                (None, g[2].clone())
            } else {
                match policy {
                    OnNotPresent::Error => (Some(Error::NotPresent), String::new()),
                    OnNotPresent::Passthrough => (None, g[0].clone()),
                    OnNotPresent::Default(_) => (None, String::new()),
                }
            }
        },
        Err(e) => (Some(e), String::new()),
    }
}

/// Substitutes over placeholders already found: `ms` in order, then the
/// text `tail` after the last of them. Every placeholder is resolved; the
/// call fails with the error of the last one that records an error.
pub fn substitute_matches<V: ValueSource>(
    config: &Config,
    source: &V,
    ms: &Vec<RegexMatch>,
    tail: &str,
) -> (r: Result<String, Error>)
    ensures
        resolved(r) == expand(
            source,
            config.policy(),
            escape_view(config.unescapes()),
            matches_view(ms@),
            tail@,
        ),
{
    let ghost mv = matches_view(ms@);
    let ghost p = config.policy();
    let ghost ev = escape_view(config.unescapes());
    let mut out = String::new();
    let mut err: Option<Error> = None;
    let mut i: usize = 0;
    while i < ms.len()
        invariant
            i <= ms@.len(),
            p == config.policy(),
            ev == escape_view(config.unescapes()),
            mv == matches_view(ms@),
            out@ == expanded_text(source, p, ev, mv.subrange(0, i as int)),
            err == last_error(source, p, mv.subrange(0, i as int)),
        decreases ms@.len() - i,
    {
        proof {
            assert(mv.subrange(0, i + 1).drop_last() =~= mv.subrange(0, i as int));
        }
        unescape_into(config.unescape(), ms[i].before.as_str(), &mut out);
        let (e, text) = resolve_match(source, config.on_not_present(), &ms[i]);
        out.append(text.as_str());
        if e.is_some() {
            err = e;
        }
        i = i + 1;
    }
    proof {
        assert(mv.subrange(0, ms@.len() as int) =~= mv);
    }
    match err {
        Some(e) => Err(e),
        None => {
            unescape_into(config.unescape(), tail, &mut out);
            Ok(out)
        },
    }
}

/// Substitutes every placeholder of `on` in the syntax of `config`, with
/// names resolved through `source`: the placeholders are those the
/// dialect's pattern finds, and the result is that of `substitute_matches`
/// on them. Fails with `Error::Pattern` where the matcher gives up.
pub fn substitute<V: ValueSource>(config: &Config, on: &str, source: &V) -> (r: Result<String, Error>)
    ensures
        match regex_split(config.pattern_view(), on@) {
            None => r == Err::<String, Error>(Error::Pattern),
            Some((found, tail)) => splits(found, tail, on@) && resolved(r) == expand(
                source,
                config.policy(),
                escape_view(config.unescapes()),
                found,
                tail,
            ),
        },
{
    match split_matches(config, on) {
        Some((ms, tail)) => substitute_matches(config, source, &ms, tail.as_str()),
        None => Err(Error::Pattern),
    }
}

} // verus!
