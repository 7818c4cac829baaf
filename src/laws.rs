//! Laws of substitution, stated over the engine's model.
use vstd::prelude::*;

use crate::dialect::{OnNotPresent, matched_text, splits, whole};
use crate::engine::{
    escape_at,
    expand,
    expanded_text,
    first_escape,
    last_error,
    outcome,
    participating,
    unescape,
    unescape_from,
};
use crate::source::ValueSource;
use crate::Error;

verus! {

/// No escape sequence of `esc` occurs anywhere in `s`.
pub open spec fn no_escapes(esc: Seq<(Seq<char>, Seq<char>)>, s: Seq<char>) -> bool {
    forall|i: int, k: int| 0 <= k < esc.len() ==> !#[trigger] escape_at(esc, s, i, k)
}

proof fn lemma_first_escape_none(esc: Seq<(Seq<char>, Seq<char>)>, s: Seq<char>, i: int, k: int)
    requires
        no_escapes(esc, s),
    ensures
        first_escape(esc, s, i, k) == -1,
    decreases esc.len() - k,
{
    if 0 <= k < esc.len() {
        assert(!escape_at(esc, s, i, k));
        lemma_first_escape_none(esc, s, i, k + 1);
    }
}

proof fn lemma_first_escape_found(
    esc: Seq<(Seq<char>, Seq<char>)>,
    s: Seq<char>,
    i: int,
    k: int,
    j: int,
)
    requires
        0 <= j <= k < esc.len(),
        escape_at(esc, s, i, k),
        forall|t: int| 0 <= t < k ==> !#[trigger] escape_at(esc, s, i, t),
    ensures
        first_escape(esc, s, i, j) == k,
    decreases k - j,
{
    if j < k {
        lemma_first_escape_found(esc, s, i, k, j + 1);
    }
}

proof fn lemma_unescape_plain(esc: Seq<(Seq<char>, Seq<char>)>, s: Seq<char>, i: int)
    requires
        no_escapes(esc, s),
        0 <= i <= s.len(),
    ensures
        unescape_from(esc, s, i) == s.subrange(i, s.len() as int),
    decreases s.len() - i,
{
    if i < s.len() {
        lemma_first_escape_none(esc, s, i, 0);
        lemma_unescape_plain(esc, s, i + 1);
        assert(s.subrange(i, s.len() as int) =~= seq![s[i]] + s.subrange(i + 1, s.len() as int));
    } else {
        assert(s.subrange(i, s.len() as int) =~= Seq::<char>::empty());
    }
}

/// Text in which no escape sequence occurs is left as it is outside
/// placeholders.
pub proof fn lemma_unescape_identity(esc: Seq<(Seq<char>, Seq<char>)>, s: Seq<char>)
    requires
        no_escapes(esc, s),
    ensures
        unescape(esc, s) == s,
{
    lemma_unescape_plain(esc, s, 0);
    assert(s.subrange(0, s.len() as int) =~= s);
}

/// Where the pattern finds no placeholder in a text and no escape sequence
/// occurs in it, substitution gives the text back and does not fail.
pub proof fn lemma_no_placeholder_identity<V: ValueSource>(
    source: &V,
    policy: OnNotPresent,
    esc: Seq<(Seq<char>, Seq<char>)>,
    ms: Seq<(Seq<char>, Seq<Option<Seq<char>>>)>,
    tail: Seq<char>,
    text: Seq<char>,
)
    requires
        splits(ms, tail, text),
        ms.len() == 0,
        no_escapes(esc, text),
    ensures
        expand(source, policy, esc, ms, tail) == Ok::<Seq<char>, Error>(text),
{
    assert(matched_text(ms) == Seq::<char>::empty());
    assert(tail =~= text);
    assert(last_error(source, policy, ms) == None::<Error>);
    assert(expanded_text(source, policy, esc, ms) == Seq::<char>::empty());
    lemma_unescape_identity(esc, text);
    assert(Seq::<char>::empty() + unescape(esc, text) =~= text);
}

/// Where the pattern finds no placeholder in a text, substitution does not
/// fail and gives the text with each escape sequence replaced by the text
/// it stands for, whatever the value source holds.
pub proof fn lemma_no_placeholder_unescapes<V: ValueSource>(
    source: &V,
    policy: OnNotPresent,
    esc: Seq<(Seq<char>, Seq<char>)>,
    tail: Seq<char>,
    text: Seq<char>,
)
    requires
        splits(Seq::<(Seq<char>, Seq<Option<Seq<char>>>)>::empty(), tail, text),
    ensures
        expand(source, policy, esc, Seq::<(Seq<char>, Seq<Option<Seq<char>>>)>::empty(), tail)
            == Ok::<Seq<char>, Error>(unescape(esc, text)),
{
    let ms = Seq::<(Seq<char>, Seq<Option<Seq<char>>>)>::empty();
    assert(matched_text(ms) == Seq::<char>::empty());
    assert(tail =~= text);
    assert(last_error(source, policy, ms) == None::<Error>);
    assert(expanded_text(source, policy, esc, ms) == Seq::<char>::empty());
    assert(Seq::<char>::empty() + unescape(esc, text) =~= unescape(esc, text));
}

/// A placeholder with an inline default whose name is not present becomes
/// that default, records no error, whatever the dialect's policy.
pub proof fn lemma_inline_default_wins<V: ValueSource>(
    source: &V,
    policy: OnNotPresent,
    m: (Seq<char>, Seq<Option<Seq<char>>>),
)
    requires
        participating(m.1).len() > 2,
        source.lookup(participating(m.1)[1]) == Err::<Seq<char>, Error>(Error::NotPresent),
    ensures
        outcome(source, policy, m) == (None::<Error>, participating(m.1)[2]),
{
}

/// A single placeholder whose name is present is replaced by exactly its
/// value; the text around it, free of escape sequences, is kept as it is.
pub proof fn lemma_present_replaced<V: ValueSource>(
    source: &V,
    policy: OnNotPresent,
    esc: Seq<(Seq<char>, Seq<char>)>,
    m: (Seq<char>, Seq<Option<Seq<char>>>),
    tail: Seq<char>,
    value: Seq<char>,
)
    requires
        participating(m.1).len() >= 2,
        source.lookup(participating(m.1)[1]) == Ok::<Seq<char>, Error>(value),
        no_escapes(esc, m.0),
        no_escapes(esc, tail),
    ensures
        expand(source, policy, esc, seq![m], tail) == Ok::<Seq<char>, Error>(
            m.0 + value + tail,
        ),
{
    lemma_single(source, policy, esc, m, tail);
}

proof fn lemma_single<V: ValueSource>(
    source: &V,
    policy: OnNotPresent,
    esc: Seq<(Seq<char>, Seq<char>)>,
    m: (Seq<char>, Seq<Option<Seq<char>>>),
    tail: Seq<char>,
)
    requires
        no_escapes(esc, m.0),
        no_escapes(esc, tail),
    ensures
        last_error(source, policy, seq![m]) == outcome(source, policy, m).0,
        expanded_text(source, policy, esc, seq![m]) + unescape(esc, tail) == m.0 + outcome(
            source,
            policy,
            m,
        ).1 + tail,
{
    let ms = seq![m];
    assert(ms.drop_last() =~= Seq::<(Seq<char>, Seq<Option<Seq<char>>>)>::empty());
    assert(ms.last() == m);
    assert(last_error(source, policy, Seq::<(Seq<char>, Seq<Option<Seq<char>>>)>::empty()) == None::<Error>);
    assert(expanded_text(source, policy, esc, Seq::<(Seq<char>, Seq<Option<Seq<char>>>)>::empty()) == Seq::<char>::empty());
    lemma_unescape_identity(esc, m.0);
    lemma_unescape_identity(esc, tail);
    assert(Seq::<char>::empty() + m.0 =~= m.0);
    assert(expanded_text(source, policy, esc, ms) == expanded_text(
        source,
        policy,
        esc,
        ms.drop_last(),
    ) + unescape(esc, m.0) + outcome(source, policy, m).1);
}

/// Under policy `Passthrough`, a single placeholder with no inline default
/// whose name is not present is echoed as it was written, and the call
/// succeeds.
pub proof fn lemma_passthrough_echoes<V: ValueSource>(
    source: &V,
    esc: Seq<(Seq<char>, Seq<char>)>,
    m: (Seq<char>, Seq<Option<Seq<char>>>),
    tail: Seq<char>,
)
    requires
        m.1.len() > 0,
        m.1[0] is Some,
        participating(m.1).len() == 2,
        source.lookup(participating(m.1)[1]) == Err::<Seq<char>, Error>(Error::NotPresent),
        no_escapes(esc, m.0),
        no_escapes(esc, tail),
    ensures
        expand(source, OnNotPresent::Passthrough, esc, seq![m], tail) == Ok::<Seq<char>, Error>(
            m.0 + whole(m) + tail,
        ),
{
    lemma_participating_first(m.1);
    lemma_single(source, OnNotPresent::Passthrough, esc, m, tail);
}

proof fn lemma_participating_first(groups: Seq<Option<Seq<char>>>)
    requires
        groups.len() > 0,
        groups[0] is Some,
    ensures
        participating(groups).len() > 0,
        participating(groups)[0] == groups[0]->Some_0,
    decreases groups.len(),
{
    if groups.len() == 1 {
        assert(groups.drop_last() =~= Seq::<Option<Seq<char>>>::empty());
        assert(participating(groups.drop_last()) == Seq::<Seq<char>>::empty());
        assert(groups.last() == groups[0]);
        assert(participating(groups) == Seq::<Seq<char>>::empty().push(groups[0]->Some_0));
    } else {
        let init = groups.drop_last();
        assert(init[0] == groups[0]);
        lemma_participating_first(init);
        if let Some(g) = groups.last() {
            assert(participating(groups) == participating(init).push(g));
            assert(participating(groups)[0] == participating(init)[0]);
        }
    }
}

/// Under policy `Error`, a placeholder with no inline default whose name is
/// not present makes the call fail with `NotPresent`, whatever the
/// placeholders after it resolve to, as long as none of them records an
/// error of its own.
pub proof fn lemma_error_policy_fails<V: ValueSource>(
    source: &V,
    esc: Seq<(Seq<char>, Seq<char>)>,
    ms: Seq<(Seq<char>, Seq<Option<Seq<char>>>)>,
    tail: Seq<char>,
    k: int,
)
    requires
        0 <= k < ms.len(),
        participating(ms[k].1).len() == 2,
        source.lookup(participating(ms[k].1)[1]) == Err::<Seq<char>, Error>(
            Error::NotPresent,
        ),
        forall|j: int|
            k < j < ms.len() ==> (#[trigger] outcome(source, OnNotPresent::Error, ms[j])).0 is None,
    ensures
        expand(source, OnNotPresent::Error, esc, ms, tail) == Err::<Seq<char>, Error>(
            Error::NotPresent,
        ),
{
    lemma_last_error_at(source, OnNotPresent::Error, ms, k);
}

/// The error of the last placeholder that records one is the error of the
/// whole call.
pub proof fn lemma_last_error_at<V: ValueSource>(
    source: &V,
    policy: OnNotPresent,
    ms: Seq<(Seq<char>, Seq<Option<Seq<char>>>)>,
    k: int,
)
    requires
        0 <= k < ms.len(),
        outcome(source, policy, ms[k]).0 is Some,
        forall|j: int| k < j < ms.len() ==> (#[trigger] outcome(source, policy, ms[j])).0 is None,
    ensures
        last_error(source, policy, ms) == outcome(source, policy, ms[k]).0,
    decreases ms.len(),
{
    if k < ms.len() - 1 {
        let init = ms.drop_last();
        assert(outcome(source, policy, ms[ms.len() - 1]).0 is None);
        assert(init[k] == ms[k]);
        assert forall|j: int| k < j < init.len() implies (#[trigger] outcome(
            source,
            policy,
            init[j],
        )).0 is None by {
            assert(init[j] == ms[j]);
        }
        lemma_last_error_at(source, policy, init, k);
    }
}

/// An escape sequence outside placeholders is replaced by the text it
/// stands for, where no escape sequence listed before it starts there too.
pub proof fn lemma_escape_literal(esc: Seq<(Seq<char>, Seq<char>)>, s: Seq<char>, k: int)
    requires
        0 <= k < esc.len(),
        escape_at(esc, s, 0, k),
        forall|t: int| 0 <= t < k ==> !#[trigger] escape_at(esc, s, 0, t),
    ensures
        unescape(esc, s) == esc[k].1 + unescape_from(esc, s, esc[k].0.len() as int),
{
    lemma_first_escape_found(esc, s, 0, k, 0);
}

/// Under policy `Default`, the fallback the policy holds never shows in the
/// result: two such policies give the same substitution.
pub proof fn lemma_default_fallback_unused<V: ValueSource>(
    source: &V,
    p: OnNotPresent,
    q: OnNotPresent,
    esc: Seq<(Seq<char>, Seq<char>)>,
    ms: Seq<(Seq<char>, Seq<Option<Seq<char>>>)>,
    tail: Seq<char>,
)
    requires
        p is Default,
        q is Default,
    ensures
        expand(source, p, esc, ms, tail) == expand(source, q, esc, ms, tail),
{
    lemma_default_prefix(source, p, q, esc, ms);
}

proof fn lemma_default_prefix<V: ValueSource>(
    source: &V,
    p: OnNotPresent,
    q: OnNotPresent,
    esc: Seq<(Seq<char>, Seq<char>)>,
    ms: Seq<(Seq<char>, Seq<Option<Seq<char>>>)>,
)
    requires
        p is Default,
        q is Default,
    ensures
        last_error(source, p, ms) == last_error(source, q, ms),
        expanded_text(source, p, esc, ms) == expanded_text(source, q, esc, ms),
    decreases ms.len(),
{
    if ms.len() > 0 {
        lemma_default_prefix(source, p, q, esc, ms.drop_last());
        assert(outcome(source, p, ms.last()) == outcome(source, q, ms.last()));
    }
}

/// Each placeholder has a name that is not present and no inline default.
pub open spec fn all_absent<V: ValueSource>(source: &V, ms: Seq<(Seq<char>, Seq<Option<Seq<char>>>)>) -> bool {
    forall|k: int|
        0 <= k < ms.len() ==> participating((#[trigger] ms[k]).1).len() == 2 && source.lookup(
            participating(ms[k].1)[1],
        ) == Err::<Seq<char>, Error>(Error::NotPresent)
}

/// Under policy `Passthrough`, a text whose placeholders all have names
/// that are not present and no inline default, and in which no escape
/// sequence occurs, comes back unchanged, and the call succeeds.
pub proof fn lemma_passthrough_identity<V: ValueSource>(
    source: &V,
    esc: Seq<(Seq<char>, Seq<char>)>,
    ms: Seq<(Seq<char>, Seq<Option<Seq<char>>>)>,
    tail: Seq<char>,
    text: Seq<char>,
)
    requires
        splits(ms, tail, text),
        all_absent(source, ms),
        forall|k: int| 0 <= k < ms.len() ==> no_escapes(esc, (#[trigger] ms[k]).0),
        no_escapes(esc, tail),
    ensures
        expand(source, OnNotPresent::Passthrough, esc, ms, tail) == Ok::<Seq<char>, Error>(text),
{
    lemma_passthrough_prefix(source, esc, ms);
    lemma_unescape_identity(esc, tail);
}

proof fn lemma_passthrough_prefix<V: ValueSource>(
    source: &V,
    esc: Seq<(Seq<char>, Seq<char>)>,
    ms: Seq<(Seq<char>, Seq<Option<Seq<char>>>)>,
)
    requires
        forall|k: int| 0 <= k < ms.len() ==> (#[trigger] ms[k]).1.len() > 0 && ms[k].1[0] is Some,
        all_absent(source, ms),
        forall|k: int| 0 <= k < ms.len() ==> no_escapes(esc, (#[trigger] ms[k]).0),
    ensures
        last_error(source, OnNotPresent::Passthrough, ms) == None::<Error>,
        expanded_text(source, OnNotPresent::Passthrough, esc, ms) == matched_text(ms),
    decreases ms.len(),
{
    if ms.len() > 0 {
        let init = ms.drop_last();
        let m = ms.last();
        assert forall|k: int| 0 <= k < init.len() implies (#[trigger] init[k]).1.len() > 0
            && init[k].1[0] is Some && no_escapes(esc, init[k].0) by {
            assert(init[k] == ms[k]);
        }
        assert forall|k: int| 0 <= k < init.len() implies participating((#[trigger] init[k]).1).len()
            == 2 && source.lookup(participating(init[k].1)[1]) == Err::<Seq<char>, Error>(
            Error::NotPresent,
        ) by {
            assert(init[k] == ms[k]);
        }
        lemma_passthrough_prefix(source, esc, init);
        assert(m == ms[ms.len() - 1]);
        lemma_participating_first(m.1);
        lemma_unescape_identity(esc, m.0);
        assert(outcome(source, OnNotPresent::Passthrough, m) == (None::<Error>, whole(m)));
    }
}

/// No placeholder's name resolves to an error other than `NotPresent`.
pub open spec fn only_absent_errors<V: ValueSource>(source: &V, ms: Seq<(Seq<char>, Seq<Option<Seq<char>>>)>) -> bool {
    forall|j: int|
        0 <= j < ms.len() && participating((#[trigger] ms[j]).1).len() >= 2 ==> (source.lookup(
            participating(ms[j].1)[1],
        ) is Ok || source.lookup(participating(ms[j].1)[1]) == Err::<Seq<char>, Error>(
            Error::NotPresent,
        ))
}

/// Under policy `Error`, one placeholder with no inline default whose name
/// is not present makes the call fail with `NotPresent`, however many of the
/// other placeholders, before or after it, resolve, as long as no name
/// resolves to another error.
pub proof fn lemma_error_policy_fails_anywhere<V: ValueSource>(
    source: &V,
    esc: Seq<(Seq<char>, Seq<char>)>,
    ms: Seq<(Seq<char>, Seq<Option<Seq<char>>>)>,
    tail: Seq<char>,
    k: int,
)
    requires
        0 <= k < ms.len(),
        participating(ms[k].1).len() == 2,
        source.lookup(participating(ms[k].1)[1]) == Err::<Seq<char>, Error>(Error::NotPresent),
        only_absent_errors(source, ms),
    ensures
        expand(source, OnNotPresent::Error, esc, ms, tail) == Err::<Seq<char>, Error>(
            Error::NotPresent,
        ),
{
    lemma_absent_error_last(source, ms, k);
}

proof fn lemma_absent_error_last<V: ValueSource>(
    source: &V,
    ms: Seq<(Seq<char>, Seq<Option<Seq<char>>>)>,
    k: int,
)
    requires
        0 <= k < ms.len(),
        participating(ms[k].1).len() == 2,
        source.lookup(participating(ms[k].1)[1]) == Err::<Seq<char>, Error>(Error::NotPresent),
        only_absent_errors(source, ms),
    ensures
        last_error(source, OnNotPresent::Error, ms) == Some(Error::NotPresent),
    decreases ms.len(),
{
    let last = ms[ms.len() - 1];
    assert(ms.last() == last);
    if outcome(source, OnNotPresent::Error, last).0 is None {
        assert(k < ms.len() - 1);
        let init = ms.drop_last();
        assert(init[k] == ms[k]);
        assert forall|j: int|
            0 <= j < init.len() && participating((#[trigger] init[j]).1).len() >= 2 implies (
            source.lookup(participating(init[j].1)[1]) is Ok || source.lookup(
                participating(init[j].1)[1],
            ) == Err::<Seq<char>, Error>(Error::NotPresent)) by {
            assert(init[j] == ms[j]);
        }
        lemma_absent_error_last(source, init, k);
    } else {
        assert(participating(ms[ms.len() - 1].1).len() >= 2 ==> (source.lookup(
            participating(ms[ms.len() - 1].1)[1],
        ) is Ok || source.lookup(participating(ms[ms.len() - 1].1)[1]) == Err::<
            Seq<char>,
            Error,
        >(Error::NotPresent)));
    }
}

} // verus!
