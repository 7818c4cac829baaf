//! Shell-style variable substitution: `$NAME`, `${NAME}`, `${NAME-default}`
//! and `%NAME%` placeholders, resolved through a pluggable value source.
use vstd::prelude::*;

pub mod dialect;
pub mod engine;
pub mod laws;
pub mod source;

use dialect::{BASH_PATTERN, Config, OnNotPresent, compiles, regex_split, splits};
use engine::{expand, substitute};
use source::{Env, resolved};

verus! {

/// Why a placeholder could not be resolved.
#[derive(Clone, Copy, Debug, PartialEq, Eq, Structural)]
pub enum Error {
    /// The value source holds no value for the name.
    NotPresent,
    /// The name breaks the value source's naming rules.
    InvalidName,
    /// The value source holds a value that is not valid text.
    InvalidValue,
    /// The dialect's pattern could not be compiled, or the matcher gave up.
    Pattern,
}

/// The escape of the bash dialect: `\$` stands for `$`.
pub open spec fn bash_escapes() -> Seq<(Seq<char>, Seq<char>)> {
    seq![(seq!['\\', '$'], seq!['$'])]
}

/// Substitutes the bash-style placeholders of `text` from an environment
/// snapshot, under the bash dialect's policy (`Default`, whose fallback is
/// never emitted). Fails with `Error::Pattern` only where the bash pattern
/// does not compile or the matcher gives up.
pub fn env(text: &str, vars: &Env) -> (r: Result<String, Error>)
    ensures
        !compiles(BASH_PATTERN@) ==> r == Err::<String, Error>(Error::Pattern),
        compiles(BASH_PATTERN@) ==> match regex_split(BASH_PATTERN@, text@) {
            None => r == Err::<String, Error>(Error::Pattern),
            Some((found, tail)) => splits(found, tail, text@) && forall|p: OnNotPresent|
                p is Default ==> resolved(r) == #[trigger] expand(
                    vars,
                    p,
                    bash_escapes(),
                    found,
                    tail,
                ),
        },
{
    match Config::bash() {
        Ok(config) => {
            let r = substitute(&config, text, vars);
            proof {
                assert(engine::escape_view(config.unescapes()) =~= bash_escapes());
                if let Some((found, tail)) = regex_split(BASH_PATTERN@, text@) {
                    assert forall|p: OnNotPresent| p is Default implies resolved(r)
                        == #[trigger] expand(vars, p, bash_escapes(), found, tail) by {
                        laws::lemma_default_fallback_unused(
                            vars,
                            config.policy(),
                            p,
                            bash_escapes(),
                            found,
                            tail,
                        );
                    }
                }
            }
            r
        },
        Err(_) => Err(Error::Pattern),
    }
}

} // verus!
