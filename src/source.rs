//! Value sources: what a placeholder's name resolves to.
use vstd::prelude::*;

use crate::Error;

verus! {

/// The text view of a resolution result.
pub open spec fn resolved(r: Result<String, Error>) -> Result<Seq<char>, Error> {
    match r {
        Ok(v) => Ok(v@),
        Err(e) => Err(e),
    }
}

/// Something that resolves a name to a value, or says why it cannot.
pub trait ValueSource {
    /// What `get` returns for `name`.
    spec fn lookup(&self, name: Seq<char>) -> Result<Seq<char>, Error>;

    fn get(&self, name: &str) -> (r: Result<String, Error>)
        ensures
            resolved(r) == self.lookup(name@),
    ;
}

/// The index of the first entry at or after `i` whose key is `name`, or -1.
pub open spec fn index_from<V>(entries: Seq<(String, V)>, name: Seq<char>, i: int) -> int
    decreases entries.len() - i,
{
    if i < 0 || i >= entries.len() {
        -1
    } else if entries[i].0@ == name {
        i
    } else {
        index_from(entries, name, i + 1)
    }
}

/// Finds the first entry whose key is `name`.
fn find_entry<V>(entries: &Vec<(String, V)>, name: &str) -> (r: Option<usize>)
    ensures
        match r {
            Some(i) => i < entries@.len() && index_from(entries@, name@, 0) == i as int,
            None => index_from(entries@, name@, 0) == -1,
        },
{
    let key = name.to_owned();
    let mut i: usize = 0;
    while i < entries.len()
        invariant
            i <= entries@.len(),
            key@ == name@,
            index_from(entries@, name@, 0) == index_from(entries@, name@, i as int),
        decreases entries@.len() - i,
    {
        if entries[i].0 == key {
            return Some(i);
        }
        i = i + 1;
    }
    None
}

/// Whether `c` may not stand in an environment variable's name.
pub open spec fn forbidden_in_name(c: char) -> bool {
    c == '=' || c == '\0'
}

/// The view of an environment snapshot: each name with its value, where
/// `None` is a value that is not valid text.
pub open spec fn env_lookup(entries: Seq<(String, Option<String>)>, name: Seq<char>) -> Result<
    Seq<char>,
    Error,
> {
    if exists|j: int| 0 <= j < name.len() && forbidden_in_name(#[trigger] name[j]) {
        Err(Error::InvalidName)
    } else {
        let i = index_from(entries, name, 0);
        if i < 0 {
            Err(Error::NotPresent)
        } else {
            match entries[i].1 {
                Some(v) => Ok(v@),
                None => Err(Error::InvalidValue),
            }
        }
    }
}

/// A snapshot of the process environment. A name maps to its value, or to
/// `None` where the value is not valid text. It is a list, not a map: keys
/// are not required to be unique, and where a name occurs twice the first
/// entry holds.
pub struct Env {
    pub vars: Vec<(String, Option<String>)>,
}

impl Env {
    pub fn new(vars: Vec<(String, Option<String>)>) -> (r: Env)
        ensures
            r.vars@ == vars@,
    {
        Env { vars }
    }

    pub fn invalid_varible_name_pattern(char: char) -> (r: bool)
        ensures
            r == forbidden_in_name(char),
    {
        char == '=' || char == '\0'
    }

    /// Whether some character of `name` is forbidden in a variable's name.
    pub fn is_invalid_name(name: &str) -> (r: bool)
        ensures
            r == exists|j: int| 0 <= j < name@.len() && forbidden_in_name(#[trigger] name@[j]),
    {
        let n = name.unicode_len();
        let mut i: usize = 0;
        while i < n
            invariant
                n == name@.len(),
                i <= n,
                forall|j: int| 0 <= j < i ==> !forbidden_in_name(#[trigger] name@[j]),
            decreases n - i,
        {
            if Env::invalid_varible_name_pattern(name.get_char(i)) {
                return true;
            }
            i = i + 1;
        }
        false
    }
}

impl ValueSource for Env {
    open spec fn lookup(&self, name: Seq<char>) -> Result<Seq<char>, Error> {
        env_lookup(self.vars@, name)
    }

    fn get(&self, name: &str) -> (r: Result<String, Error>) {
        if Env::is_invalid_name(name) {
            return Err(Error::InvalidName);
        }
        match find_entry(&self.vars, name) {
            Some(i) => match &self.vars[i].1 {
                Some(v) => Ok(v.clone()),
                None => Err(Error::InvalidValue),
            },
            None => Err(Error::NotPresent),
        }
    }
}

/// An in-memory mapping from names to values, held as a list of pairs
/// rather than a map: keys are not required to be unique, and where a name
/// occurs twice the first entry holds.
pub struct Mapping {
    pub entries: Vec<(String, String)>,
}

/// The view of a mapping: the first entry's value, with no rule on names.
pub open spec fn map_lookup(entries: Seq<(String, String)>, name: Seq<char>) -> Result<Seq<char>, Error> {
    let i = index_from(entries, name, 0);
    if i < 0 {
        Err(Error::NotPresent)
    } else {
        Ok(entries[i].1@)
    }
}

impl Mapping {
    pub fn new(entries: Vec<(String, String)>) -> (r: Mapping)
        ensures
            r.entries@ == entries@,
    {
        Mapping { entries }
    }
}

impl ValueSource for Mapping {
    open spec fn lookup(&self, name: Seq<char>) -> Result<Seq<char>, Error> {
        map_lookup(self.entries@, name)
    }

    fn get(&self, name: &str) -> (r: Result<String, Error>) {
        match find_entry(&self.entries, name) {
            Some(i) => Ok(self.entries[i].1.clone()),
            None => Err(Error::NotPresent),
        }
    }
}

} // verus!
