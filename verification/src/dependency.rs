//! The dependency descriptor parser.
//!
//! A raw dependency declaration is a single string: an optional relation
//! prefix, the name of the target mod, and an optional version constraint
//! introduced by the first `<`, `=` or `>`. Parsing is total: any string
//! yields a descriptor, and a string with no recognized prefix and no
//! constraint character is a plain required dependency.

use vstd::prelude::*;
use vstd::string::*;

use crate::text::{is_space, trim, trimmed};

verus! {

/// How a mod relates to the target named by a dependency declaration.
/// Only `Required` gates classification.
#[derive(Debug, Clone, Copy, PartialEq, Eq, Hash, Structural)]
pub enum DepPrefix {
    Incompatible,
    Optional,
    HiddenOptional,
    LoadOrderIndependent,
    Required,
}

impl DepPrefix {
    /// The stable lower-case label of the relation, as scripting hooks and
    /// reports spell it.
    pub fn label(&self) -> (r: &'static str)
        ensures
            r@ == (match *self {
                DepPrefix::Incompatible => "incompatible"@,
                DepPrefix::Optional => "optional"@,
                DepPrefix::HiddenOptional => "hidden-optional"@,
                DepPrefix::LoadOrderIndependent => "load-order-independent"@,
                DepPrefix::Required => "required"@,
            }),
    {
        match self {
            DepPrefix::Incompatible => "incompatible",
            DepPrefix::Optional => "optional",
            DepPrefix::HiddenOptional => "hidden-optional",
            DepPrefix::LoadOrderIndependent => "load-order-independent",
            DepPrefix::Required => "required",
        }
    }
}

impl Default for DepPrefix {
    /// A declaration with no recognized prefix is a required dependency.
    fn default() -> (r: Self)
        ensures
            r == DepPrefix::Required,
    {
        DepPrefix::Required
    }
}

/// A parsed dependency declaration. `original` keeps the raw string verbatim
/// for diagnostics; `version` is empty when no constraint was given.
#[derive(Debug, Clone, PartialEq, Eq, Hash)]
pub struct Dep {
    pub original: String,
    pub prefix: DepPrefix,
    pub name: String,
    pub version: String,
}

/// The mathematical content of a [`Dep`].
pub struct DepView {
    pub original: Seq<char>,
    pub prefix: DepPrefix,
    pub name: Seq<char>,
    pub version: Seq<char>,
}

impl View for Dep {
    type V = DepView;

    open spec fn view(&self) -> DepView {
        DepView {
            original: self.original@,
            prefix: self.prefix,
            name: self.name@,
            version: self.version@,
        }
    }
}

/// Whether `t` starts with the hidden-optional marker `(?)`.
pub open spec fn starts_hidden_optional(t: Seq<char>) -> bool {
    t.len() >= 3 && t[0] == '(' && t[1] == '?' && t[2] == ')'
}

/// The relation encoded by the prefix of the trimmed declaration `t`,
/// checked in fixed precedence order: `(?)`, `!`, `?`, `~`, none.
pub open spec fn relation_of(t: Seq<char>) -> DepPrefix {
    if starts_hidden_optional(t) {
        DepPrefix::HiddenOptional
    } else if t.len() >= 1 && t[0] == '!' {
        DepPrefix::Incompatible
    } else if t.len() >= 1 && t[0] == '?' {
        DepPrefix::Optional
    } else if t.len() >= 1 && t[0] == '~' {
        DepPrefix::LoadOrderIndependent
    } else {
        DepPrefix::Required
    }
}

/// `t` without its relation prefix.
pub open spec fn after_prefix(t: Seq<char>) -> Seq<char> {
    if starts_hidden_optional(t) {
        t.skip(3)
    } else if t.len() >= 1 && (t[0] == '!' || t[0] == '?' || t[0] == '~') {
        t.skip(1)
    } else {
        t
    }
}

/// The characters that introduce a version constraint.
pub open spec fn is_constraint_char(c: char) -> bool {
    c == '<' || c == '=' || c == '>'
}

/// The position of the first constraint character of `s` at or after `i`,
/// or `s.len()` when there is none.
pub open spec fn constraint_split(s: Seq<char>, i: int) -> int
    decreases s.len() - i,
{
    if i >= s.len() {
        s.len() as int
    } else if is_constraint_char(s[i]) {
        i
    } else {
        constraint_split(s, i + 1)
    }
}

/// The descriptor that parsing the raw declaration `raw` yields: trim, take
/// the relation prefix, trim again, split at the first constraint character,
/// and trim both parts. The constraint keeps its leading `<`, `=` or `>`.
pub open spec fn parsed_dep(raw: Seq<char>) -> DepView {
    let t = trimmed(raw);
    let rest = trimmed(after_prefix(t));
    let cut = constraint_split(rest, 0);
    DepView {
        original: raw,
        prefix: relation_of(t),
        name: trimmed(rest.take(cut)),
        version: trimmed(rest.skip(cut)),
    }
}

fn is_constraint(c: char) -> (b: bool)
    ensures
        b == is_constraint_char(c),
{
    c == '<' || c == '=' || c == '>'
}

impl Dep {
    /// Parses a raw dependency declaration. Total: every string yields a
    /// descriptor, and the raw text is kept verbatim.
    pub fn parse(raw: &str) -> (d: Dep)
        ensures
            d@ == parsed_dep(raw@),
    {
        let t = trim(raw);
        let n = t.unicode_len();
        let (prefix, rest0): (DepPrefix, &str) = if n >= 3 && t.get_char(0) == '(' && t.get_char(
            1,
        ) == '?' && t.get_char(2) == ')' {
            (DepPrefix::HiddenOptional, t.substring_char(3, n))
        } else if n >= 1 && t.get_char(0) == '!' {
            (DepPrefix::Incompatible, t.substring_char(1, n))
        } else if n >= 1 && t.get_char(0) == '?' {
            (DepPrefix::Optional, t.substring_char(1, n))
        } else if n >= 1 && t.get_char(0) == '~' {
            (DepPrefix::LoadOrderIndependent, t.substring_char(1, n))
        } else {
            (DepPrefix::Required, t)
        };
        proof {
            assert(prefix == relation_of(t@));
            assert(rest0@ == after_prefix(t@));
        }
        let rest = trim(rest0);
        let m = rest.unicode_len();
        let mut cut: usize = 0;
        while cut < m && !is_constraint(rest.get_char(cut))
            invariant
                cut <= m,
                m == rest@.len(),
                constraint_split(rest@, 0) == constraint_split(rest@, cut as int),
            decreases m - cut,
        {
            cut += 1;
        }
        proof {
            assert(constraint_split(rest@, 0) == cut as int);
        }
        let name = trim(rest.substring_char(0, cut));
        let version = trim(rest.substring_char(cut, m));
        Dep {
            original: String::from_str(raw),
            prefix,
            name: String::from_str(name),
            version: String::from_str(version),
        }
    }
}

} // verus!
