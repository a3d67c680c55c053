//! The forks of the protocol, and how a response names them.

use vstd::prelude::*;
use vstd::string::StrSliceExecFns;
use crate::error::Error;

verus! {

/// A fork of the protocol: it decides which fields a state has.
#[derive(Debug, Clone, Copy, PartialEq, Eq, Structural)]
pub enum ForkName {
    Base,
    Altair,
    Bellatrix,
    Capella,
    Deneb,
}

/// The upper-case form of a lower-case ASCII letter; any other character
/// unchanged.
pub open spec fn ascii_upper(c: char) -> char {
    if 'a' <= c && c <= 'z' {
        ((c as int) - 32) as char
    } else {
        c
    }
}

/// A name with its first character in upper case.
pub open spec fn capitalized(s: Seq<char>) -> Seq<char> {
    if s.len() == 0 {
        s
    } else {
        s.update(0, ascii_upper(s[0]))
    }
}

/// The fork that a name stands for, its first character in either case.
pub open spec fn fork_named(s: Seq<char>) -> Option<ForkName> {
    let name = capitalized(s);
    if name == "Phase0"@ || name == "Base"@ {
        Some(ForkName::Base)
    } else if name == "Altair"@ {
        Some(ForkName::Altair)
    } else if name == "Bellatrix"@ || name == "Merge"@ {
        Some(ForkName::Bellatrix)
    } else if name == "Capella"@ {
        Some(ForkName::Capella)
    } else if name == "Deneb"@ {
        Some(ForkName::Deneb)
    } else {
        None
    }
}

/// The upper-case form of a lower-case ASCII letter.
fn to_ascii_upper(c: char) -> (u: char)
    ensures
        u == ascii_upper(c),
{
    if 'a' <= c && c <= 'z' {
        ((c as u8) - 32) as char
    } else {
        c
    }
}

/// Whether `value`, its first character put in upper case, is `name`.
fn is_name(value: &str, name: &str) -> (same: bool)
    ensures
        same == (capitalized(value@) == name@),
{
    let n = value.unicode_len();
    if n != name.unicode_len() {
        return false;
    }
    let mut i: usize = 0;
    while i < n
        invariant
            i <= n,
            n == value@.len(),
            n == name@.len(),
            forall|j: int| 0 <= j < i ==> capitalized(value@)[j] == name@[j],
        decreases n - i,
    {
        let c = value.get_char(i);
        let c = if i == 0 {
            to_ascii_upper(c)
        } else {
            c
        };
        if c != name.get_char(i) {
            assert(capitalized(value@)[i as int] != name@[i as int]);
            return false;
        }
        i += 1;
    }
    assert(capitalized(value@) =~= name@);
    true
}

impl ForkName {
    /// The fork that the value of a version header names.
    pub fn from_header(value: &str) -> (fork: Result<ForkName, Error>)
        ensures
            fork == match fork_named(value@) {
                Some(f) => Ok::<ForkName, Error>(f),
                None => Err(Error::InvalidConsensusVersion),
            },
    {
        if is_name(value, "Phase0") || is_name(value, "Base") {
            Ok(ForkName::Base)
        } else if is_name(value, "Altair") {
            Ok(ForkName::Altair)
        } else if is_name(value, "Bellatrix") || is_name(value, "Merge") {
            Ok(ForkName::Bellatrix)
        } else if is_name(value, "Capella") {
            Ok(ForkName::Capella)
        } else if is_name(value, "Deneb") {
            Ok(ForkName::Deneb)
        } else {
            Err(Error::InvalidConsensusVersion)
        }
    }

    /// The fork that a response names in its version header, if it has one.
    pub fn resolve(header: Option<&str>) -> (fork: Result<ForkName, Error>)
        ensures
            fork == match header {
                None => Err::<ForkName, Error>(Error::MissingConsensusVersion),
                Some(value) => match fork_named(value@) {
                    Some(f) => Ok::<ForkName, Error>(f),
                    None => Err(Error::InvalidConsensusVersion),
                },
            },
    {
        match header {
            None => Err(Error::MissingConsensusVersion),
            Some(value) => Self::from_header(value),
        }
    }
}

} // verus!
