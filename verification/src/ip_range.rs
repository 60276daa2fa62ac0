//! The classes of addresses that outbound requests may reach.

use vstd::prelude::*;
use crate::text::str_eq;

verus! {

/// How far outbound requests may go.
#[derive(Debug, Clone, Copy, PartialEq, Eq, Structural)]
pub enum PermittedIpRange {
    /// No address at all.
    Nothing,
    /// Public addresses only.
    Global,
    /// Public and private networks.
    Private,
    /// Everything that is no link-local or broadcast address.
    Local,
}

/// A word that names no range.
#[derive(Debug)]
pub enum IpRangeParseError {
    Unrecognized(String),
}

impl PermittedIpRange {
    /// The word that names this range on the command line.
    pub open spec fn name(self) -> Seq<char> {
        match self {
            PermittedIpRange::Nothing => "none"@,
            PermittedIpRange::Global => "global"@,
            PermittedIpRange::Private => "private"@,
            PermittedIpRange::Local => "local"@,
        }
    }

    /// The range that a word names.
    pub open spec fn named(word: Seq<char>) -> Option<PermittedIpRange> {
        if word == "none"@ {
            Some(PermittedIpRange::Nothing)
        } else if word == "local"@ {
            Some(PermittedIpRange::Local)
        } else if word == "private"@ {
            Some(PermittedIpRange::Private)
        } else if word == "global"@ {
            Some(PermittedIpRange::Global)
        } else {
            None
        }
    }

    /// The word that names this range.
    pub fn as_str(&self) -> (word: &'static str)
        ensures
            word@ == self.name(),
    {
        match self {
            PermittedIpRange::Nothing => "none",
            PermittedIpRange::Global => "global",
            PermittedIpRange::Private => "private",
            PermittedIpRange::Local => "local",
        }
    }

    /// Reads a range from its name: `none`, `local`, `private` or `global`.
    pub fn from_str(value: &str) -> (res: Result<PermittedIpRange, IpRangeParseError>)
        ensures
            match Self::named(value@) {
                Some(range) => res matches Ok(r) && r == range,
                None => res matches Err(IpRangeParseError::Unrecognized(word)) && word@ == value@,
            },
    {
        if str_eq(value, "none") {
            Ok(PermittedIpRange::Nothing)
        } else if str_eq(value, "local") {
            Ok(PermittedIpRange::Local)
        } else if str_eq(value, "private") {
            Ok(PermittedIpRange::Private)
        } else if str_eq(value, "global") {
            Ok(PermittedIpRange::Global)
        } else {
            Err(IpRangeParseError::Unrecognized(value.to_owned()))
        }
    }
}

/// The four words name four ranges, and each range is read back from its name.
pub proof fn name_round_trip(range: PermittedIpRange)
    ensures
        PermittedIpRange::named(range.name()) == Some(range),
{
    reveal_strlit("none");
    reveal_strlit("local");
    reveal_strlit("private");
    reveal_strlit("global");
    assert("none"@.len() == 4 && "local"@.len() == 5 && "private"@.len() == 7 && "global"@.len() == 6);
    assert("local"@[0] == 'l' && "global"@[0] == 'g');
}

} // verus!
