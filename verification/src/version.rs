use vstd::prelude::*;

verus! {

/// A two-part schema version: `major` breaks backward compatibility,
/// `minor` covers backward- and forward-compatible changes.
#[derive(Clone, Copy, PartialEq, Eq, Structural, Hash, PartialOrd, Ord, Debug)]
pub struct SimpleVersion {
    pub major: u16,
    pub minor: u16,
}

/// A version as read back from its wire (archived) form.
#[derive(Clone, Copy, PartialEq, Eq, Structural, Hash, Debug)]
pub struct ArchivedSimpleVersion {
    pub major: u16,
    pub minor: u16,
}

/// Lexicographic order on (major, minor).
pub open spec fn spec_version_le(a: SimpleVersion, b: SimpleVersion) -> bool {
    a.major < b.major || (a.major == b.major && a.minor <= b.minor)
}

pub open spec fn spec_version_lt(a: SimpleVersion, b: SimpleVersion) -> bool {
    spec_version_le(a, b) && a != b
}

impl SimpleVersion {
    pub fn new(major: u16, minor: u16) -> (r: SimpleVersion)
        ensures
            r == (SimpleVersion { major, minor }),
    {
        SimpleVersion { major, minor }
    }

    pub fn as_archived(&self) -> (r: ArchivedSimpleVersion)
        ensures
            r.major == self.major,
            r.minor == self.minor,
    {
        ArchivedSimpleVersion { major: self.major, minor: self.minor }
    }

    /// The Rust release the store was written against.
    pub fn rust_version() -> (r: SimpleVersion)
        ensures
            r == (SimpleVersion { major: 1, minor: 74 }),
    {
        SimpleVersion { major: 1, minor: 74 }
    }

    /// The serialization-runtime release whose archived layout records use.
    pub fn rkyv_version() -> (r: SimpleVersion)
        ensures
            r == (SimpleVersion { major: 0, minor: 7 }),
    {
        SimpleVersion { major: 0, minor: 7 }
    }

    /// Order on versions: `true` when `self` is at or below `other`.
    pub fn le(&self, other: &SimpleVersion) -> (r: bool)
        ensures
            r == spec_version_le(*self, *other),
    {
        self.major < other.major || (self.major == other.major && self.minor <= other.minor)
    }

    pub fn lt(&self, other: &SimpleVersion) -> (r: bool)
        ensures
            r == spec_version_lt(*self, *other),
    {
        self.major < other.major || (self.major == other.major && self.minor < other.minor)
    }
}

impl ArchivedSimpleVersion {
    pub fn as_original(&self) -> (r: SimpleVersion)
        ensures
            r.major == self.major,
            r.minor == self.minor,
    {
        SimpleVersion { major: self.major, minor: self.minor }
    }
}

} // verus!
