//! Versions of the format and their order.
use std::cmp::Ordering;
use vstd::prelude::*;

verus! {

/// The version of the format that a document declares, such as 7.4.
#[derive(Debug, Eq, Ord, Clone, Copy)]
pub struct Version {
    major: u16,
    minor: u16,
}

/// The integer under which a version is stored in a file: `major * 1000 + minor * 100`.
pub open spec fn packed_version(major: u16, minor: u16) -> nat {
    (major * 1000 + minor * 100) as nat
}

/// Whether `(major_a, minor_a)` comes before `(major_b, minor_b)`, major number first.
pub open spec fn version_lt(major_a: u16, minor_a: u16, major_b: u16, minor_b: u16) -> bool {
    major_a < major_b || (major_a == major_b && minor_a < minor_b)
}

impl Version {
    pub closed spec fn major(&self) -> u16 {
        self.major
    }

    pub closed spec fn minor(&self) -> u16 {
        self.minor
    }

    /// Where `self` stands relative to `other`: by major number, then by minor number.
    pub open spec fn order(&self, other: &Version) -> Ordering {
        if version_lt(self.major(), self.minor(), other.major(), other.minor()) {
            Ordering::Less
        } else if version_lt(other.major(), other.minor(), self.major(), self.minor()) {
            Ordering::Greater
        } else {
            Ordering::Equal
        }
    }

    pub fn from(major: u16, minor: u16) -> (version: Version)
        ensures
            version.major() == major,
            version.minor() == minor,
    {
        Version { major, minor }
    }

    pub fn major_number(&self) -> (major: u16)
        ensures
            major == self.major(),
    {
        self.major
    }

    pub fn minor_number(&self) -> (minor: u16)
        ensures
            minor == self.minor(),
    {
        self.minor
    }

    /// The packed form of the version, as the four little-endian bytes that a file stores.
    pub fn to_u8_le(self) -> (bytes: [u8; 4])
        ensures
            bytes@.len() == 4,
            bytes@[0] + 256 * bytes@[1] + 65536 * bytes@[2] + 16777216 * bytes@[3]
                == packed_version(self.major(), self.minor()),
            bytes@[0] == packed_version(self.major(), self.minor()) % 0x100,
            bytes@[1] == (packed_version(self.major(), self.minor()) / 0x100) % 0x100,
    {
        let packed: u32 = (self.major as u32) * 1000 + (self.minor as u32) * 100;
        let b0: u8 = (packed % 256) as u8;
        let b1: u8 = ((packed / 256) % 256) as u8;
        let b2: u8 = ((packed / 65536) % 256) as u8;
        let b3: u8 = (packed / 16777216) as u8;
        [b0, b1, b2, b3]
    }

    /// Whether node headers of this version hold 64-bit fields: from 7.5 on.
    pub fn is_new_format(&self) -> (wide: bool)
        ensures
            wide == !version_lt(self.major(), self.minor(), 7, 5),
    {
        self.major > 7 || (self.major == 7 && self.minor >= 5)
    }
}

impl PartialEq for Version {
    fn eq(&self, other: &Version) -> (equal: bool) {
        self.major == other.major && self.minor == other.minor
    }
}

impl vstd::std_specs::cmp::PartialEqSpecImpl for Version {
    open spec fn obeys_eq_spec() -> bool {
        true
    }

    open spec fn eq_spec(&self, other: &Version) -> bool {
        self.major() == other.major() && self.minor() == other.minor()
    }
}

impl PartialOrd for Version {
    fn partial_cmp(&self, other: &Version) -> (order: Option<Ordering>) {
        if self.major > other.major {
            return Some(Ordering::Greater);
        }
        if self.major < other.major {
            return Some(Ordering::Less);
        }
        if self.minor > other.minor {
            return Some(Ordering::Greater);
        }
        if self.minor < other.minor {
            return Some(Ordering::Less);
        }
        Some(Ordering::Equal)
    }
}

impl vstd::std_specs::cmp::PartialOrdSpecImpl for Version {
    open spec fn obeys_partial_cmp_spec() -> bool {
        true
    }

    open spec fn partial_cmp_spec(&self, other: &Version) -> Option<Ordering> {
        Some(self.order(other))
    }
}

/// Two versions are in exactly one of three relations: the first comes before the second,
/// they are the same version, or the second comes before the first.
pub proof fn lemma_order_is_total(a: Version, b: Version)
    ensures
        a.order(&b) == Ordering::Equal <==> a == b,
        a.order(&b) == Ordering::Less <==> b.order(&a) == Ordering::Greater,
        a.order(&b) == Ordering::Less || a == b || b.order(&a) == Ordering::Less,
{
}

/// What comes before something that comes before a third comes before the third.
pub proof fn lemma_order_is_transitive(a: Version, b: Version, c: Version)
    requires
        a.order(&b) == Ordering::Less,
        b.order(&c) == Ordering::Less,
    ensures
        a.order(&c) == Ordering::Less,
{
}

/// The versions with 64-bit node headers are those that do not come before 7.5.
pub proof fn lemma_new_format_from_7_5(version: Version, boundary: Version)
    requires
        boundary.major() == 7,
        boundary.minor() == 5,
    ensures
        !version_lt(version.major(), version.minor(), 7, 5) <==> version.order(&boundary)
            != Ordering::Less,
{
}

} // verus!
