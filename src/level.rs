use vstd::prelude::*;

verus! {

/// A skill rank, ordered `BEGGINER < AMATEUR < PROFESSIONAL`.
#[allow(non_camel_case_types, clippy::upper_case_acronyms)]
#[derive(Clone, Copy, Debug, PartialEq, Eq, Structural)]
pub enum LevelName {
    BEGGINER,
    AMATEUR,
    PROFESSIONAL,
}

/// The position of a level in the total order on levels.
pub open spec fn rank(l: LevelName) -> nat {
    match l {
        LevelName::BEGGINER => 0,
        LevelName::AMATEUR => 1,
        LevelName::PROFESSIONAL => 2,
    }
}

impl LevelName {
    /// The rank of this level: 0, 1 or 2.
    pub fn value(&self) -> (r: u8)
        ensures
            r as nat == rank(*self),
    {
        match self {
            LevelName::BEGGINER => 0,
            LevelName::AMATEUR => 1,
            LevelName::PROFESSIONAL => 2,
        }
    }

    /// Whether this level is strictly below `other`.
    pub fn is_below(&self, other: &LevelName) -> (r: bool)
        ensures
            r == (rank(*self) < rank(*other)),
    {
        self.value() < other.value()
    }

    /// The stable upper-case name of the level.
    pub fn as_str(&self) -> (r: &'static str)
        ensures
            *self == LevelName::BEGGINER ==> r@ == "BEGGINER"@,
            *self == LevelName::AMATEUR ==> r@ == "AMATEUR"@,
            *self == LevelName::PROFESSIONAL ==> r@ == "PROFESSIONAL"@,
    {
        match self {
            LevelName::BEGGINER => "BEGGINER",
            LevelName::AMATEUR => "AMATEUR",
            LevelName::PROFESSIONAL => "PROFESSIONAL",
        }
    }
}

/// A level, as handed to an update of a user's level in a category.
#[derive(Clone, Copy, Debug, PartialEq, Eq, Structural)]
pub struct Level {
    pub level_name: LevelName,
}

} // verus!
