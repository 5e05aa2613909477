//! Profiles: named scopes of configuration.

use vstd::prelude::*;
use crate::key::folded;
use crate::key::keys_match;

verus! {

/// The folded name of the profile whose values apply where the selected
/// profile has none.
pub open spec fn default_profile() -> Seq<char> {
    "default"@
}

/// The folded name of the profile whose values apply under every selected
/// profile.
pub open spec fn global_profile() -> Seq<char> {
    "global"@
}

/// The two reserved names are written in lower case and differ.
pub proof fn lemma_reserved_profiles()
    ensures
        folded("default"@) == default_profile(),
        folded("global"@) == global_profile(),
        default_profile() != global_profile(),
{
    reveal_strlit("default");
    reveal_strlit("global");
    assert(folded("default"@) =~= "default"@);
    assert(folded("global"@) =~= "global"@);
    assert("default"@[0] != "global"@[0]);
}

/// A profile: a name, read without regard to ASCII case.
#[derive(Debug)]
pub struct Profile {
    name: String,
}

impl View for Profile {
    type V = Seq<char>;

    /// The folded name.
    open spec fn view(&self) -> Seq<char> {
        folded(self.spelling())
    }
}

impl Profile {
    /// The profile of the given name.
    pub fn new(name: &str) -> (profile: Profile)
        ensures
            profile@ == folded(name@),
            profile.spelling() == name@,
    {
        Profile { name: String::from_str(name) }
    }

    /// The name as it was given.
    pub closed spec fn spelling(&self) -> Seq<char> {
        self.name@
    }

    /// The profile `default`.
    pub fn default_profile() -> (profile: Profile)
        ensures
            profile@ == default_profile(),
    {
        proof {
            lemma_reserved_profiles();
        }
        Profile { name: String::from_str("default") }
    }

    /// The profile `global`.
    pub fn global_profile() -> (profile: Profile)
        ensures
            profile@ == global_profile(),
    {
        proof {
            lemma_reserved_profiles();
        }
        Profile { name: String::from_str("global") }
    }

    /// The name as it was given.
    pub fn as_str(&self) -> (name: &str)
        ensures
            name@ == self.spelling(),
            folded(name@) == self@,
    {
        self.name.as_str()
    }

    /// Whether this is the profile `default`.
    pub fn is_default(&self) -> (yes: bool)
        ensures
            yes == (self@ == default_profile()),
    {
        proof {
            lemma_reserved_profiles();
        }
        keys_match(self.name.as_str(), "default")
    }

    /// Whether this is the profile `global`.
    pub fn is_global(&self) -> (yes: bool)
        ensures
            yes == (self@ == global_profile()),
    {
        proof {
            lemma_reserved_profiles();
        }
        keys_match(self.name.as_str(), "global")
    }

    /// Whether this is neither `default` nor `global`.
    pub fn is_custom(&self) -> (yes: bool)
        ensures
            yes == (self@ != default_profile() && self@ != global_profile()),
    {
        !self.is_default() && !self.is_global()
    }

    /// Whether two profiles are the same, whatever the case of their names.
    pub fn same(&self, other: &Profile) -> (yes: bool)
        ensures
            yes == (self@ == other@),
    {
        keys_match(self.name.as_str(), other.name.as_str())
    }

    /// A copy of this profile.
    pub fn duplicate(&self) -> (copy: Profile)
        ensures
            copy@ == self@,
            copy.spelling() == self.spelling(),
    {
        Profile { name: self.name.clone() }
    }
}

} // verus!
