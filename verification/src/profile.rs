//! Player profiles shown in a room.
use vstd::prelude::*;

verus! {

#[derive(Debug, Clone, Copy, PartialEq, Eq, Structural)]
pub enum ProfileKind {
    Host,
    Local,
    Guest,
}

impl ProfileKind {
    /// The number of the kind: 0 host, 1 local, 2 guest.
    pub fn id(self) -> (r: u8)
        ensures
            r == profile_kind_id(self),
    {
        match self {
            ProfileKind::Host => 0,
            ProfileKind::Local => 1,
            ProfileKind::Guest => 2,
        }
    }
}

pub open spec fn profile_kind_id(k: ProfileKind) -> u8 {
    match k {
        ProfileKind::Host => 0,
        ProfileKind::Local => 1,
        ProfileKind::Guest => 2,
    }
}

/// What a profile holds, as plain values.
pub struct ProfileView {
    pub machine_id: Seq<char>,
    pub name: Seq<char>,
    pub vendor: Seq<char>,
    pub kind: ProfileKind,
}

#[derive(Debug, Clone, PartialEq, Eq)]
pub struct Profile {
    machine_id: String,
    name: String,
    vendor: String,
    kind: ProfileKind,
}

impl View for Profile {
    type V = ProfileView;

    closed spec fn view(&self) -> ProfileView {
        ProfileView {
            machine_id: self.machine_id@,
            name: self.name@,
            vendor: self.vendor@,
            kind: self.kind,
        }
    }
}

#[derive(Debug, Clone)]
pub struct ProfileSnapshot {
    pub machine_id: String,
    pub name: String,
    pub vendor: String,
    pub kind: ProfileKind,
}

impl ProfileSnapshot {
    pub fn into_profile(self) -> (p: Profile)
        ensures
            p@ == (ProfileView {
                machine_id: self.machine_id@,
                name: self.name@,
                vendor: self.vendor@,
                kind: self.kind,
            }),
    {
        Profile { machine_id: self.machine_id, name: self.name, vendor: self.vendor, kind: self.kind }
    }
}

impl Profile {
    pub fn get_machine_id(&self) -> (r: &str)
        ensures
            r@ == self@.machine_id,
    {
        self.machine_id.as_str()
    }

    pub fn get_name(&self) -> (r: &str)
        ensures
            r@ == self@.name,
    {
        self.name.as_str()
    }

    pub fn get_vendor(&self) -> (r: &str)
        ensures
            r@ == self@.vendor,
    {
        self.vendor.as_str()
    }

    pub fn get_kind(&self) -> (r: ProfileKind)
        ensures
            r == self@.kind,
    {
        self.kind
    }

    pub fn set_name(&mut self, name: String)
        ensures
            final(self)@ == (ProfileView { name: name@, ..old(self)@ }),
    {
        self.name = name;
    }

    /// A copy holding the same values.
    pub fn duplicate(&self) -> (r: Profile)
        ensures
            r@ == self@,
    {
        Profile {
            machine_id: self.machine_id.clone(),
            name: self.name.clone(),
            vendor: self.vendor.clone(),
            kind: self.kind,
        }
    }
}

} // verus!
