//! The decisions of the host and guest flows. The flows themselves wait,
//! start processes and open sockets; what they decide stands here.
use vstd::prelude::*;
use crate::profile::{Profile, ProfileKind, ProfileSnapshot, ProfileView};
use crate::text::owned;

pub mod guest;
pub mod host;

verus! {

/// The machine id a player gets when none can be read or made.
pub open spec fn fallback_machine_id() -> Seq<char> {
    "00000000000000000000000000000000"@
}

/// The name a player without one is shown under.
pub open spec fn anonymous_name(kind: ProfileKind) -> Seq<char> {
    match kind {
        ProfileKind::Host => "Terracotta Anonymous Host"@,
        _ => "Terracotta Anonymous Guest"@,
    }
}

/// The profile a flow shows for its own player.
pub open spec fn own_profile(
    machine_id: Option<Seq<char>>,
    player_name: Option<Seq<char>>,
    kind: ProfileKind,
) -> ProfileView {
    ProfileView {
        machine_id: match machine_id {
            Some(m) => m,
            None => fallback_machine_id(),
        },
        name: match player_name {
            Some(n) => n,
            None => anonymous_name(kind),
        },
        vendor: crate::VENDOR@,
        kind,
    }
}

pub open spec fn option_text(v: Option<String>) -> Option<Seq<char>> {
    match v {
        Some(s) => Some(s@),
        None => None,
    }
}

/// The profile of the flow's own player: the host's, or the local player
/// of a guest.
pub fn flow_profile(machine_id: Option<String>, player_name: Option<String>, host: bool) -> (r:
    Profile)
    ensures
        r@ == own_profile(
            option_text(machine_id),
            option_text(player_name),
            if host {
                ProfileKind::Host
            } else {
                ProfileKind::Local
            },
        ),
{
    let kind = if host {
        ProfileKind::Host
    } else {
        ProfileKind::Local
    };
    let machine_id = match machine_id {
        Some(m) => m,
        None => owned("00000000000000000000000000000000"),
    };
    let name = match player_name {
        Some(n) => n,
        None => if host {
            owned("Terracotta Anonymous Host")
        } else {
            owned("Terracotta Anonymous Guest")
        },
    };
    ProfileSnapshot { machine_id, name, vendor: owned(crate::VENDOR), kind }.into_profile()
}

} // verus!
