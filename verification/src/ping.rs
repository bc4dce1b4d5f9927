//! What a server tells about itself in answer to a status request.

use crate::packet_id::CURRENT_MC_PROTOCOL;
use vstd::prelude::*;

verus! {

/// The game version that a server names.
#[derive(Clone, Debug)]
pub struct Version {
    pub name: String,
    pub protocol: i32,
}

impl Default for Version {
    fn default() -> (v: Self)
        ensures
            v.name@ == "1.21.5"@,
            v.protocol == CURRENT_MC_PROTOCOL,
    {
        Version { name: "1.21.5".to_string(), protocol: CURRENT_MC_PROTOCOL }
    }
}

/// One of the players that a server lists: the name and the id.
#[derive(Clone, Debug)]
pub struct PlayerSampleEntry {
    pub name: String,
    pub id: u128,
}

/// How many players a server has and can take, and some of them.
#[derive(Clone, Debug)]
pub struct Players {
    pub online: i32,
    pub max: i32,
    pub sample: Vec<PlayerSampleEntry>,
}

impl Default for Players {
    fn default() -> (p: Self)
        ensures
            p.online == 0,
            p.max == 20,
            p.sample@.len() == 0,
    {
        Players { online: 0, max: 20, sample: Vec::new() }
    }
}

/// The answer to a status request: a description of the server, or no
/// answer at all.
#[derive(Clone, Debug)]
pub enum ServerListPing {
    Respond { version: Version, players: Players, desc: String, favicon: Option<String> },
    Ignore,
}

impl Default for ServerListPing {
    fn default() -> (s: Self)
        ensures
            s matches ServerListPing::Respond { version, players, desc, favicon },
            s->version.name@ == "1.21.5"@,
            s->version.protocol == CURRENT_MC_PROTOCOL,
            s->players.online == 0,
            s->players.max == 20,
            s->players.sample@.len() == 0,
            s->desc@ == "A Minecraft Server"@,
            s->favicon is None,
    {
        ServerListPing::Respond {
            version: Version::default(),
            players: Players::default(),
            desc: "A Minecraft Server".to_string(),
            favicon: None,
        }
    }
}

} // verus!
