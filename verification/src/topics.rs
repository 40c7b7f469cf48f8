use vstd::prelude::*;
use vstd::string::StringExecFns;

use crate::model::ActiveLobby;

verus! {

/// The gossip topic of cursor moves and join commits in `lobby`.
pub open spec fn pos_topic_of(lobby: Seq<char>) -> Seq<char> {
    "clicker/"@ + lobby + "/pos"@
}

/// The gossip topic of clicks in `lobby`.
pub open spec fn click_topic_of(lobby: Seq<char>) -> Seq<char> {
    "clicker/"@ + lobby + "/click"@
}

/// The gossip topic of roster state in `lobby`.
pub open spec fn roster_topic_of(lobby: Seq<char>) -> Seq<char> {
    "clicker/"@ + lobby + "/roster"@
}

/// The gossip topic of cursor moves and join commits in the lobby.
pub fn pos_topic(lobby: &ActiveLobby) -> (t: String)
    ensures
        t@ == pos_topic_of(lobby.0@),
{
    let mut t = String::from_str("clicker/");
    t.append(lobby.0.as_str());
    t.append("/pos");
    t
}

/// The gossip topic of clicks in the lobby.
pub fn click_topic(lobby: &ActiveLobby) -> (t: String)
    ensures
        t@ == click_topic_of(lobby.0@),
{
    let mut t = String::from_str("clicker/");
    t.append(lobby.0.as_str());
    t.append("/click");
    t
}

/// The gossip topic of roster state in the lobby.
pub fn gossip_roster_topic(lobby: &ActiveLobby) -> (t: String)
    ensures
        t@ == roster_topic_of(lobby.0@),
{
    let mut t = String::from_str("clicker/");
    t.append(lobby.0.as_str());
    t.append("/roster");
    t
}

} // verus!
