use vstd::prelude::*;

use crate::model::ActiveLobby;
use crate::topics::{click_topic, gossip_roster_topic, click_topic_of, roster_topic_of};
use crate::wire::{commands_v, Command, CommandV};

verus! {

/// Subscribes to the lobby's roster topic, then to its click topic.
pub fn subscribe_roster(lobby: &ActiveLobby) -> (r: Vec<Command>)
    ensures
        commands_v(r@) == seq![
            CommandV::Subscribe { topic: roster_topic_of(lobby.0@) },
            CommandV::Subscribe { topic: click_topic_of(lobby.0@) },
        ],
{
    let mut r: Vec<Command> = Vec::new();
    r.push(Command::Subscribe { topic: gossip_roster_topic(lobby) });
    r.push(Command::Subscribe { topic: click_topic(lobby) });
    proof {
        assert(commands_v(r@) =~= seq![r@[0]@, r@[1]@]);
    }
    r
}

} // verus!
