use vstd::prelude::*;

use vstd::string::StrSliceExecFns;

use crate::idset::{contains_name, names, remove_name};
use crate::model::ActiveLobby;
use crate::systems::send_sync_req::live_step;
use crate::wire::{
    commands_v, events_v, lemma_commands_push, lemma_run_step, lemma_take_all, lemma_views_push,
    lemma_views_skip, run, Command, CommandV, CursorMsg, Event, EventV, MsgV,
};

verus! {

/// The join request for a lobby; none while in the menu (empty name).
pub open spec fn join_request(lobby: Seq<char>) -> Option<MsgV> {
    if lobby.len() == 0 {
        None
    } else {
        Some(MsgV::WantJoin { room: lobby })
    }
}

/// Asks every newly connected peer to let us into the lobby: while a lobby
/// is active, a peer that connects while not live is sent one join request
/// (see [`live_step`]). Returns the events, all passed on, and the
/// requests.
pub fn send_want_join(events: Vec<Event>, live: &mut Vec<String>, lobby: &ActiveLobby) -> (out: (Vec<Event>, Vec<Command>))
    ensures
        ({
            let r = run(events_v(events@), names(old(live)@), live_step(join_request(lobby.0@)));
            &&& names(final(live)@) == r.0
            &&& events_v(out.0@) == r.1
            &&& commands_v(out.1@) == r.2
        }),
{
    let ghost src = events@;
    let ghost init = names(live@);
    let ghost step = live_step(join_request(lobby.0@));
    let in_lobby = lobby.0.as_str().unicode_len() > 0;
    proof {
        assert(in_lobby == (lobby.0@.len() > 0));
    }
    let mut events = events;
    let mut rest: Vec<Event> = Vec::new();
    let mut commands: Vec<Command> = Vec::new();
    let ghost mut i: int = 0;
    proof {
        assert(events_v(rest@) =~= Seq::<EventV>::empty());
        assert(commands_v(commands@) =~= Seq::<CommandV>::empty());
    }
    while events.len() > 0
        invariant
            0 <= i <= src.len(),
            events@ == src.skip(i),
            step == live_step(join_request(lobby.0@)),
            in_lobby == (lobby.0@.len() > 0),
            init == names(old(live)@),
            run(events_v(src).take(i), init, step) == (names(live@), events_v(rest@), commands_v(commands@)),
        decreases events.len(),
    {
        let e = events.remove(0);
        proof {
            assert(e == src[i]);
            lemma_views_skip(src, i);
            lemma_run_step(events_v(src), i, init, step);
            assert(src.skip(i + 1) =~= src.skip(i).drop_first());
        }
        let ghost before = names(live@);
        let ghost cmds = commands_v(commands@);
        match e {
            Event::PeerConnected(peer) => {
                if in_lobby && !contains_name(live, &peer.name) {
                    live.push(peer.name.clone());
                    let c = Command::Send {
                        peer_id: peer.name.clone(),
                        payload: CursorMsg::WantJoin { room: lobby.0.clone() },
                    };
                    proof {
                        assert(names(live@) =~= before.push(peer.name@));
                        lemma_commands_push(commands@, c);
                    }
                    commands.push(c);
                } else {
                    proof {
                        assert(commands_v(commands@) =~= cmds + Seq::<CommandV>::empty());
                    }
                }
                let back = Event::PeerConnected(peer);
                proof {
                    lemma_views_push(rest@, back);
                }
                rest.push(back);
            },
            Event::PeerDisconnected(peer) => {
                remove_name(live, &peer.name);
                let back = Event::PeerDisconnected(peer);
                proof {
                    lemma_views_push(rest@, back);
                    assert(commands_v(commands@) =~= cmds + Seq::<CommandV>::empty());
                }
                rest.push(back);
            },
            other => {
                proof {
                    lemma_views_push(rest@, other);
                    assert(commands_v(commands@) =~= cmds + Seq::<CommandV>::empty());
                }
                rest.push(other);
            },
        }
        proof {
            i = i + 1;
        }
    }
    proof {
        lemma_take_all(events_v(src));
    }
    (rest, commands)
}

} // verus!
