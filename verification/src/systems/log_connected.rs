use vstd::prelude::*;
use vstd::string::StringExecFns;

use crate::model::ActiveLobby;
use crate::text::{decimal_of, u64_to_string};

verus! {

/// The lowercase hexadecimal digit for `d` (0 to 15).
pub open spec fn hex_digit(d: u8) -> char {
    if d < 10 {
        ('0' as u8 + d) as char
    } else {
        ('a' as u8 + (d - 10)) as char
    }
}

/// The lowercase hexadecimal notation of `bytes`, two digits per byte.
pub open spec fn hex_of(bytes: Seq<u8>) -> Seq<char>
    decreases bytes.len(),
{
    if bytes.len() == 0 {
        Seq::empty()
    } else {
        hex_of(bytes.drop_last()) + seq![hex_digit(bytes.last() / 16), hex_digit(bytes.last() % 16)]
    }
}

/// The one-character text of the hexadecimal digit `d`.
fn hex_char(d: u8) -> (s: &'static str)
    requires
        d < 16,
    ensures
        s@ == seq![hex_digit(d)],
{
    let s = match d {
        0 => "0",
        1 => "1",
        2 => "2",
        3 => "3",
        4 => "4",
        5 => "5",
        6 => "6",
        7 => "7",
        8 => "8",
        9 => "9",
        10 => "a",
        11 => "b",
        12 => "c",
        13 => "d",
        14 => "e",
        _ => "f",
    };
    proof {
        reveal_strlit("0");
        reveal_strlit("1");
        reveal_strlit("2");
        reveal_strlit("3");
        reveal_strlit("4");
        reveal_strlit("5");
        reveal_strlit("6");
        reveal_strlit("7");
        reveal_strlit("8");
        reveal_strlit("9");
        reveal_strlit("a");
        reveal_strlit("b");
        reveal_strlit("c");
        reveal_strlit("d");
        reveal_strlit("e");
        reveal_strlit("f");
    }
    s
}

/// The lowercase hexadecimal notation of a 32-byte hash, as the connect
/// log line shows it.
pub fn hex_hash(hash: &[u8; 32]) -> (s: String)
    ensures
        s@ == hex_of(hash@),
{
    let mut s = String::new();
    let mut i: usize = 0;
    proof {
        assert(hex_of(hash@.take(0)) =~= Seq::<char>::empty());
    }
    while i < 32
        invariant
            i <= 32,
            hash@.len() == 32,
            s@ == hex_of(hash@.take(i as int)),
        decreases 32 - i,
    {
        let b = hash[i];
        proof {
            assert(hash@.take(i + 1).drop_last() =~= hash@.take(i as int));
            assert(hash@.take(i + 1).last() == b);
        }
        s.append(hex_char(b / 16));
        s.append(hex_char(b % 16));
        i = i + 1;
    }
    proof {
        assert(hash@.take(32) =~= hash@);
    }
    s
}

/// The line logged once connected: the instance's namespace and tag, our
/// network id, the lobby and the contract's code hash in hexadecimal.
pub open spec fn connected_line(namespace: Seq<char>, tag: u64, own: u64, lobby: Seq<char>, hash: Seq<u8>) -> Seq<char> {
    "namespace="@ + namespace + " instance_tag="@ + decimal_of(tag as nat) + " own_id="@ + decimal_of(own as nat) + " lobby="@ + lobby
        + " contract="@ + hex_of(hash) + " connected, running indefinitely"@
}

/// The line to log once connected (see [`connected_line`]).
pub fn log_connected(namespace: &String, instance_tag: u64, own: u64, lobby: &ActiveLobby, hash: &[u8; 32]) -> (line: String)
    ensures
        line@ == connected_line(namespace@, instance_tag, own, lobby.0@, hash@),
{
    let mut line = String::from_str("namespace=");
    line.append(namespace.as_str());
    line.append(" instance_tag=");
    let tag = u64_to_string(instance_tag);
    line.append(tag.as_str());
    line.append(" own_id=");
    let id = u64_to_string(own);
    line.append(id.as_str());
    line.append(" lobby=");
    line.append(lobby.0.as_str());
    line.append(" contract=");
    let hex = hex_hash(hash);
    line.append(hex.as_str());
    line.append(" connected, running indefinitely");
    line
}

} // verus!
