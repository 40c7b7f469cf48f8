use vstd::prelude::*;

verus! {

/// Adds two `i32` values, clamping at the numeric bounds.
pub open spec fn sat_add(a: int, b: int) -> int {
    if a + b > i32::MAX {
        i32::MAX as int
    } else if a + b < i32::MIN {
        i32::MIN as int
    } else {
        a + b
    }
}

/// `a - b`, clamped to the bounds of `i32`.
pub open spec fn sat_sub(a: int, b: int) -> int {
    if a - b > i32::MAX {
        i32::MAX as int
    } else if a - b < i32::MIN {
        i32::MIN as int
    } else {
        a - b
    }
}

/// A count raised toward `target` the way the game raises counters: by
/// adding the saturated difference when `target` is larger.
pub open spec fn raised(cur: int, target: int) -> int {
    if target > cur {
        sat_add(cur, sat_sub(target, cur))
    } else {
        cur
    }
}

/// Raising never lowers a count, and from a count that is not negative it
/// reaches the target exactly.
pub proof fn lemma_raised(cur: i32, target: i32)
    ensures
        raised(cur as int, target as int) >= cur,
        i32::MIN <= raised(cur as int, target as int) <= i32::MAX,
        cur >= 0 ==> raised(cur as int, target as int) == max_int(cur as int, target as int),
{
}

/// `a - b`, saturating at the bounds of `i32`.
pub fn saturating_sub_i32(a: i32, b: i32) -> (r: i32)
    ensures
        r == sat_sub(a as int, b as int),
{
    let wide: i64 = a as i64 - b as i64;
    if wide > i32::MAX as i64 {
        i32::MAX
    } else if wide < i32::MIN as i64 {
        i32::MIN
    } else {
        wide as i32
    }
}

/// Raises `cur` toward `target`: adds the saturated difference when the
/// target is larger.
pub fn raise(cur: i32, target: i32) -> (r: i32)
    ensures
        r == raised(cur as int, target as int),
{
    if target > cur {
        saturating_add_i32(cur, saturating_sub_i32(target, cur))
    } else {
        cur
    }
}

/// The larger of two integers.
pub open spec fn max_int(a: int, b: int) -> int {
    if a >= b { a } else { b }
}

/// `a + b`, saturating at the bounds of `i32`.
pub fn saturating_add_i32(a: i32, b: i32) -> (r: i32)
    ensures
        r == sat_add(a as int, b as int),
{
    let wide: i64 = a as i64 + b as i64;
    if wide > i32::MAX as i64 {
        i32::MAX
    } else if wide < i32::MIN as i64 {
        i32::MIN
    } else {
        wide as i32
    }
}

/// Clicks credited to one cursor.
#[derive(Debug, Clone, Copy, PartialEq, Eq)]
pub struct ClickCounter(pub i32);

impl Default for ClickCounter {
    fn default() -> (r: ClickCounter)
        ensures
            r.0 == 0,
    {
        ClickCounter(0)
    }
}

impl core::ops::Deref for ClickCounter {
    type Target = i32;

    fn deref(&self) -> (r: &i32)
        ensures
            *r == self.0,
    {
        &self.0
    }
}

} // verus!

verus! {

/// Marker for the game plugin; the host engine installs the systems for it.
#[derive(Debug, Clone, Copy, PartialEq, Eq)]
pub struct GamePlugin;

/// Sum of all labeled players' clicks in the room.
#[derive(Debug, Clone, Copy, PartialEq, Eq)]
pub struct GlobalCounter(pub i32);

impl Default for GlobalCounter {
    fn default() -> (r: GlobalCounter)
        ensures
            r.0 == 0,
    {
        GlobalCounter(0)
    }
}

impl core::ops::Deref for GlobalCounter {
    type Target = i32;

    fn deref(&self) -> (r: &i32)
        ensures
            *r == self.0,
    {
        &self.0
    }
}

impl GlobalCounter {
    /// Adds `delta`, saturating at the bounds of `i32`.
    pub fn add(&mut self, delta: i32)
        ensures
            final(self).0 == sat_add(old(self).0 as int, delta as int),
    {
        self.0 = saturating_add_i32(self.0, delta);
    }
}

impl ClickCounter {
    /// Adds `delta`, saturating at the bounds of `i32`.
    pub fn add(&mut self, delta: i32)
        ensures
            final(self).0 == sat_add(old(self).0 as int, delta as int),
    {
        self.0 = saturating_add_i32(self.0, delta);
    }

    /// Raises the counter to `value` when that is larger; never lowers it.
    pub fn max(&mut self, value: i32)
        ensures
            final(self).0 == max_int(old(self).0 as int, value as int),
    {
        if value > self.0 {
            self.0 = value;
        }
    }
}

/// The room this instance plays in; empty while in the menu.
#[derive(Debug, Clone, PartialEq, Eq)]
pub struct ActiveLobby(pub String);

impl Default for ActiveLobby {
    fn default() -> (r: ActiveLobby)
        ensures
            r.0@ == Seq::<char>::empty(),
    {
        ActiveLobby(String::new())
    }
}

impl core::ops::Deref for ActiveLobby {
    type Target = String;

    fn deref(&self) -> (r: &String)
        ensures
            *r == self.0,
    {
        &self.0
    }
}

/// Whether the local player clicks automatically once per second.
#[derive(Debug, Clone, Copy, PartialEq, Eq)]
pub struct AutoClick(pub bool);

impl Default for AutoClick {
    fn default() -> (r: AutoClick)
        ensures
            r.0 == false,
    {
        AutoClick(false)
    }
}

impl core::ops::Deref for AutoClick {
    type Target = bool;

    fn deref(&self) -> (r: &bool)
        ensures
            *r == self.0,
    {
        &self.0
    }
}

/// A remote peer as the transport names it, with the network id that the
/// transport derives from that name.
#[derive(Debug, PartialEq, Eq)]
pub struct Peer {
    pub name: String,
    pub id: u64,
}

impl Clone for Peer {
    fn clone(&self) -> (r: Peer)
        ensures
            r == *self,
    {
        Peer { name: self.name.clone(), id: self.id }
    }
}

/// A cursor that waits for its join reveal: when it shows (`reveal_at`),
/// when an unresolved join gives up (`fail_at`), and the player number it
/// will show, if known. Times are milliseconds of a monotonic clock.
#[derive(Debug, Clone, Copy, PartialEq, Eq)]
pub struct PendingReveal {
    pub reveal_at: u64,
    pub fail_at: u64,
    pub player: Option<u64>,
}

/// What the game logic reads of one cursor: the network id that owns it,
/// its player number once labeled, its clicks, and its join reveal marker.
#[derive(Debug, Clone, Copy, PartialEq, Eq)]
pub struct Slot {
    pub owner: u64,
    pub player: Option<u64>,
    pub count: i32,
    pub reveal: Option<PendingReveal>,
}

/// Whether `player` labels some slot of `slots`.
pub open spec fn number_taken(slots: Seq<Slot>, player: u64) -> bool {
    exists|i: int| 0 <= i < slots.len() && slots[i].player == Some(player)
}

/// No two slots carry the same player number.
pub open spec fn numbers_unique(slots: Seq<Slot>) -> bool {
    forall|i: int, j: int|
        0 <= i < slots.len() && 0 <= j < slots.len() && i != j && slots[i].player is Some
            ==> slots[i].player != slots[j].player
}

} // verus!
