//! Locations and guarded travel.
//!
//! The map is a catalog of named locations, each with outgoing connections.
//! Guarded travel looks the current location up, follows a named connection
//! when one exists, and reports a recoverable error otherwise.

use vstd::prelude::*;
use crate::conditions::Condition;
use crate::player::Player;
use crate::time_system::TimeSystem;

verus! {

/// An outgoing connection to another location.
pub struct Connection {
    pub to: String,
    pub time: u32,
    pub optional_name: Option<String>,
    pub condition: Option<Condition>,
}

/// A named location with its outgoing connections.
pub struct MapNode {
    pub name: String,
    pub displayed_name: Option<String>,
    pub description: Option<String>,
    pub connections: Vec<Connection>,
}

/// Why a guarded travel was refused.
#[derive(Clone, Copy, Debug, PartialEq, Eq)]
pub enum TravelErr {
    UnknownLocation,
    NoConnection,
}

impl TravelErr {
    /// A user-visible description of the refusal.
    pub fn message(&self) -> (r: String)
        ensures
            (*self is UnknownLocation ==> r@ == "the current location is not on the map"@),
            (*self is NoConnection ==> r@ == "no connection leads to the destination"@),
    {
        match self {
            TravelErr::UnknownLocation => {
                let m: &str = "the current location is not on the map";
                m.to_owned()
            },
            TravelErr::NoConnection => {
                let m: &str = "no connection leads to the destination";
                m.to_owned()
            },
        }
    }
}

/// The first index at or after `i` of a location named `name`.
pub open spec fn map_idx(maps: Seq<MapNode>, name: Seq<char>, i: int) -> Option<int>
    decreases maps.len() - i,
{
    if i < 0 || i >= maps.len() {
        None
    } else if maps[i].name@ == name {
        Some(i)
    } else {
        map_idx(maps, name, i + 1)
    }
}

/// The first index at or after `i` of a connection leading to `to`.
pub open spec fn conn_idx(conns: Seq<Connection>, to: Seq<char>, i: int) -> Option<int>
    decreases conns.len() - i,
{
    if i < 0 || i >= conns.len() {
        None
    } else if conns[i].to@ == to {
        Some(i)
    } else {
        conn_idx(conns, to, i + 1)
    }
}

/// Whether a guarded travel from the location named `from` to the location
/// named `to` succeeds on this map.
pub open spec fn travel_ok(maps: Seq<MapNode>, from: Seq<char>, to: Seq<char>) -> Result<
    (),
    TravelErr,
> {
    match map_idx(maps, from, 0) {
        None => Result::Err(TravelErr::UnknownLocation),
        Some(j) => match conn_idx(maps[j].connections@, to, 0) {
            None => Result::Err(TravelErr::NoConnection),
            Some(_) => Result::Ok(()),
        },
    }
}

/// The location catalog.
pub struct MapSystem {
    pub maps: Vec<MapNode>,
}

impl MapSystem {
    /// A catalog holding the given locations. Location names must be unique;
    /// configuration with duplicate names is rejected before this point.
    pub fn new(maps: Vec<MapNode>) -> (r: MapSystem)
        requires
            forall|i: int, j: int| 0 <= i < j < maps@.len() ==> maps@[i].name@ != maps@[j].name@,
        ensures
            r.maps@ == maps@,
    {
        MapSystem { maps }
    }

    /// The index of the location named `k`, if any.
    pub fn lookup(&self, k: &str) -> (r: Option<usize>)
        ensures
            r is Some <==> map_idx(self.maps@, k@, 0) is Some,
            r matches Some(j) ==> map_idx(self.maps@, k@, 0) == Some(j as int) && j
                < self.maps@.len(),
    {
        let n = self.maps.len();
        for i in 0..n
            invariant
                n == self.maps.len(),
                map_idx(self.maps@, k@, 0) == map_idx(self.maps@, k@, i as int),
        {
            if crate::strutil::str_eq(self.maps[i].name.as_str(), k) {
                return Some(i);
            }
        }
        None
    }

    /// Travels from the current location to the location named `to`, when a
    /// connection leads there; the travel time passes on the way. A refusal
    /// leaves the world untouched.
    pub fn travel(&self, player: &mut Player, to: &str, time_system: &TimeSystem) -> (r: Result<
        (),
        TravelErr,
    >)
        ensures
            r == travel_ok(self.maps@, old(player).game_map@, to@),
            r is Ok ==> {
                &&& final(player).game_map@ == to@
                &&& final(player).attributes == old(player).attributes
                &&& final(player).attribute_defs == old(player).attribute_defs
                &&& final(player).items == old(player).items
                &&& final(player).game_time == old(player).game_time
                &&& final(player).cur_evt_seg == old(player).cur_evt_seg
                &&& final(player).trigger == old(player).trigger
                &&& final(player).stuck_in_event == old(player).stuck_in_event
            },
            r is Err ==> *final(player) == *old(player),
    {
        let here = self.lookup(player.game_map.as_str());
        match here {
            None => Err(TravelErr::UnknownLocation),
            Some(j) => {
                let conns = &self.maps[j].connections;
                let n = conns.len();
                let mut found: Option<usize> = None;
                for i in 0..n
                    invariant
                        n == conns.len(),
                        found is None ==> conn_idx(conns@, to@, 0) == conn_idx(
                            conns@,
                            to@,
                            i as int,
                        ),
                        found matches Some(f) ==> conn_idx(conns@, to@, 0) == Some(f as int) && f
                            < n,
                {
                    if found.is_none() && crate::strutil::str_eq(conns[i].to.as_str(), to) {
                        found = Some(i);
                    }
                }
                match found {
                    None => Err(TravelErr::NoConnection),
                    Some(f) => {
                        let steps = conns[f].time;
                        let mut k: u32 = 0;
                        while k < steps
                            invariant
                                *player == *old(player),
                            decreases steps - k,
                        {
                            time_system.update(player);
                            k = k + 1;
                        }
                        player.game_map = to.to_owned();
                        Ok(())
                    },
                }
            },
        }
    }

    /// The locations of the catalog.
    pub fn get_maps(&self) -> (r: &Vec<MapNode>)
        ensures
            r == &self.maps,
    {
        &self.maps
    }
}

} // verus!
