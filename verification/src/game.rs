//! The session-level pieces: the immutable catalog loaded once per session,
//! the sources it can be loaded from, and the engine's error type.

use vstd::prelude::*;
use crate::player::Attribute;
use crate::events::EventData;
use crate::map_system::MapNode;
use crate::map_system::TravelErr;
use crate::triggers::Trigger;
use crate::conditions::EvalErr;
use crate::conditions::EvalErrV;
use crate::frontend::DebugFromFrontend;

verus! {

/// The whole immutable catalog of a session: locations, events, attribute
/// definitions, and the trigger-registry bindings.
pub struct GameData {
    pub maps: Vec<MapNode>,
    pub events: Vec<EventData>,
    pub player: Vec<Attribute>,
    pub trigger: Vec<(String, Trigger)>,
}

impl GameData {
    /// Whether the catalog can seed a session: location, event and attribute
    /// names are unique in their scopes, and every attribute definition is
    /// well formed. These are exactly what the session constructors ask of a
    /// catalog.
    pub open spec fn spec_valid(self) -> bool {
        &&& forall|i: int, j: int| 0 <= i < j < self.maps@.len() ==> self.maps@[i].name@
            != self.maps@[j].name@
        &&& forall|i: int, j: int| 0 <= i < j < self.events@.len() ==> self.events@[i].name@
            != self.events@[j].name@
        &&& forall|i: int, j: int| 0 <= i < j < self.player@.len() ==> self.player@[i].name@
            != self.player@[j].name@
        &&& forall|i: int| 0 <= i < self.player@.len() ==> self.player@[i].wf()
    }

    /// Validates the catalog: reports whether it can seed a session.
    pub fn validate(&self) -> (r: bool)
        ensures
            r == self.spec_valid(),
    {
        let nm = self.maps.len();
        for i in 0..nm
            invariant
                nm == self.maps@.len(),
                forall|k: int, l: int| 0 <= k < l < i ==> self.maps@[k].name@
                    != self.maps@[l].name@,
        {
            for j in 0..i
                invariant
                    i < nm == self.maps@.len(),
                    forall|k: int| 0 <= k < j ==> self.maps@[k].name@ != self.maps@[i as int].name@,
            {
                if crate::strutil::str_eq(self.maps[j].name.as_str(), self.maps[i].name.as_str()) {
                    return false;
                }
            }
        }
        let ne = self.events.len();
        for i in 0..ne
            invariant
                ne == self.events@.len(),
                forall|k: int, l: int| 0 <= k < l < i ==> self.events@[k].name@
                    != self.events@[l].name@,
        {
            for j in 0..i
                invariant
                    i < ne == self.events@.len(),
                    forall|k: int| 0 <= k < j ==> self.events@[k].name@ != self.events@[
                        i as int].name@,
            {
                if crate::strutil::str_eq(
                    self.events[j].name.as_str(),
                    self.events[i].name.as_str(),
                ) {
                    return false;
                }
            }
        }
        let na = self.player.len();
        for i in 0..na
            invariant
                na == self.player@.len(),
                forall|k: int, l: int| 0 <= k < l < i ==> self.player@[k].name@
                    != self.player@[l].name@,
                forall|k: int| 0 <= k < i ==> self.player@[k].wf(),
        {
            if !(self.player[i].min <= self.player[i].default && self.player[i].default
                <= self.player[i].max) {
                return false;
            }
            for j in 0..i
                invariant
                    i < na == self.player@.len(),
                    forall|k: int| 0 <= k < j ==> self.player@[k].name@ != self.player@[
                        i as int].name@,
            {
                if crate::strutil::str_eq(
                    self.player[j].name.as_str(),
                    self.player[i].name.as_str(),
                ) {
                    return false;
                }
            }
        }
        true
    }
}

/// Where a catalog or a saved world comes from: a file path, raw text, an
/// in-memory value, or nothing (the built-in default). Reading and decoding
/// the first two happens outside this crate.
pub enum DataSource<T> {
    Path(String),
    Raw(String),
    Inbuilt(Box<T>),
    Absent,
}

/// Why a tick stopped: an administrative command escaped to the session loop,
/// an evaluation failure, a refused travel, or a silent segment with nothing
/// enabled to choose.
pub enum GameErr {
    DebugEscape(DebugFromFrontend),
    Eval(EvalErr),
    Travel(TravelErr),
    NoEnabledOption,
}

/// The mathematical value of an engine error. An administrative escape
/// carries presentation data and has no mathematical content of its own.
pub enum GameErrV {
    DebugEscape,
    Eval(EvalErrV),
    Travel(TravelErr),
    NoEnabledOption,
}

impl View for GameErr {
    type V = GameErrV;

    open spec fn view(&self) -> GameErrV {
        match self {
            GameErr::DebugEscape(_) => GameErrV::DebugEscape,
            GameErr::Eval(e) => GameErrV::Eval(e@),
            GameErr::Travel(t) => GameErrV::Travel(*t),
            GameErr::NoEnabledOption => GameErrV::NoEnabledOption,
        }
    }
}

/// The mathematical value of a unit engine result.
pub open spec fn unit_res_view(r: Result<(), GameErr>) -> Result<(), GameErrV> {
    match r {
        Result::Ok(()) => Result::Ok(()),
        Result::Err(e) => Result::Err(e@),
    }
}

} // verus!
