//! The bundle of session collaborators, and the per-tick scheduling step.

use vstd::prelude::*;
use crate::time_system::TimeSystem;
use crate::map_system::MapSystem;
use crate::triggers::TriggerSystem;
use crate::triggers::Trigger;
use crate::triggers::collect_events;
use crate::triggers::reg_view;
use crate::triggers::pick_scan;
use crate::triggers::active_forced;
use crate::triggers::active_bound;
use crate::events::EventSystem;
use crate::events::spec_insert;
use crate::player::Player;
use crate::conditions::EvalErr;
use crate::conditions::EvalErrV;
use crate::rng::Rand;

verus! {

/// The immutable collaborators of a session: the clock, the map, the trigger
/// registry and the event catalog.
pub struct Systems {
    pub time: TimeSystem,
    pub map: MapSystem,
    pub trigger: TriggerSystem,
    pub event: EventSystem,
}

impl Systems {
    /// The scheduling part of one tick: the active trigger set is seeded with
    /// the always-active tag, the scheduler picks at most one event to
    /// activate, and the trigger set is cleared for the next tick. A newly
    /// selected event becomes active at its entry segment; otherwise the
    /// running-event pointer is left untouched.
    pub fn schedule_tick(&self, player: &mut Player, rand: &mut Rand) -> (r: Result<(), EvalErr>)
        ensures
            final(player).attributes == old(player).attributes,
            final(player).attribute_defs == old(player).attribute_defs,
            final(player).items == old(player).items,
            final(player).game_map == old(player).game_map,
            final(player).game_time == old(player).game_time,
            final(player).stuck_in_event == old(player).stuck_in_event,
            final(player).trigger@ == Seq::<Trigger>::empty(),
            active_forced(*old(player), self.event.events@) ==> {
                &&& r is Ok
                &&& final(player).cur_evt_seg == old(player).cur_evt_seg
                &&& final(rand).state == old(rand).state
            },
            !active_forced(*old(player), self.event.events@) ==> ({
                let cands = collect_events(
                    reg_view(self.trigger.registered@),
                    spec_insert(old(player).trigger@, Trigger::Always),
                    Seq::empty(),
                );
                let (res, s) = pick_scan(
                    self.event.events@,
                    cands,
                    old(player).shot(old(rand).state),
                    0,
                    active_bound(*old(player), self.event.events@),
                    None,
                );
                final(rand).state == s && (match r {
                    Result::Ok(()) => res matches Result::Ok(sel) && final(player).cur_evt_seg
                        == (match sel {
                        Some(n) => Some((n, None::<String>)),
                        None => old(player).cur_evt_seg,
                    }),
                    Result::Err(e) => res == Result::<Option<String>, EvalErrV>::Err(e@)
                        && final(player).cur_evt_seg == old(player).cur_evt_seg,
                })
            }),
    {
        TriggerSystem::set_default(&mut player.trigger);
        proof {
            assert(player.trigger@ == spec_insert(old(player).trigger@, Trigger::Always));
            assert(active_forced(*player, self.event.events@) == active_forced(
                *old(player),
                self.event.events@,
            ));
            assert(active_bound(*player, self.event.events@) == active_bound(
                *old(player),
                self.event.events@,
            ));
            assert(player.shot(rand.state) == old(player).shot(old(rand).state));
        }
        let picked = self.trigger.pick_event(player, &self.event, rand);
        match picked {
            Ok(sel) => {
                match sel {
                    Some(evt) => {
                        player.cur_evt_seg = Some((evt, None));
                    },
                    None => {},
                }
                player.trigger.clear();
                Ok(())
            },
            Err(e) => {
                player.trigger.clear();
                Err(e)
            },
        }
    }
}

} // verus!
