//! Triggers and the trigger registry.
//!
//! A trigger is an ephemeral tag describing what just happened or what is
//! always true. The registry is a static mapping from trigger to candidate
//! event names, built once from configuration; each tick the scheduler unions
//! the candidates of every active trigger.

use vstd::prelude::*;
use crate::player::Player;
use crate::player::WorldShot;
use crate::events::EventData;
use crate::events::EventSystem;
use crate::events::event_idx;
use crate::conditions::EvalErr;
use crate::conditions::EvalErrV;
use crate::conditions::eval_cond;
use crate::time_system::TimeSystem;
use crate::rng::Rand;

verus! {

/// An ephemeral tag: reaching a location, staying at one, the always-active
/// tag, the initialization-only tags, or a custom tag.
pub enum Trigger {
    Reached(String),
    Stay(String),
    Always,
    Init,
    PreInit,
    Custom(String),
}

/// Whether two triggers name the same tag.
pub open spec fn trig_eq(a: Trigger, b: Trigger) -> bool {
    match (a, b) {
        (Trigger::Reached(x), Trigger::Reached(y)) => x@ == y@,
        (Trigger::Stay(x), Trigger::Stay(y)) => x@ == y@,
        (Trigger::Always, Trigger::Always) => true,
        (Trigger::Init, Trigger::Init) => true,
        (Trigger::PreInit, Trigger::PreInit) => true,
        (Trigger::Custom(x), Trigger::Custom(y)) => x@ == y@,
        _ => false,
    }
}

/// Whether the tag `t` is a member of the trigger list `s`.
pub open spec fn trig_in(s: Seq<Trigger>, t: Trigger) -> bool {
    exists|i: int| 0 <= i < s.len() && trig_eq(s[i], t)
}

impl Trigger {
    /// A copy naming the same tag.
    pub fn duplicate(&self) -> (r: Trigger)
        ensures
            r == *self,
    {
        match self {
            Trigger::Reached(s) => Trigger::Reached(s.clone()),
            Trigger::Stay(s) => Trigger::Stay(s.clone()),
            Trigger::Always => Trigger::Always,
            Trigger::Init => Trigger::Init,
            Trigger::PreInit => Trigger::PreInit,
            Trigger::Custom(s) => Trigger::Custom(s.clone()),
        }
    }
}

/// Whether two triggers name the same tag.
pub fn trigger_eq(a: &Trigger, b: &Trigger) -> (r: bool)
    ensures
        r == trig_eq(*a, *b),
{
    match (a, b) {
        (Trigger::Reached(x), Trigger::Reached(y)) => crate::strutil::str_eq(
            x.as_str(),
            y.as_str(),
        ),
        (Trigger::Stay(x), Trigger::Stay(y)) => crate::strutil::str_eq(x.as_str(), y.as_str()),
        (Trigger::Always, Trigger::Always) => true,
        (Trigger::Init, Trigger::Init) => true,
        (Trigger::PreInit, Trigger::PreInit) => true,
        (Trigger::Custom(x), Trigger::Custom(y)) => crate::strutil::str_eq(x.as_str(), y.as_str()),
        _ => false,
    }
}

/// Adds the tag `t` to the active set when it is not yet a member.
pub fn insert_trigger(set: &mut Vec<Trigger>, t: Trigger)
    ensures
        final(set)@ == if trig_in(old(set)@, t) {
            old(set)@
        } else {
            old(set)@.push(t)
        },
{
    let n = set.len();
    for i in 0..n
        invariant
            n == set.len(),
            set@ == old(set)@,
            forall|k: int| 0 <= k < i ==> !trig_eq(set@[k], t),
    {
        if trigger_eq(&set[i], &t) {
            assert(trig_in(set@, t));
            return ;
        }
    }
    set.push(t);
}

/// One binding folded into the registry: the event name is appended to the
/// tag's candidate list, and an unseen tag opens a new list.
pub open spec fn reg_insert(
    reg: Seq<(Trigger, Seq<String>)>,
    name: String,
    t: Trigger,
) -> Seq<(Trigger, Seq<String>)> {
    match reg_find_v(reg, t, 0) {
        Some(j) => reg.update(j, (reg[j].0, reg[j].1.push(name))),
        None => reg.push((t, seq![name])),
    }
}

/// The first registry-view entry whose trigger names the tag `t`, at or
/// after `i`.
pub open spec fn reg_find_v(reg: Seq<(Trigger, Seq<String>)>, t: Trigger, i: int) -> Option<int>
    decreases reg.len() - i,
{
    if i < 0 || i >= reg.len() {
        None
    } else if trig_eq(reg[i].0, t) {
        Some(i)
    } else {
        reg_find_v(reg, t, i + 1)
    }
}

/// The registry built from the bindings `bs`, folded in order onto `acc`.
pub open spec fn build_reg(
    bs: Seq<(String, Trigger)>,
    acc: Seq<(Trigger, Seq<String>)>,
) -> Seq<(Trigger, Seq<String>)>
    decreases bs.len(),
{
    if bs.len() == 0 {
        acc
    } else {
        build_reg(bs.drop_first(), reg_insert(acc, bs[0].0, bs[0].1))
    }
}

/// The view of a registry: each entry's trigger with its candidate list.
pub open spec fn reg_view(reg: Seq<(Trigger, Vec<String>)>) -> Seq<(Trigger, Seq<String>)> {
    Seq::new(reg.len(), |i: int| (reg[i].0, reg[i].1@))
}

/// The names of `names` appended to `acc` in order, skipping those already
/// present.
pub open spec fn push_new(acc: Seq<String>, names: Seq<String>) -> Seq<String>
    decreases names.len(),
{
    if names.len() == 0 {
        acc
    } else {
        let acc2 = if crate::strutil::contains_str(acc, names[0]@) {
            acc
        } else {
            acc.push(names[0])
        };
        push_new(acc2, names.drop_first())
    }
}

/// The candidate event names reachable from the triggers `trigs`, folded in
/// order onto `acc`, each name kept once.
pub open spec fn collect_events(
    reg: Seq<(Trigger, Seq<String>)>,
    trigs: Seq<Trigger>,
    acc: Seq<String>,
) -> Seq<String>
    decreases trigs.len(),
{
    if trigs.len() == 0 {
        acc
    } else {
        let acc2 = match reg_find_v(reg, trigs[0], 0) {
            Some(j) => push_new(acc, reg[j].1),
            None => acc,
        };
        collect_events(reg, trigs.drop_first(), acc2)
    }
}

/// Whether the world's active event exists in the catalog and carries the
/// force flag; with no active event, or one missing from the catalog, false.
pub open spec fn active_forced(p: Player, evs: Seq<EventData>) -> bool {
    match p.cur_evt_seg {
        Some(cur) => match event_idx(evs, cur.0@, 0) {
            Some(j) => evs[j].force,
            None => false,
        },
        None => false,
    }
}

/// The active event's priority, used as the strict bound a candidate must
/// beat; no value when no event is active or the active name is missing from
/// the catalog, in which case every eligible candidate qualifies.
pub open spec fn active_bound(p: Player, evs: Seq<EventData>) -> Option<u32> {
    match p.cur_evt_seg {
        Some(cur) => match event_idx(evs, cur.0@, 0) {
            Some(j) => Some(evs[j].priority),
            None => None,
        },
        None => None,
    }
}

/// The scan over the candidate names from index `i` on: each candidate found
/// in the catalog has its condition evaluated, threading the generator state;
/// an eligible candidate replaces the best one seen only when its priority
/// number is strictly smaller, so the first of equals wins. The result is the
/// best candidate's name, or the first evaluation failure.
pub open spec fn pick_scan(
    evs: Seq<EventData>,
    cands: Seq<String>,
    w: WorldShot,
    i: int,
    bound: Option<u32>,
    best: Option<(u32, String)>,
) -> (Result<Option<String>, EvalErrV>, u64)
    decreases cands.len() - i,
{
    if i < 0 || i >= cands.len() {
        (
            Result::Ok(
                match best {
                    Some(b) => Some(b.1),
                    None => None,
                },
            ),
            w.rand,
        )
    } else {
        match event_idx(evs, cands[i]@, 0) {
            None => pick_scan(evs, cands, w, i + 1, bound, best),
            Some(j) => {
                let (res, s) = eval_cond(evs[j].condition, w);
                let w1 = WorldShot { rand: s, ..w };
                match res {
                    Result::Err(e) => (Result::Err(e), s),
                    Result::Ok(b) => {
                        let eligible = b && (match bound {
                            Some(p) => evs[j].priority < p,
                            None => true,
                        });
                        let better = eligible && (match best {
                            Some(bp) => evs[j].priority < bp.0,
                            None => true,
                        });
                        pick_scan(
                            evs,
                            cands,
                            w1,
                            i + 1,
                            bound,
                            if better {
                                Some((evs[j].priority, cands[i]))
                            } else {
                                best
                            },
                        )
                    },
                }
            },
        }
    }
}

/// The generator state with which the scan reaches candidate `i`: every
/// earlier candidate found in the catalog has consumed its condition's draws.
pub open spec fn scan_state(evs: Seq<EventData>, cands: Seq<String>, w0: WorldShot, i: int) -> u64
    decreases i,
{
    if i <= 0 {
        w0.rand
    } else {
        let prev = scan_state(evs, cands, w0, i - 1);
        match event_idx(evs, cands[i - 1]@, 0) {
            None => prev,
            Some(j) => eval_cond(evs[j].condition, WorldShot { rand: prev, ..w0 }).1,
        }
    }
}

/// Whether candidate `i` is eligible: it names a catalog event whose
/// condition holds at the state the scan reaches it with, and whose priority
/// number beats the bound, when one is given.
pub open spec fn cand_eligible(
    evs: Seq<EventData>,
    cands: Seq<String>,
    w0: WorldShot,
    bound: Option<u32>,
    i: int,
) -> bool {
    match event_idx(evs, cands[i]@, 0) {
        None => false,
        Some(j) => {
            &&& eval_cond(
                evs[j].condition,
                WorldShot { rand: scan_state(evs, cands, w0, i), ..w0 },
            ).0 == Result::<bool, EvalErrV>::Ok(true)
            &&& match bound {
                Some(p) => evs[j].priority < p,
                None => true,
            }
        },
    }
}

/// The priority number of the catalog event that candidate `i` names.
pub open spec fn cand_priority(evs: Seq<EventData>, cands: Seq<String>, i: int) -> u32 {
    match event_idx(evs, cands[i]@, 0) {
        Some(j) => evs[j].priority,
        None => 0,
    }
}

/// The induction behind the minimality law: a scan that starts at `i` with a
/// best candidate summarizing the eligible candidates before `i` ends on an
/// eligible candidate of minimal priority, or on none when none is eligible.
proof fn lemma_pick_scan_min_rec(
    evs: Seq<EventData>,
    cands: Seq<String>,
    w0: WorldShot,
    bound: Option<u32>,
    i: int,
    best: Option<(u32, String)>,
)
    requires
        0 <= i <= cands.len(),
        match best {
            None => forall|k: int| 0 <= k < i ==> !cand_eligible(evs, cands, w0, bound, k),
            Some(b) => {
                &&& exists|k: int|
                    0 <= k < i && #[trigger] cand_eligible(evs, cands, w0, bound, k) && cands[k]
                        == b.1 && cand_priority(evs, cands, k) == b.0
                &&& forall|k: int|
                    0 <= k < i && #[trigger] cand_eligible(evs, cands, w0, bound, k) ==> b.0
                        <= cand_priority(evs, cands, k)
            },
        },
    ensures
        ({
            let (res, s) = pick_scan(
                evs,
                cands,
                WorldShot { rand: scan_state(evs, cands, w0, i), ..w0 },
                i,
                bound,
                best,
            );
            match res {
                Result::Ok(sel) => match sel {
                    Some(name) => exists|k: int|
                        0 <= k < cands.len() && #[trigger] cand_eligible(evs, cands, w0, bound, k)
                            && cands[k] == name && (forall|l: int|
                            0 <= l < cands.len() && #[trigger] cand_eligible(
                                evs,
                                cands,
                                w0,
                                bound,
                                l,
                            ) ==> cand_priority(evs, cands, k) <= cand_priority(evs, cands, l)),
                    None => forall|k: int|
                        0 <= k < cands.len() ==> !cand_eligible(evs, cands, w0, bound, k),
                },
                Result::Err(_) => true,
            }
        }),
    decreases cands.len() - i,
{
    let wi = WorldShot { rand: scan_state(evs, cands, w0, i), ..w0 };
    if i == cands.len() {
        match best {
            None => {},
            Some(b) => {
                let k = choose|k: int|
                    0 <= k < i && #[trigger] cand_eligible(evs, cands, w0, bound, k) && cands[k]
                        == b.1 && cand_priority(evs, cands, k) == b.0;
                assert(cand_eligible(evs, cands, w0, bound, k));
            },
        }
    } else {
        match event_idx(evs, cands[i]@, 0) {
            None => {
                assert(scan_state(evs, cands, w0, i + 1) == scan_state(evs, cands, w0, i));
                assert(!cand_eligible(evs, cands, w0, bound, i));
                lemma_pick_scan_min_rec(evs, cands, w0, bound, i + 1, best);
            },
            Some(j) => {
                let (res0, s1) = eval_cond(evs[j].condition, wi);
                assert(scan_state(evs, cands, w0, i + 1) == s1);
                match res0 {
                    Result::Err(_) => {},
                    Result::Ok(b) => {
                        let w1 = WorldShot { rand: s1, ..wi };
                        assert(w1 == WorldShot { rand: scan_state(evs, cands, w0, i + 1), ..w0 });
                        let eligible = b && (match bound {
                            Some(p) => evs[j].priority < p,
                            None => true,
                        });
                        assert(eligible == cand_eligible(evs, cands, w0, bound, i));
                        let better = eligible && (match best {
                            Some(bp) => evs[j].priority < bp.0,
                            None => true,
                        });
                        let best2 = if better {
                            Some((evs[j].priority, cands[i]))
                        } else {
                            best
                        };
                        if better {
                            assert(cand_eligible(evs, cands, w0, bound, i));
                            assert(cand_priority(evs, cands, i) == evs[j].priority);
                            assert forall|k: int|
                                0 <= k < i + 1 && #[trigger] cand_eligible(
                                    evs,
                                    cands,
                                    w0,
                                    bound,
                                    k,
                                ) implies evs[j].priority <= cand_priority(evs, cands, k) by {
                                if k < i {
                                    match best {
                                        Some(bp) => {
                                            assert(bp.0 <= cand_priority(evs, cands, k));
                                        },
                                        None => {},
                                    }
                                }
                            }
                        } else {
                            match best {
                                Some(bp) => {
                                    if eligible {
                                        assert(bp.0 <= evs[j].priority);
                                    }
                                    assert forall|k: int|
                                        0 <= k < i + 1 && #[trigger] cand_eligible(
                                            evs,
                                            cands,
                                            w0,
                                            bound,
                                            k,
                                        ) implies bp.0 <= cand_priority(evs, cands, k) by {}
                                },
                                None => {
                                    assert(!eligible);
                                },
                            }
                        }
                        lemma_pick_scan_min_rec(evs, cands, w0, bound, i + 1, best2);
                    },
                }
            },
        }
    }
}

/// The minimality law of the scheduler: when the scan over the candidates
/// succeeds with a selection, the selected name is an eligible candidate
/// whose priority number is at or below every eligible candidate's; when it
/// succeeds with no selection, no candidate is eligible. Eligibility of a
/// candidate is taken at the generator state the scan reaches it with. The
/// one run the law says nothing about is a failing scan: a candidate whose
/// condition names a missing attribute stops the scan with that typed
/// failure, and nothing is selected.
pub proof fn lemma_pick_min(
    evs: Seq<EventData>,
    cands: Seq<String>,
    w0: WorldShot,
    bound: Option<u32>,
)
    ensures
        ({
            let (res, s) = pick_scan(evs, cands, w0, 0, bound, None);
            match res {
                Result::Ok(sel) => match sel {
                    Some(name) => exists|k: int|
                        0 <= k < cands.len() && #[trigger] cand_eligible(evs, cands, w0, bound, k)
                            && cands[k] == name && (forall|l: int|
                            0 <= l < cands.len() && #[trigger] cand_eligible(
                                evs,
                                cands,
                                w0,
                                bound,
                                l,
                            ) ==> cand_priority(evs, cands, k) <= cand_priority(evs, cands, l)),
                    None => forall|k: int|
                        0 <= k < cands.len() ==> !cand_eligible(evs, cands, w0, bound, k),
                },
                Result::Err(_) => true,
            }
        }),
{
    assert(WorldShot { rand: scan_state(evs, cands, w0, 0), ..w0 } == w0);
    lemma_pick_scan_min_rec(evs, cands, w0, bound, 0, None);
}

/// The trigger registry: a static mapping from trigger tag to the names of
/// the events that the tag makes candidates.
pub struct TriggerSystem {
    pub registered: Vec<(Trigger, Vec<String>)>,
}

impl TriggerSystem {
    /// Builds the registry from (event name, trigger) bindings, in order;
    /// duplicate bindings accumulate, so one tag may name many events.
    pub fn new(bindings: &Vec<(String, Trigger)>) -> (r: TriggerSystem)
        ensures
            reg_view(r.registered@) == build_reg(bindings@, Seq::empty()),
    {
        let mut reg: Vec<(Trigger, Vec<String>)> = Vec::new();
        let n = bindings.len();
        assert(bindings@.skip(0) == bindings@);
        assert(reg_view(reg@) =~= Seq::<(Trigger, Seq<String>)>::empty());
        for i in 0..n
            invariant
                n == bindings.len(),
                build_reg(bindings@, Seq::empty()) == build_reg(
                    bindings@.skip(i as int),
                    reg_view(reg@),
                ),
        {
            let name = bindings[i].0.clone();
            let trig = bindings[i].1.duplicate();
            let ghost pre = reg_view(reg@);
            let m = reg.len();
            let mut found: Option<usize> = None;
            for j in 0..m
                invariant
                    m == reg.len(),
                    reg_view(reg@) == pre,
                    found matches Some(jj) ==> reg_find_v(pre, trig, 0) == Some(jj as int)
                        && jj < m,
                    found is None ==> reg_find_v(pre, trig, 0) == reg_find_v(pre, trig, j as int),
                    found is None ==> j < m || reg_find_v(pre, trig, j as int) is None,
            {
                if found.is_none() && trigger_eq(&reg[j].0, &trig) {
                    found = Some(j);
                }
            }
            match found {
                Some(j) => {
                    let entry = &mut reg[j];
                    entry.1.push(name);
                    proof {
                        assert(reg_view(reg@) =~= reg_insert(pre, bindings@[i as int].0, trig));
                    }
                },
                None => {
                    let mut names: Vec<String> = Vec::new();
                    names.push(name);
                    reg.push((trig, names));
                    proof {
                        assert(names@ =~= seq![bindings@[i as int].0]);
                        assert(reg_view(reg@) =~= reg_insert(pre, bindings@[i as int].0, trig));
                    }
                },
            }
            proof {
                assert(bindings@.skip(i as int).drop_first() =~= bindings@.skip(i + 1));
                assert(bindings@.skip(i as int)[0] == bindings@[i as int]);
            }
        }
        proof {
            assert(bindings@.skip(n as int) =~= Seq::<(String, Trigger)>::empty());
        }
        TriggerSystem { registered: reg }
    }

    /// Every candidate event name reachable from the active triggers, in
    /// registry order per trigger, each name kept once.
    pub fn get_all_events(&self, triggers: &Vec<Trigger>) -> (r: Vec<String>)
        ensures
            r@ == collect_events(reg_view(self.registered@), triggers@, Seq::empty()),
    {
        let ghost regv = reg_view(self.registered@);
        let mut acc: Vec<String> = Vec::new();
        let n = triggers.len();
        assert(triggers@.skip(0) == triggers@);
        for i in 0..n
            invariant
                n == triggers.len(),
                collect_events(regv, triggers@, Seq::empty()) == collect_events(
                    regv,
                    triggers@.skip(i as int),
                    acc@,
                ),
                regv == reg_view(self.registered@),
        {
            let t = &triggers[i];
            let m = self.registered.len();
            let mut found: Option<usize> = None;
            for j in 0..m
                invariant
                    m == self.registered.len(),
                    regv == reg_view(self.registered@),
                    found matches Some(jj) ==> reg_find_v(regv, triggers@[i as int], 0) == Some(
                        jj as int,
                    ) && jj < m,
                    found is None ==> reg_find_v(regv, triggers@[i as int], 0) == reg_find_v(
                        regv,
                        triggers@[i as int],
                        j as int,
                    ),
            {
                if found.is_none() && trigger_eq(&self.registered[j].0, t) {
                    found = Some(j);
                }
            }
            match found {
                Some(j) => {
                    let ghost acc_pre = acc@;
                    let names = &self.registered[j].1;
                    let p = names.len();
                    assert(names@.skip(0) == names@);
                    for k in 0..p
                        invariant
                            p == names.len(),
                            names@ == self.registered@[j as int].1@,
                            push_new(acc_pre, names@) == push_new(acc@, names@.skip(k as int)),
                    {
                        let present = crate::strutil::contains_name(&acc, names[k].as_str());
                        if !present {
                            acc.push(names[k].clone());
                        }
                        proof {
                            assert(names@.skip(k as int).drop_first() =~= names@.skip(k + 1));
                            assert(names@.skip(k as int)[0] == names@[k as int]);
                        }
                    }
                    proof {
                        assert(names@.skip(p as int) =~= Seq::<String>::empty());
                        assert(regv[j as int].1 == names@);
                    }
                },
                None => {},
            }
            proof {
                assert(triggers@.skip(i as int).drop_first() =~= triggers@.skip(i + 1));
                assert(triggers@.skip(i as int)[0] == triggers@[i as int]);
            }
        }
        proof {
            assert(triggers@.skip(n as int) =~= Seq::<Trigger>::empty());
        }
        acc
    }

    /// Resolves the trigger registry against the world's active triggers and
    /// picks at most one event to activate: among the candidates whose
    /// condition holds and whose priority number is strictly below the active
    /// event's — or all such candidates when no event is active — the one
    /// with the smallest priority number, ties going to the candidate
    /// examined first, in trigger-registry order. A forced active event is
    /// never interrupted: no candidate is examined and no random draw is
    /// consumed. Every examined candidate's condition is evaluated, so random
    /// draws are consumed in candidate order.
    pub fn pick_event(&self, player: &Player, events: &EventSystem, rand: &mut Rand) -> (r: Result<
        Option<String>,
        EvalErr,
    >)
        ensures
            active_forced(*player, events.events@) ==> r == Result::<Option<String>, EvalErr>::Ok(
                None,
            ) && final(rand).state == old(rand).state,
            !active_forced(*player, events.events@) ==> ({
                let cands = collect_events(
                    reg_view(self.registered@),
                    player.trigger@,
                    Seq::empty(),
                );
                let (res, s) = pick_scan(
                    events.events@,
                    cands,
                    player.shot(old(rand).state),
                    0,
                    active_bound(*player, events.events@),
                    None,
                );
                final(rand).state == s && (match r {
                    Result::Ok(o) => res == Result::<Option<String>, EvalErrV>::Ok(o),
                    Result::Err(e) => res == Result::<Option<String>, EvalErrV>::Err(e@),
                })
            }),
    {
        let ghost evs = events.events@;
        let mut forced = false;
        let mut bound: Option<u32> = None;
        match &player.cur_evt_seg {
            Some(cur) => {
                match events.lookup_event(cur.0.as_str()) {
                    Some(j) => {
                        forced = events.events[j].force;
                        bound = Some(events.events[j].priority);
                    },
                    None => {},
                }
            },
            None => {},
        }
        proof {
            assert(forced == active_forced(*player, evs));
            assert(bound == active_bound(*player, evs));
        }
        if forced {
            return Ok(None);
        }
        let cands = self.get_all_events(&player.trigger);
        let ghost w0 = player.shot(rand.state);
        let mut best: Option<(u32, String)> = None;
        let n = cands.len();
        for i in 0..n
            invariant
                n == cands.len(),
                w0 == player.shot(w0.rand),
                ({
                    let (res, s) = pick_scan(evs, cands@, w0, 0, bound, None);
                    let (res_i, s_i) = pick_scan(
                        evs,
                        cands@,
                        player.shot(rand.state),
                        i as int,
                        bound,
                        best,
                    );
                    res == res_i && s == s_i
                }),
        {
            match events.lookup_event(cands[i].as_str()) {
                None => {},
                Some(j) => {
                    let ghost s_pre = rand.state;
                    match events.events[j].condition.is_met(
                        &TimeSystem,
                        player,
                        rand,
                    ) {
                        Err(e) => {
                            return Err(e);
                        },
                        Ok(b) => {
                            let eligible = b && (match bound {
                                Some(p) => events.events[j].priority < p,
                                None => true,
                            });
                            let better = eligible && (match &best {
                                Some(bp) => events.events[j].priority < bp.0,
                                None => true,
                            });
                            if better {
                                best = Some((events.events[j].priority, cands[i].clone()));
                            }
                        },
                    }
                },
            }
        }
        match best {
            Some(b) => Ok(Some(b.1)),
            None => Ok(None),
        }
    }

    /// Seeds the active trigger set with the always-active tag.
    pub fn set_default(triggers: &mut Vec<Trigger>)
        ensures
            final(triggers)@ == if trig_in(old(triggers)@, Trigger::Always) {
                old(triggers)@
            } else {
                old(triggers)@.push(Trigger::Always)
            },
    {
        insert_trigger(triggers, Trigger::Always);
    }
}

} // verus!
