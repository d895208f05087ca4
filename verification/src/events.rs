//! Events, segments and options: the catalog of narrative content, and the
//! segment state machine that walks an active event.

use vstd::prelude::*;
use crate::conditions::Condition;
use crate::conditions::EvalErrV;
use crate::conditions::eval_cond;
use crate::modifier::Modifier;
use crate::modifier::apply_modifier;
use crate::triggers::Trigger;
use crate::triggers::trig_in;
use crate::triggers::insert_trigger;
use crate::player::Player;
use crate::player::WorldShot;
use crate::time_system::TimeSystem;
use crate::map_system::MapSystem;
use crate::rng::Rand;
use crate::game::GameErr;

verus! {

/// An avatar directive, forwarded unchanged to the presentation boundary:
/// replace the main image, add a decoration, or replace the main image while
/// keeping decorations.
pub enum AvatarSet {
    Main(String),
    Deco(String),
    MainKeepingDeco(String),
}

/// A choosable branch within a segment: display text, an optional enabling
/// condition (absence enables it always), optional jump targets, triggers to
/// emit, an avatar directive, and the modifier applied when chosen.
pub struct EventOption {
    pub text: String,
    pub condition: Option<Condition>,
    pub jump_to_event: Option<String>,
    pub jump_to: Option<String>,
    pub trigger: Option<Vec<Trigger>>,
    pub avatar_set: Option<AvatarSet>,
    pub modifier: Modifier,
}

/// One beat of an event: display text and the options offered. A silent
/// segment advances without player input.
pub struct EventSegment {
    pub name: String,
    pub text: String,
    pub silent: bool,
    pub options: Vec<EventOption>,
    pub hide_disabled_options: bool,
}

/// A named, prioritized unit of narrative content. A lower priority number is
/// more urgent; a forced event cannot be preempted once active; the stuck
/// flag asks the world to suppress unrelated actions while the event runs.
pub struct EventData {
    pub name: String,
    pub priority: u32,
    pub force: bool,
    pub condition: Condition,
    pub segments: Vec<EventSegment>,
    pub stuck_moving: bool,
}

/// The first index at or after `i` of an event named `name`.
pub open spec fn event_idx(events: Seq<EventData>, name: Seq<char>, i: int) -> Option<int>
    decreases events.len() - i,
{
    if i < 0 || i >= events.len() {
        None
    } else if events[i].name@ == name {
        Some(i)
    } else {
        event_idx(events, name, i + 1)
    }
}

/// The first index at or after `i` of a segment named `name`.
pub open spec fn segment_idx(segments: Seq<EventSegment>, name: Seq<char>, i: int) -> Option<int>
    decreases segments.len() - i,
{
    if i < 0 || i >= segments.len() {
        None
    } else if segments[i].name@ == name {
        Some(i)
    } else {
        segment_idx(segments, name, i + 1)
    }
}

/// The event catalog, plus the bookkeeping list of externally registered
/// events.
pub struct EventSystem {
    pub events: Vec<EventData>,
    pub registered_events: Vec<EventData>,
}

impl EventSystem {
    /// A catalog holding the given events. Event names must be unique;
    /// configuration with duplicate names is rejected before this point.
    pub fn new(events: Vec<EventData>) -> (r: EventSystem)
        requires
            forall|i: int, j: int| 0 <= i < j < events@.len() ==> events@[i].name@
                != events@[j].name@,
        ensures
            r.events@ == events@,
            r.spec_registered() == Seq::<EventData>::empty(),
    {
        let r = EventSystem { events, registered_events: Vec::new() };
        proof {
            assert(r.registered_events@ =~= Seq::<EventData>::empty());
        }
        r
    }

    /// The externally registered events, oldest first.
    pub open spec fn spec_registered(self) -> Seq<EventData> {
        self.registered_events@
    }

    /// Remembers an externally registered event.
    pub fn register_event(&mut self, event: EventData)
        ensures
            final(self).spec_registered() == old(self).spec_registered().push(event),
            final(self).events == old(self).events,
    {
        self.registered_events.push(event);
    }

    /// The index of the event named `k`, if any.
    pub fn lookup_event(&self, k: &str) -> (r: Option<usize>)
        ensures
            r is Some <==> event_idx(self.events@, k@, 0) is Some,
            r matches Some(j) ==> event_idx(self.events@, k@, 0) == Some(j as int) && j
                < self.events@.len(),
    {
        let n = self.events.len();
        for i in 0..n
            invariant
                n == self.events.len(),
                event_idx(self.events@, k@, 0) == event_idx(self.events@, k@, i as int),
        {
            if crate::strutil::str_eq(self.events[i].name.as_str(), k) {
                return Some(i);
            }
        }
        None
    }

    /// Begins one state-machine step: resolves the running-event pointer,
    /// renders the segment, and reports what comes next. A pointer that
    /// resolves to nothing, and a segment without options, end the event and
    /// leave the machine idle. The options' enabled flags are computed here;
    /// a silent segment picks its first enabled option, and having none is a
    /// reported error.
    #[verifier::rlimit(80)]
    pub fn begin_step(&self, time: &TimeSystem, player: &mut Player, rand: &mut Rand) -> (r:
        Result<SegmentStep, GameErr>)
        ensures
            final(player).attributes == old(player).attributes,
            final(player).attribute_defs == old(player).attribute_defs,
            final(player).items == old(player).items,
            final(player).game_map == old(player).game_map,
            final(player).game_time == old(player).game_time,
            final(player).trigger == old(player).trigger,
            !final(player).stuck_in_event,
            begin_step_post(
                self.events@,
                old(player).cur_evt_seg,
                old(player).shot(old(rand).state),
                r,
                final(player).cur_evt_seg,
                final(rand).state,
            ),
    {
        player.stuck_in_event = false;
        let pointer = clone_pointer(&player.cur_evt_seg);
        let (evt_name, seg_opt) = match pointer {
            None => {
                return Ok(SegmentStep::Finished { text: None });
            },
            Some(cur) => cur,
        };
        let j = match self.lookup_event(evt_name.as_str()) {
            None => {
                player.cur_evt_seg = None;
                return Ok(SegmentStep::Finished { text: None });
            },
            Some(j) => j,
        };
        let segments = &self.events[j].segments;
        let seg_found: Option<usize> = match &seg_opt {
            Option::None => {
                if segments.len() > 0 {
                    Some(0)
                } else {
                    None
                }
            },
            Option::Some(sn) => lookup_segment(segments, sn.as_str()),
        };
        let k = match seg_found {
            None => {
                player.cur_evt_seg = None;
                return Ok(SegmentStep::Finished { text: None });
            },
            Some(k) => k,
        };
        let seg = &self.events[j].segments[k];
        if seg.options.len() == 0 {
            player.cur_evt_seg = None;
            return Ok(SegmentStep::Finished { text: Some(seg.text.clone()) });
        }
        proof {
            assert(player.shot(rand.state) == old(player).shot(old(rand).state));
        }
        let ghost opts = seg.options@;
        let raw = match eval_flags(&seg.options, time, player, rand) {
            Ok(f) => f,
            Err(e) => {
                return Err(GameErr::Eval(e));
            },
        };
        proof {
            lemma_options_flags_len(opts, old(player).shot(old(rand).state), 0);
        }
        let flags = zip_option_texts(&seg.options, &raw);
        let ghost bs = raw@;
        proof {
            assert forall|q: int| 0 <= q < bs.len() implies flags@[q].1 == bs[q] by {
                assert(flags@[q].0@ == opts[q].text@);
            }
        }
        if seg.silent {
            let m = flags.len();
            for i in 0..m
                invariant
                    m == flags@.len(),
                    bs.len() == m,
                    forall|q: int| 0 <= q < m ==> #[trigger] flags@[q].1 == bs[q],
                    first_enabled(bs, 0) == first_enabled(bs, i as int),
            {
                if flags[i].1 {
                    return Ok(SegmentStep::AutoChoice { text: seg.text.clone(), pick: i });
                }
            }
            Err(GameErr::NoEnabledOption)
        } else {
            Ok(
                SegmentStep::AwaitChoice {
                    text: seg.text.clone(),
                    options: flags,
                    hide_disabled: seg.hide_disabled_options,
                },
            )
        }
    }

    /// Applies the chosen option of the resolved segment: its modifier
    /// mutates the world, its triggers join the active set, the pointer moves
    /// along its jump, and the stuck flag follows the event while one stays
    /// active. The avatar directive, if any, is handed back for the
    /// presentation boundary. The caller answers for the index: it must name
    /// an option of the resolved segment.
    #[verifier::rlimit(80)]
    pub fn apply_choice(
        &self,
        choice: usize,
        maps: &MapSystem,
        time: &TimeSystem,
        player: &mut Player,
        rand: &mut Rand,
    ) -> (r: Result<Option<AvatarSet>, GameErr>)
        requires
            old(player).wf(),
            resolve(self.events@, old(player).cur_evt_seg) matches Some(jk) && (choice as int)
                < self.events@[jk.0].segments@[jk.1].options@.len(),
        ensures
            final(player).wf(),
            final(player).attribute_defs == old(player).attribute_defs,
            final(player).game_time == old(player).game_time,
            apply_choice_post(
                self.events@,
                maps.maps@,
                choice as int,
                *old(player),
                old(rand).state,
                r,
                *final(player),
                final(rand).state,
            ),
    {
        let pointer = clone_pointer(&player.cur_evt_seg);
        let (evt_name, seg_opt) = match pointer {
            None => {
                proof {
                    assert(false);
                }
                (String::new(), None::<String>)
            },
            Some(cur) => cur,
        };
        let j = match self.lookup_event(evt_name.as_str()) {
            None => {
                proof {
                    assert(false);
                }
                0
            },
            Some(j) => j,
        };
        let segments = &self.events[j].segments;
        let seg_found: Option<usize> = match &seg_opt {
            Option::None => {
                if segments.len() > 0 {
                    Some(0)
                } else {
                    None
                }
            },
            Option::Some(sn) => lookup_segment(segments, sn.as_str()),
        };
        let k = match seg_found {
            None => {
                proof {
                    assert(false);
                }
                0
            },
            Some(k) => k,
        };
        proof {
            let jk = resolve(self.events@, old(player).cur_evt_seg)->0;
            assert(jk.0 == j as int);
            assert(jk.1 == k as int);
        }
        let opt = &self.events[j].segments[k].options[choice];
        match opt.modifier.modify(maps, time, player, rand) {
            Ok(()) => {},
            Err(e) => {
                return Err(e);
            },
        }
        let av = match &opt.avatar_set {
            Option::Some(a) => Some(a.duplicate()),
            Option::None => None,
        };
        match (&opt.jump_to_event, &opt.jump_to) {
            (Option::None, Option::None) => {
                player.cur_evt_seg = None;
            },
            (Option::Some(e2), s2) => {
                let seg2 = match s2 {
                    Option::None => None,
                    Option::Some(s) => Some(s.clone()),
                };
                player.cur_evt_seg = Some((e2.clone(), seg2));
            },
            (Option::None, Option::Some(sg)) => {
                player.cur_evt_seg = Some((evt_name, Some(sg.clone())));
            },
        }
        match &opt.trigger {
            Option::Some(ts) => {
                let ghost t0 = player.trigger@;
                let ghost pmid = *player;
                let m = ts.len();
                for i in 0..m
                    invariant
                        m == ts@.len(),
                        insert_all(t0, ts@, 0) == insert_all(player.trigger@, ts@, i as int),
                        player.attributes == pmid.attributes,
                        player.attribute_defs == pmid.attribute_defs,
                        player.items == pmid.items,
                        player.game_map == pmid.game_map,
                        player.game_time == pmid.game_time,
                        player.cur_evt_seg == pmid.cur_evt_seg,
                        player.stuck_in_event == pmid.stuck_in_event,
                        player.wf(),
                {
                    insert_trigger(&mut player.trigger, ts[i].duplicate());
                }
            },
            Option::None => {},
        }
        player.stuck_in_event = player.cur_evt_seg.is_some() && self.events[j].stuck_moving;
        Ok(av)
    }
}

/// What one step of the segment state machine asks of the caller: the event
/// ended (any terminal text is rendered and the machine is idle), a silent
/// segment picked its first enabled option by itself, or the rendered options
/// await a chosen index.
pub enum SegmentStep {
    Finished { text: Option<String> },
    AutoChoice { text: String, pick: usize },
    AwaitChoice { text: String, options: Vec<(String, bool)>, hide_disabled: bool },
}

/// The event and segment indices that the running-event pointer resolves to:
/// an absent pointer, an unknown event name, a named segment that is missing,
/// and an event without segments all resolve to nothing. An unnamed segment
/// resolves to the event's first.
pub open spec fn resolve(evs: Seq<EventData>, pointer: Option<(String, Option<String>)>) -> Option<
    (int, int),
> {
    match pointer {
        None => None,
        Some(cur) => match event_idx(evs, cur.0@, 0) {
            None => None,
            Some(j) => match cur.1 {
                None => if evs[j].segments@.len() > 0 {
                    Some((j, 0))
                } else {
                    None
                },
                Some(sn) => match segment_idx(evs[j].segments@, sn@, 0) {
                    Some(k) => Some((j, k)),
                    None => None,
                },
            },
        },
    }
}

/// The enabled flags of the options from index `i` on: an absent condition
/// enables the option without a draw; otherwise the condition is evaluated,
/// threading the generator state, and the first failure stops the walk.
pub open spec fn options_flags(opts: Seq<EventOption>, w: WorldShot, i: int) -> (
    Result<Seq<bool>, EvalErrV>,
    u64,
)
    decreases opts.len() - i,
{
    if i < 0 || i >= opts.len() {
        (Result::Ok(Seq::empty()), w.rand)
    } else {
        let (r0, s1) = match opts[i].condition {
            Option::None => (Result::<bool, EvalErrV>::Ok(true), w.rand),
            Option::Some(c) => eval_cond(c, w),
        };
        match r0 {
            Result::Err(e) => (Result::Err(e), s1),
            Result::Ok(b) => {
                let w1 = WorldShot { rand: s1, ..w };
                let (r1, s2) = options_flags(opts, w1, i + 1);
                match r1 {
                    Result::Err(e) => (Result::Err(e), s2),
                    Result::Ok(rest) => (Result::Ok(seq![b] + rest), s2),
                }
            },
        }
    }
}

/// A successful flag walk yields one flag per option.
pub proof fn lemma_options_flags_len(opts: Seq<EventOption>, w: WorldShot, i: int)
    requires
        0 <= i <= opts.len(),
    ensures
        options_flags(opts, w, i).0 matches Result::Ok(bs) ==> bs.len() == opts.len() - i,
    decreases opts.len() - i,
{
    if i < opts.len() {
        let (r0, s1) = match opts[i].condition {
            Option::None => (Result::<bool, EvalErrV>::Ok(true), w.rand),
            Option::Some(c) => eval_cond(c, w),
        };
        match r0 {
            Result::Ok(b) => {
                let w1 = WorldShot { rand: s1, ..w };
                lemma_options_flags_len(opts, w1, i + 1);
            },
            Result::Err(_) => {},
        }
    }
}

/// The first enabled index at or after `i`.
pub open spec fn first_enabled(bs: Seq<bool>, i: int) -> Option<int>
    decreases bs.len() - i,
{
    if i < 0 || i >= bs.len() {
        None
    } else if bs[i] {
        Some(i)
    } else {
        first_enabled(bs, i + 1)
    }
}

/// The running-event pointer after an option is chosen: a different-event
/// jump activates the target, a same-event jump moves to the named segment,
/// and the absence of any jump ends the event.
pub open spec fn spec_jump(opt: EventOption, cur: (String, Option<String>)) -> Option<
    (String, Option<String>),
> {
    match (opt.jump_to_event, opt.jump_to) {
        (Option::None, Option::None) => None,
        (Option::Some(e2), s2) => Some((e2, s2)),
        (Option::None, Option::Some(sg)) => Some((cur.0, Some(sg))),
    }
}

/// One tag inserted into a trigger set, when not yet a member.
pub open spec fn spec_insert(set: Seq<Trigger>, t: Trigger) -> Seq<Trigger> {
    if trig_in(set, t) {
        set
    } else {
        set.push(t)
    }
}

/// The tags from index `i` on inserted into a trigger set, in order.
pub open spec fn insert_all(set: Seq<Trigger>, ts: Seq<Trigger>, i: int) -> Seq<Trigger>
    decreases ts.len() - i,
{
    if i < 0 || i >= ts.len() {
        set
    } else {
        insert_all(spec_insert(set, ts[i]), ts, i + 1)
    }
}

/// The step outcome when the pointer resolves to nothing: the machine is
/// idle, nothing is rendered, and no draw is consumed.
pub open spec fn post_idle(
    r: Result<SegmentStep, GameErr>,
    new_ptr: Option<(String, Option<String>)>,
    s0: u64,
    s1: u64,
) -> bool {
    &&& (r matches Ok(st) && st matches SegmentStep::Finished { text } && text is None)
    &&& new_ptr is None
    &&& s1 == s0
}

/// The step outcome on a segment without options: its text is rendered, the
/// machine is idle, and no draw is consumed.
pub open spec fn post_terminal(
    seg: EventSegment,
    r: Result<SegmentStep, GameErr>,
    new_ptr: Option<(String, Option<String>)>,
    s0: u64,
    s1: u64,
) -> bool {
    &&& (r matches Ok(st) && st matches SegmentStep::Finished { text } && text matches Some(t)
        && t@ == seg.text@)
    &&& new_ptr is None
    &&& s1 == s0
}

/// The step outcome of a silent segment: its first enabled option is picked,
/// and having none is the reported error.
pub open spec fn post_silent(seg: EventSegment, bs: Seq<bool>, r: Result<
    SegmentStep,
    GameErr,
>) -> bool {
    match first_enabled(bs, 0) {
        Some(p) => r matches Ok(st) && st matches SegmentStep::AutoChoice { text, pick } && text@
            == seg.text@ && pick == p,
        None => r == Result::<SegmentStep, GameErr>::Err(GameErr::NoEnabledOption),
    }
}

/// The step outcome of a segment awaiting a choice: the text, each option's
/// text with its enabled flag, and the hide-disabled flag are handed out.
pub open spec fn post_await(seg: EventSegment, bs: Seq<bool>, r: Result<
    SegmentStep,
    GameErr,
>) -> bool {
    r matches Ok(st) && st matches SegmentStep::AwaitChoice { text, options, hide_disabled }
        && text@ == seg.text@ && hide_disabled == seg.hide_disabled_options && options@.len()
        == seg.options@.len() && (forall|q: int|
        0 <= q < bs.len() ==> #[trigger] options@[q].0@ == seg.options@[q].text@ && options@[q].1
            == bs[q])
}

/// The step outcome of a segment with options, by the flags' evaluation: an
/// evaluation failure is reported, a silent segment picks by itself, and any
/// other awaits a choice.
pub open spec fn post_flags(
    seg: EventSegment,
    res: Result<Seq<bool>, EvalErrV>,
    r: Result<SegmentStep, GameErr>,
) -> bool {
    match res {
        Result::Err(e) => r matches Err(g) && g@ == crate::game::GameErrV::Eval(e),
        Result::Ok(bs) => if seg.silent {
            post_silent(seg, bs, r)
        } else {
            post_await(seg, bs, r)
        },
    }
}

/// The step outcome on a resolved segment.
pub open spec fn post_resolved(
    seg: EventSegment,
    w0: WorldShot,
    old_ptr: Option<(String, Option<String>)>,
    r: Result<SegmentStep, GameErr>,
    new_ptr: Option<(String, Option<String>)>,
    s1: u64,
) -> bool {
    if seg.options@.len() == 0 {
        post_terminal(seg, r, new_ptr, w0.rand, s1)
    } else {
        let (res, s) = options_flags(seg.options@, w0, 0);
        &&& s1 == s
        &&& new_ptr == old_ptr
        &&& post_flags(seg, res, r)
    }
}

/// The whole outcome of one begun step, by what the pointer resolves to.
pub open spec fn begin_step_post(
    evs: Seq<EventData>,
    old_ptr: Option<(String, Option<String>)>,
    w0: WorldShot,
    r: Result<SegmentStep, GameErr>,
    new_ptr: Option<(String, Option<String>)>,
    s1: u64,
) -> bool {
    match resolve(evs, old_ptr) {
        None => post_idle(r, new_ptr, w0.rand, s1),
        Some(jk) => post_resolved(evs[jk.0].segments@[jk.1], w0, old_ptr, r, new_ptr, s1),
    }
}

/// After a failing choice: the world stands as the failing step left it and
/// the bookkeeping is untouched.
pub open spec fn choice_post_err(
    em: crate::game::GameErrV,
    r: Result<Option<AvatarSet>, GameErr>,
    old_p: Player,
    new_p: Player,
) -> bool {
    &&& (r matches Err(e) && e@ == em)
    &&& new_p.cur_evt_seg == old_p.cur_evt_seg
    &&& new_p.trigger == old_p.trigger
    &&& new_p.stuck_in_event == old_p.stuck_in_event
}

/// After a successful choice: the avatar directive is handed back, the
/// pointer follows the jump, the emitted triggers join the active set, and
/// the stuck flag follows the event while one stays active.
pub open spec fn choice_post_ok(
    opt: EventOption,
    ev: EventData,
    r: Result<Option<AvatarSet>, GameErr>,
    old_p: Player,
    new_p: Player,
) -> bool {
    &&& (r matches Ok(av) && av == opt.avatar_set)
    &&& new_p.cur_evt_seg == spec_jump(opt, old_p.cur_evt_seg->0)
    &&& new_p.trigger@ == (match opt.trigger {
        Option::Some(ts) => insert_all(old_p.trigger@, ts@, 0),
        Option::None => old_p.trigger@,
    })
    &&& new_p.stuck_in_event == (new_p.cur_evt_seg is Some && ev.stuck_moving)
}

/// The whole outcome of one applied choice: the modifier's exact effect on
/// the world, then the bookkeeping of a success or the standstill of a
/// failure.
pub open spec fn apply_choice_post(
    evs: Seq<EventData>,
    maps: Seq<crate::map_system::MapNode>,
    choice: int,
    old_p: Player,
    s0: u64,
    r: Result<Option<AvatarSet>, GameErr>,
    new_p: Player,
    s1: u64,
) -> bool {
    let jk = resolve(evs, old_p.cur_evt_seg)->0;
    let opt = evs[jk.0].segments@[jk.1].options@[choice];
    let (w2, res) = apply_modifier(opt.modifier, old_p.shot(s0), old_p.attribute_defs@, maps);
    &&& new_p.shot(s1) == w2
    &&& match res {
        Result::Err(em) => choice_post_err(em, r, old_p, new_p),
        Result::Ok(()) => choice_post_ok(opt, evs[jk.0], r, old_p, new_p),
    }
}

impl AvatarSet {
    /// A copy naming the same directive.
    pub fn duplicate(&self) -> (r: AvatarSet)
        ensures
            r == *self,
    {
        match self {
            AvatarSet::Main(s) => AvatarSet::Main(s.clone()),
            AvatarSet::Deco(s) => AvatarSet::Deco(s.clone()),
            AvatarSet::MainKeepingDeco(s) => AvatarSet::MainKeepingDeco(s.clone()),
        }
    }
}

/// A copy of a running-event pointer.
pub fn clone_pointer(p: &Option<(String, Option<String>)>) -> (r: Option<(String, Option<String>)>)
    ensures
        r == *p,
{
    match p {
        Option::None => None,
        Option::Some(cur) => {
            let seg = match &cur.1 {
                Option::None => None,
                Option::Some(s) => Some(s.clone()),
            };
            Some((cur.0.clone(), seg))
        },
    }
}

/// Computes each option's display text and enabled flag: an option is
/// enabled when its condition is absent or holds. The first evaluation
/// failure stops the walk.
/// The enabled flag of every option, in order: an option is enabled when its
/// condition is absent or holds. The first evaluation failure stops the walk.
fn eval_flags(
    opts: &Vec<EventOption>,
    time: &TimeSystem,
    player: &Player,
    rand: &mut Rand,
) -> (r: Result<Vec<bool>, crate::conditions::EvalErr>)
    ensures
        ({
            let (res, s) = options_flags(opts@, player.shot(old(rand).state), 0);
            final(rand).state == s && (match r {
                Result::Ok(v) => res == Result::<Seq<bool>, EvalErrV>::Ok(v@),
                Result::Err(e) => res == Result::<Seq<bool>, EvalErrV>::Err(e@),
            })
        }),
{
    let ghost w0 = player.shot(rand.state);
    let mut flags: Vec<bool> = Vec::new();
    let n = opts.len();
    for i in 0..n
        invariant
            n == opts@.len(),
            flags@.len() == i,
            w0 == player.shot(w0.rand),
            ({
                let (res, s) = options_flags(opts@, w0, 0);
                let (res_i, s_i) = options_flags(opts@, player.shot(rand.state), i as int);
                s == s_i && (match res_i {
                    Result::Ok(rest) => res == Result::<Seq<bool>, EvalErrV>::Ok(flags@ + rest),
                    Result::Err(e) => res == Result::<Seq<bool>, EvalErrV>::Err(e),
                })
            }),
    {
        let ghost s_pre = rand.state;
        let enabled = match &opts[i].condition {
            Option::None => true,
            Option::Some(c) => {
                match c.is_met(time, player, rand) {
                    Ok(b) => b,
                    Err(e) => {
                        return Err(e);
                    },
                }
            },
        };
        let ghost flags_pre = flags@;
        flags.push(enabled);
        proof {
            let w_pre = player.shot(s_pre);
            let w_next = WorldShot { rand: rand.state, ..w_pre };
            assert(w_next == player.shot(rand.state));
            let (res_n, s_n) = options_flags(opts@, w_next, i + 1);
            match res_n {
                Result::Ok(rest) => {
                    assert(flags_pre + (seq![enabled] + rest) =~= flags@ + rest);
                },
                Result::Err(_) => {},
            }
        }
    }
    proof {
        assert(options_flags(opts@, player.shot(rand.state), n as int).0 == Result::<
            Seq<bool>,
            EvalErrV,
        >::Ok(Seq::empty()));
        assert(flags@ + Seq::<bool>::empty() =~= flags@);
    }
    Ok(flags)
}

/// Each option's display text with its enabled flag.
fn zip_option_texts(opts: &Vec<EventOption>, flags: &Vec<bool>) -> (r: Vec<(String, bool)>)
    requires
        opts@.len() == flags@.len(),
    ensures
        r@.len() == opts@.len(),
        forall|q: int| 0 <= q < opts@.len() ==> #[trigger] r@[q].0@ == opts@[q].text@ && r@[q].1
            == flags@[q],
{
    let mut out: Vec<(String, bool)> = Vec::new();
    let n = opts.len();
    for i in 0..n
        invariant
            n == opts@.len(),
            n == flags@.len(),
            out@.len() == i,
            forall|q: int| 0 <= q < i ==> #[trigger] out@[q].0@ == opts@[q].text@ && out@[q].1
                == flags@[q],
    {
        let ghost pre = out@;
        out.push((opts[i].text.clone(), flags[i]));
        proof {
            assert(out@[i as int].0@ == opts@[i as int].text@);
            assert(out@[i as int].1 == flags@[i as int]);
            assert(forall|q: int| 0 <= q < i ==> out@[q] == pre[q]);
        }
    }
    out
}

/// The index of the segment named `k` in the list, if any.
pub fn lookup_segment(segments: &Vec<EventSegment>, k: &str) -> (r: Option<usize>)
    ensures
        r is Some <==> segment_idx(segments@, k@, 0) is Some,
        r matches Some(j) ==> segment_idx(segments@, k@, 0) == Some(j as int) && j
            < segments@.len(),
{
    let n = segments.len();
    for i in 0..n
        invariant
            n == segments.len(),
            segment_idx(segments@, k@, 0) == segment_idx(segments@, k@, i as int),
    {
        if crate::strutil::str_eq(segments[i].name.as_str(), k) {
            return Some(i);
        }
    }
    None
}

} // verus!
