//! Conditions: pure boolean predicates over the world state.
//!
//! A condition is a recursive tagged union. Evaluation is pure except for the
//! random variant, which draws from the injectable generator of `rng`; the
//! whole evaluation is a function of the condition, the world and the
//! generator's state, and every subcondition of a connective is evaluated, in
//! order, so the draws consumed do not depend on truth values. A check that
//! names a missing attribute is a typed evaluation failure.

use vstd::prelude::*;
use crate::player::Player;
use crate::player::WorldShot;
use crate::player::key_idx;
use crate::items::PayloadV;
use crate::items::spec_has_tag;
use crate::rng::Rand;
use crate::rng::draw_value;
use crate::rng::lcg_next;
use crate::time_system::TimeSystem;
use crate::time_system::time_met;
use crate::strutil::contains_str;

verus! {

/// The scale of random-condition probabilities: a probability is given in
/// millionths.
pub const PROB_SCALE: u64 = 1000000;

/// A time window: the current day of the week must be allowed, the minute of
/// the day must lie in `[start, end]`, and, when `times` is given, must equal
/// one of its entries exactly. Minutes count from midnight; days count from
/// Monday as 0.
pub struct TimeCondition {
    pub start: u16,
    pub end: u16,
    pub days: Vec<u8>,
    pub times: Option<Vec<u16>>,
}

/// Membership of the current location in a set of locations.
pub struct LocationCondition {
    pub locations: Vec<String>,
}

/// Bounds on one attribute's value; both bounds are exclusive.
pub struct AttributeCheck {
    pub greater_than: Option<i32>,
    pub less_than: Option<i32>,
}

/// Checks over named attributes; every named attribute must exist and satisfy
/// its bounds, and a missing attribute is an evaluation failure.
pub struct PlayerAttributeCondition {
    pub attributes: Vec<(String, AttributeCheck)>,
}

/// A check over one item: an existence expectation, exclusive count bounds,
/// and an expected tag of a structured payload.
#[derive(Clone)]
pub struct ItemCheck {
    pub expect_existence: Option<bool>,
    pub expect_tags: Option<String>,
    pub more_than: Option<usize>,
    pub less_than: Option<usize>,
}

/// Checks over named items; every named check must pass.
pub struct PlayerItemContition {
    pub items: Vec<(String, ItemCheck)>,
}

/// A list of subconditions of a logical connective.
pub struct ConditionGroup {
    pub conds: Vec<Condition>,
}

/// A condition over the world state. `RandomCondition(p)` holds with
/// probability `p` millionths, drawn fresh from the injectable generator on
/// every evaluation; values of `p` at or above one million always hold.
pub enum Condition {
    Time(TimeCondition),
    Location(LocationCondition),
    PlayerAttribute(PlayerAttributeCondition),
    PlayerItem(PlayerItemContition),
    RandomCondition(u32),
    And(ConditionGroup),
    Or(ConditionGroup),
    Xor(ConditionGroup),
    False,
    True,
}

/// A typed evaluation failure: a check or a mutation referenced an attribute
/// that the store does not hold, by name or by positional index.
#[derive(Debug, PartialEq, Eq)]
pub enum EvalErr {
    MissingAttribute(String),
    MissingAttributeIndex(usize),
}

/// The mathematical value of an evaluation failure.
pub enum EvalErrV {
    MissingAttribute(Seq<char>),
    MissingAttributeIndex(int),
}

impl View for EvalErr {
    type V = EvalErrV;

    open spec fn view(&self) -> EvalErrV {
        match self {
            EvalErr::MissingAttribute(s) => EvalErrV::MissingAttribute(s@),
            EvalErr::MissingAttributeIndex(i) => EvalErrV::MissingAttributeIndex(*i as int),
        }
    }
}

/// The mathematical value of an evaluation result.
pub open spec fn res_view(r: Result<bool, EvalErr>) -> Result<bool, EvalErrV> {
    match r {
        Result::Ok(b) => Result::Ok(b),
        Result::Err(e) => Result::Err(e@),
    }
}

/// Whether one attribute value passes its exclusive bounds.
pub open spec fn attr_check_ok(chk: AttributeCheck, v: i32) -> bool {
    &&& !(chk.greater_than matches Some(g) && g >= v)
    &&& !(chk.less_than matches Some(l) && l <= v)
}

/// The attribute checks from index `i` on: the first check whose attribute is
/// missing fails the evaluation; the first check whose bounds fail makes the
/// condition false; otherwise all must pass.
pub open spec fn attr_checks(
    checks: Seq<(String, AttributeCheck)>,
    attrs: Seq<(Seq<char>, i32)>,
    i: int,
) -> Result<bool, EvalErrV>
    decreases checks.len() - i,
{
    if i < 0 || i >= checks.len() {
        Result::Ok(true)
    } else {
        match key_idx(attrs, checks[i].0@, 0) {
            None => Result::Err(EvalErrV::MissingAttribute(checks[i].0@)),
            Some(j) => if !attr_check_ok(checks[i].1, attrs[j].1) {
                Result::Ok(false)
            } else {
                attr_checks(checks, attrs, i + 1)
            },
        }
    }
}

/// Whether one item check passes against the inventory. An absent item passes
/// only when it is expected absent; a present item must meet its exclusive
/// count bounds, and a requested tag must be present in a structured payload,
/// a scalar payload failing any tag request.
pub open spec fn item_check_ok(
    name: Seq<char>,
    chk: ItemCheck,
    items: Seq<(Seq<char>, (PayloadV, int))>,
) -> bool {
    let found = key_idx(items, name, 0);
    if chk.expect_existence matches Some(e) && (found is Some) != e {
        false
    } else {
        match found {
            None => chk.expect_existence == Some(false),
            Some(j) => {
                let payload = items[j].1.0;
                let count = items[j].1.1;
                &&& !(chk.more_than matches Some(m) && m >= count)
                &&& !(chk.less_than matches Some(l) && l <= count)
                &&& (match payload {
                    PayloadV::Table(tags) => match chk.expect_tags {
                        Some(t) => exists|k: int| 0 <= k < tags.len() && tags[k] == t@,
                        None => true,
                    },
                    _ => chk.expect_tags is None,
                })
            },
        }
    }
}

/// The item checks from index `i` on: all must pass.
pub open spec fn item_checks(
    checks: Seq<(String, ItemCheck)>,
    items: Seq<(Seq<char>, (PayloadV, int))>,
    i: int,
) -> bool
    decreases checks.len() - i,
{
    if i < 0 || i >= checks.len() {
        true
    } else if !item_check_ok(checks[i].0@, checks[i].1, items) {
        false
    } else {
        item_checks(checks, items, i + 1)
    }
}

/// Whether every member of a list of truth values is true; vacuously true.
pub open spec fn all_true(bs: Seq<bool>) -> bool {
    forall|i: int| 0 <= i < bs.len() ==> bs[i]
}

/// Whether some member of a list of truth values is true; vacuously false.
pub open spec fn any_true(bs: Seq<bool>) -> bool {
    exists|i: int| 0 <= i < bs.len() && bs[i]
}

/// How many members of a list of truth values are true.
pub open spec fn count_true(bs: Seq<bool>) -> int
    decreases bs.len(),
{
    if bs.len() == 0 {
        0
    } else {
        count_true(bs.drop_last()) + if bs.last() {
            1int
        } else {
            0int
        }
    }
}

/// Whether an odd number of members of a list of truth values are true;
/// vacuously false.
pub open spec fn odd_true(bs: Seq<bool>) -> bool {
    count_true(bs) % 2 == 1
}

/// The truth value and next generator state of a condition against a world,
/// or the failure it stops on. Evaluation is a pure function of the condition
/// and the world snapshot, the random draw included.
pub open spec fn eval_cond(c: Condition, w: WorldShot) -> (Result<bool, EvalErrV>, u64)
    decreases c, 0int, 0int,
{
    match c {
        Condition::Time(tc) => (Result::Ok(time_met(tc, w.time)), w.rand),
        Condition::Location(lc) => (Result::Ok(contains_str(lc.locations@, w.game_map)), w.rand),
        Condition::PlayerAttribute(pc) => (attr_checks(pc.attributes@, w.attrs, 0), w.rand),
        Condition::PlayerItem(ic) => (Result::Ok(item_checks(ic.items@, w.items, 0)), w.rand),
        Condition::RandomCondition(p) => (
            Result::Ok(draw_value(w.rand, PROB_SCALE) < p as u64),
            lcg_next(w.rand),
        ),
        Condition::And(g) => {
            let (r, s) = eval_seq(g.conds@, w, 0);
            (
                match r {
                    Result::Ok(bs) => Result::Ok(all_true(bs)),
                    Result::Err(e) => Result::Err(e),
                },
                s,
            )
        },
        Condition::Or(g) => {
            let (r, s) = eval_seq(g.conds@, w, 0);
            (
                match r {
                    Result::Ok(bs) => Result::Ok(any_true(bs)),
                    Result::Err(e) => Result::Err(e),
                },
                s,
            )
        },
        Condition::Xor(g) => {
            let (r, s) = eval_seq(g.conds@, w, 0);
            (
                match r {
                    Result::Ok(bs) => Result::Ok(odd_true(bs)),
                    Result::Err(e) => Result::Err(e),
                },
                s,
            )
        },
        Condition::False => (Result::Ok(false), w.rand),
        Condition::True => (Result::Ok(true), w.rand),
    }
}

/// The truth values of the conditions from index `i` on, threading the
/// generator state left to right; the first failure stops the evaluation.
pub open spec fn eval_seq(cs: Seq<Condition>, w: WorldShot, i: int) -> (
    Result<Seq<bool>, EvalErrV>,
    u64,
)
    decreases cs, cs.len() - i, 1int,
{
    if i < 0 || i >= cs.len() {
        (Result::Ok(Seq::empty()), w.rand)
    } else {
        let (r0, s1) = eval_cond(cs[i], w);
        match r0 {
            Result::Err(e) => (Result::Err(e), s1),
            Result::Ok(b) => {
                let w1 = WorldShot { rand: s1, ..w };
                let (r1, s2) = eval_seq(cs, w1, i + 1);
                match r1 {
                    Result::Err(e) => (Result::Err(e), s2),
                    Result::Ok(rest) => (Result::Ok(seq![b] + rest), s2),
                }
            },
        }
    }
}

/// An empty conjunction holds vacuously, an empty disjunction and an empty
/// parity do not, whatever the world, and no draw is consumed by any of them.
pub proof fn lemma_empty_connectives(g: ConditionGroup, w: WorldShot)
    requires
        g.conds@.len() == 0,
    ensures
        eval_cond(Condition::And(g), w) == (Result::<bool, EvalErrV>::Ok(true), w.rand),
        eval_cond(Condition::Or(g), w) == (Result::<bool, EvalErrV>::Ok(false), w.rand),
        eval_cond(Condition::Xor(g), w) == (Result::<bool, EvalErrV>::Ok(false), w.rand),
{
    assert(all_true(Seq::<bool>::empty()));
    assert(!any_true(Seq::<bool>::empty()));
    assert(count_true(Seq::<bool>::empty()) == 0);
}

/// The parity law: a Xor connective holds exactly when an odd number of its
/// subconditions hold, the subconditions' truth values being those of the
/// left-to-right evaluation.
pub proof fn lemma_xor_parity(g: ConditionGroup, w: WorldShot, bs: Seq<bool>)
    requires
        eval_seq(g.conds@, w, 0).0 == Result::<Seq<bool>, EvalErrV>::Ok(bs),
    ensures
        eval_cond(Condition::Xor(g), w).0 == Result::<bool, EvalErrV>::Ok(
            count_true(bs) % 2 == 1,
        ),
{
}

/// How appending one truth value changes the three folds.
proof fn lemma_fold_push(bs: Seq<bool>, b: bool)
    ensures
        all_true(bs.push(b)) == (all_true(bs) && b),
        any_true(bs.push(b)) == (any_true(bs) || b),
        count_true(bs.push(b)) == count_true(bs) + if b {
            1int
        } else {
            0int
        },
{
    let p = bs.push(b);
    assert(p.drop_last() =~= bs);
    assert(p.last() == b);
    if all_true(bs) && b {
        assert forall|i: int| 0 <= i < p.len() implies p[i] by {
            if i < bs.len() {
                assert(p[i] == bs[i]);
            }
        }
    }
    if all_true(p) {
        assert forall|i: int| 0 <= i < bs.len() implies bs[i] by {
            assert(p[i]);
        }
        assert(p[bs.len() as int]);
    }
    if any_true(bs) {
        let i = choose|i: int| 0 <= i < bs.len() && bs[i];
        assert(p[i]);
    }
    if b {
        assert(p[bs.len() as int]);
    }
    if any_true(p) {
        let i = choose|i: int| 0 <= i < p.len() && p[i];
        if i < bs.len() {
            assert(bs[i]);
        }
    }
}

impl Condition {
    /// Evaluates the condition against the world state, drawing any random
    /// values from the given generator; pure otherwise. A check naming a
    /// missing attribute is reported as a typed failure.
    pub fn is_met(&self, time: &TimeSystem, player: &Player, rand: &mut Rand) -> (r: Result<
        bool,
        EvalErr,
    >)
        ensures
            ({
                let (res, s) = eval_cond(*self, player.shot(old(rand).state));
                res_view(r) == res && final(rand).state == s
            }),
        decreases *self, 0int, 0int,
    {
        match self {
            Condition::Time(tc) => Ok(time.check_condition(player, tc)),
            Condition::Location(lc) => Ok(
                crate::strutil::contains_name(&lc.locations, player.game_map.as_str()),
            ),
            Condition::PlayerAttribute(pc) => {
                let ghost attrs = player.attributes@;
                let n = pc.attributes.len();
                for i in 0..n
                    invariant
                        n == pc.attributes.len(),
                        attrs == player.attributes@,
                        attr_checks(pc.attributes@, attrs, 0) == attr_checks(
                            pc.attributes@,
                            attrs,
                            i as int,
                        ),
                {
                    let entry = &pc.attributes[i];
                    match player.attributes.index_of(entry.0.as_str()) {
                        None => {
                            return Err(EvalErr::MissingAttribute(entry.0.clone()));
                        },
                        Some(j) => {
                            proof {
                                assert(player.attributes@[j as int].1 == player.attributes.val@[
                                    j as int].1);
                            }
                            let v = player.attributes.val[j].1;
                            let mut pass = true;
                            match entry.1.greater_than {
                                Some(g) => {
                                    if g >= v {
                                        pass = false;
                                    }
                                },
                                None => {},
                            }
                            match entry.1.less_than {
                                Some(l) => {
                                    if l <= v {
                                        pass = false;
                                    }
                                },
                                None => {},
                            }
                            proof {
                                assert(pass == attr_check_ok(
                                    pc.attributes@[i as int].1,
                                    attrs[j as int].1,
                                ));
                            }
                            if !pass {
                                return Ok(false);
                            }
                        },
                    }
                }
                Ok(true)
            },
            Condition::PlayerItem(ic) => {
                let ghost items = player.items@;
                let n = ic.items.len();
                for i in 0..n
                    invariant
                        n == ic.items.len(),
                        items == player.items@,
                        item_checks(ic.items@, items, 0) == item_checks(
                            ic.items@,
                            items,
                            i as int,
                        ),
                {
                    let entry = &ic.items[i];
                    if !item_entry_check(player, entry) {
                        return Ok(false);
                    }
                }
                Ok(true)
            },
            Condition::RandomCondition(p) => {
                let d = rand.next_below(PROB_SCALE);
                Ok(d < *p as u64)
            },
            Condition::And(g) => {
                match eval_all(&g.conds, time, player, rand) {
                    Ok(f) => Ok(f.0),
                    Err(e) => Err(e),
                }
            },
            Condition::Or(g) => {
                match eval_all(&g.conds, time, player, rand) {
                    Ok(f) => Ok(f.1),
                    Err(e) => Err(e),
                }
            },
            Condition::Xor(g) => {
                match eval_all(&g.conds, time, player, rand) {
                    Ok(f) => Ok(f.2),
                    Err(e) => Err(e),
                }
            },
            Condition::False => Ok(false),
            Condition::True => Ok(true),
        }
    }
}

/// Whether one item check passes against the world's inventory.
fn item_entry_check(player: &Player, entry: &(String, ItemCheck)) -> (r: bool)
    ensures
        r == item_check_ok(entry.0@, entry.1, player.items@),
{
    let found = player.items.find_index(entry.0.as_str());
    match &entry.1.expect_existence {
        Some(e) => {
            if found.is_some() != *e {
                return false;
            }
        },
        None => {},
    }
    match found {
        None => match entry.1.expect_existence {
            Some(e) => !e,
            None => false,
        },
        Some(j) => {
            proof {
                assert(player.items@[j as int].1.0 == player.items.entries@[j as int].1.0@);
                assert(player.items@[j as int].1.1 == player.items.entries@[j as int].1.1 as int);
            }
            let item = &player.items.entries[j].1;
            let num = item.1;
            match entry.1.more_than {
                Some(m) => {
                    if m >= num {
                        return false;
                    }
                },
                None => {},
            }
            match entry.1.less_than {
                Some(l) => {
                    if l <= num {
                        return false;
                    }
                },
                None => {},
            }
            if !item.0.is_table() {
                entry.1.expect_tags.is_none()
            } else {
                match &entry.1.expect_tags {
                    Some(t) => {
                        proof {
                            crate::items::lemma_has_tag_view(
                                player.items.entries@[j as int].1.0,
                                t@,
                            );
                        }
                        item.0.has_tag(t.as_str())
                    },
                    None => true,
                }
            }
        },
    }
}

/// Evaluates every condition of a group in order and folds the results three
/// ways: all true, any true, an odd number true.
fn eval_all(cs: &Vec<Condition>, time: &TimeSystem, player: &Player, rand: &mut Rand) -> (r: Result<
    (bool, bool, bool),
    EvalErr,
>)
    ensures
        ({
            let (res, s) = eval_seq(cs@, player.shot(old(rand).state), 0);
            final(rand).state == s && (match r {
                Result::Ok(f) => res matches Result::Ok(bs) && f.0 == all_true(bs) && f.1
                    == any_true(bs) && f.2 == odd_true(bs),
                Result::Err(e) => res == Result::<Seq<bool>, EvalErrV>::Err(e@),
            })
        }),
    decreases cs@, 0int, 0int,
{
    let ghost w0 = player.shot(rand.state);
    let mut conj = true;
    let mut disj = false;
    let mut xr = false;
    let ghost mut bs: Seq<bool> = Seq::empty();
    let n = cs.len();
    for i in 0..n
        invariant
            n == cs.len(),
            bs.len() == i,
            conj == all_true(bs),
            disj == any_true(bs),
            xr == odd_true(bs),
            w0 == player.shot(w0.rand),
            ({
                let (res, s) = eval_seq(cs@, w0, 0);
                let (res_i, s_i) = eval_seq(cs@, player.shot(rand.state), i as int);
                s == s_i && (match res_i {
                    Result::Ok(rest) => res == Result::<Seq<bool>, EvalErrV>::Ok(bs + rest),
                    Result::Err(e) => res == Result::<Seq<bool>, EvalErrV>::Err(e),
                })
            }),
    {
        let ghost s_pre = rand.state;
        let c = &cs[i];
        match c.is_met(time, player, rand) {
            Err(e) => {
                proof {
                    let w_pre = player.shot(s_pre);
                    assert(eval_cond(cs@[i as int], w_pre).0 == Result::<bool, EvalErrV>::Err(e@));
                }
                return Err(e);
            },
            Ok(b) => {
                conj = conj && b;
                disj = disj || b;
                xr = if b {
                    !xr
                } else {
                    xr
                };
                proof {
                    let w_pre = player.shot(s_pre);
                    let s_next = eval_cond(cs@[i as int], w_pre).1;
                    let w_next = WorldShot { rand: s_next, ..w_pre };
                    assert(w_next == player.shot(s_next));
                    lemma_fold_push(bs, b);
                    let (res_n, s_n) = eval_seq(cs@, w_next, i + 1);
                    match res_n {
                        Result::Ok(rest) => {
                            assert(bs + (seq![b] + rest) =~= bs.push(b) + rest);
                        },
                        Result::Err(_) => {},
                    }
                    bs = bs.push(b);
                }
            },
        }
    }
    proof {
        assert(eval_seq(cs@, player.shot(rand.state), n as int).0 == Result::<
            Seq<bool>,
            EvalErrV,
        >::Ok(Seq::empty()));
        assert(bs + Seq::<bool>::empty() =~= bs);
    }
    Ok((conj, disj, xr))
}

} // verus!
