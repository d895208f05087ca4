//! Modifiers: state-mutation instructions applied when an option is chosen.
//!
//! A modifier is a recursive tagged union: attribute mutation, item mutation,
//! position mutation, an ordered group, a conditional group, and a no-op.
//! This file holds the value-level operations; the whole-world application
//! lives with the world state.

use vstd::prelude::*;
use crate::items::ItemPayload;
use crate::items::PayloadV;
use crate::player::Attribute;
use crate::player::Player;
use crate::player::WorldShot;
use crate::player::key_idx;
use crate::player::items_wf;
use crate::player::spec_modify_attrs;
use crate::player::spec_modify_attr_err;
use crate::map_system::MapNode;
use crate::map_system::MapSystem;
use crate::map_system::travel_ok;
use crate::conditions::eval_cond;
use crate::time_system::TimeSystem;
use crate::rng::Rand;
use crate::game::GameErr;
use crate::game::GameErrV;
use crate::game::unit_res_view;

verus! {

/// How an attribute-mutation target is addressed: by name, by positional
/// index, or not at all.
pub enum Identity {
    Str(String),
    Index(usize),
    NoOp,
}

/// A state-mutation instruction: attribute mutation, item mutation, position
/// mutation, an ordered group applied first to last, a conditional group
/// applied only when its condition holds (absence means it holds), and a
/// no-op. A failing member of a group aborts the remainder.
pub enum Modifier {
    Attribute { attr: Identity, val: ValModifier },
    Item { item: String, modify: ItemModifier },
    Position { towards: String, check: bool },
    Group(Vec<Modifier>),
    Condition { group: Vec<Modifier>, cond: Option<crate::conditions::Condition> },
    NoOp,
}

/// An operation on one attribute value. `Mul` multiplies by the rational
/// factor `num / den`, truncating toward zero; a zero `den` names no factor
/// and leaves the value unchanged. `Sqrt10` rescales a non-negative value `v`
/// to the integer part of `10 * sqrt(v)`, and takes a negative value to zero.
pub enum ValModifier {
    Add(i32),
    Mul { num: i32, den: u32 },
    Sqrt10,
    NoOp,
}

/// An operation on one inventory item. `Add` raises the count and may replace
/// the payload; `Sub` lowers the count, floored at zero, but only when no
/// guard payload is given or the guard equals the stored payload; `ModifyVal`
/// replaces the payload and keeps the count.
pub enum ItemModifier {
    Add { add: usize, val: Option<ItemPayload> },
    Sub { sub: usize, val: Option<ItemPayload> },
    ModifyVal { val: ItemPayload },
    NoOp,
}

/// Division truncating toward zero, for a positive divisor.
pub open spec fn trunc_div(a: int, b: int) -> int {
    if a >= 0 {
        a / b
    } else {
        -((-a) / b)
    }
}

/// The integer square root: the greatest `r` with `r * r <= n`.
pub open spec fn isqrt_spec(n: nat) -> nat
    decreases n,
{
    if n == 0 {
        0
    } else {
        let r = isqrt_spec((n - 1) as nat);
        if (r + 1) * (r + 1) <= n {
            r + 1
        } else {
            r
        }
    }
}

/// The integer square root of `n` lies between the squares around `n`.
pub proof fn lemma_isqrt_bounds(n: nat)
    ensures
        isqrt_spec(n) * isqrt_spec(n) <= n,
        n < (isqrt_spec(n) + 1) * (isqrt_spec(n) + 1),
    decreases n,
{
    if n == 0 {
        let s = isqrt_spec(n);
        assert(s == 0);
        assert((s + 1) * (s + 1) == 1) by (nonlinear_arith)
            requires
                s == 0,
        ;
    } else {
        lemma_isqrt_bounds((n - 1) as nat);
        let r = isqrt_spec((n - 1) as nat);
        if (r + 1) * (r + 1) <= n {
            assert(isqrt_spec(n) == r + 1);
            assert(n <= (r + 1) * (r + 1));
            assert((r + 2) * (r + 2) > (r + 1) * (r + 1)) by (nonlinear_arith);
            assert(n < (r + 2) * (r + 2));
        } else {
            assert(isqrt_spec(n) == r);
            assert(r * r <= n);
            assert(n < (r + 1) * (r + 1));
        }
    }
}

/// Any `r` whose square brackets `n` is the integer square root of `n`.
pub proof fn lemma_isqrt_unique(n: nat, r: nat)
    requires
        r * r <= n,
        n < (r + 1) * (r + 1),
    ensures
        r == isqrt_spec(n),
{
    lemma_isqrt_bounds(n);
    let s = isqrt_spec(n);
    if r < s {
        assert((r + 1) * (r + 1) <= s * s) by (nonlinear_arith)
            requires
                r + 1 <= s,
        ;
    }
    if s < r {
        assert((s + 1) * (s + 1) <= r * r) by (nonlinear_arith)
            requires
                s + 1 <= r,
        ;
    }
}

/// The integer square root of a 64-bit value.
pub fn isqrt(n: u64) -> (r: u64)
    ensures
        r == isqrt_spec(n as nat),
{
    let mut lo: u64 = 0;
    let mut hi: u64 = 0x1_0000_0000;
    while lo + 1 < hi
        invariant
            lo < hi <= 0x1_0000_0000,
            (lo as int) * (lo as int) <= n as int,
            (n as int) < (hi as int) * (hi as int),
        decreases hi - lo,
    {
        let mid = lo + (hi - lo) / 2;
        assert(lo < mid < hi);
        proof {
            assert((mid as int) * (mid as int) <= 0xffff_ffff * 0xffff_ffff) by (nonlinear_arith)
                requires
                    0 <= mid <= 0xffff_ffff,
            ;
        }
        if mid * mid <= n {
            lo = mid;
        } else {
            hi = mid;
        }
    }
    proof {
        lemma_isqrt_unique(n as nat, lo as nat);
    }
    lo
}

/// Division of `a` by a positive `b`, truncating toward zero.
pub fn trunc_div_i64(a: i64, b: i64) -> (r: i64)
    requires
        b > 0,
        -0x4000_0000_0000_0000 <= a <= 0x4000_0000_0000_0000,
    ensures
        r == trunc_div(a as int, b as int),
{
    if a >= 0 {
        ((a as u64) / (b as u64)) as i64
    } else {
        let m = ((-a) as u64) / (b as u64);
        -(m as i64)
    }
}

/// The mathematical result of a value operation, before any clamping.
pub open spec fn spec_apply_val(v: ValModifier, x: i32) -> int {
    match v {
        ValModifier::Add(a) => x + a,
        ValModifier::Mul { num, den } => if den == 0 {
            x as int
        } else {
            trunc_div(x * num, den as int)
        },
        ValModifier::Sqrt10 => if x < 0 {
            0
        } else {
            isqrt_spec((100 * x) as nat) as int
        },
        ValModifier::NoOp => x as int,
    }
}

/// The 32-bit saturation of a mathematical value.
pub open spec fn sat_i32(x: int) -> int {
    crate::clamp(x, i32::MIN as int, i32::MAX as int)
}

impl ValModifier {
    /// Applies the operation to one value, saturating at the 32-bit bounds.
    pub fn apply(&self, val: &mut i32)
        ensures
            *final(val) == sat_i32(spec_apply_val(*self, *old(val))),
    {
        match self {
            ValModifier::Add(a) => {
                let wide: i64 = *val as i64 + *a as i64;
                *val = sat_to_i32(wide);
            },
            ValModifier::Mul { num, den } => {
                if *den != 0 {
                    proof {
                        assert(-0x4000_0000_0000_0000 <= (*val as int) * (*num as int)
                            <= 0x4000_0000_0000_0000) by (nonlinear_arith)
                            requires
                                -0x8000_0000 <= *val <= 0x7fff_ffff,
                                -0x8000_0000 <= *num <= 0x7fff_ffff,
                        ;
                    }
                    let prod: i64 = (*val as i64) * (*num as i64);
                    let q = trunc_div_i64(prod, *den as i64);
                    *val = sat_to_i32(q);
                }
            },
            ValModifier::Sqrt10 => {
                if *val < 0 {
                    *val = 0;
                } else {
                    let r = isqrt((*val as u64) * 100);
                    proof {
                        let m = (100 * *val) as nat;
                        lemma_isqrt_bounds(m);
                        let s = isqrt_spec(m);
                        assert(m < 0x4000000000);
                        if s >= 0x80000 {
                            assert(s * s >= 0x4000000000) by (nonlinear_arith)
                                requires
                                    s >= 0x80000,
                            ;
                        }
                    }
                    *val = r as i32;
                }
            },
            ValModifier::NoOp => {},
        }
    }
}

/// Saturates a 64-bit value to the 32-bit range.
fn sat_to_i32(x: i64) -> (r: i32)
    ensures
        r == sat_i32(x as int),
{
    if x > i32::MAX as i64 {
        i32::MAX
    } else if x < i32::MIN as i64 {
        i32::MIN
    } else {
        x as i32
    }
}

/// The payload and count of an item entry after an item operation. A count
/// raised past the platform bound saturates there.
pub open spec fn spec_apply_item(m: ItemModifier, p: PayloadV, n: int) -> (PayloadV, int) {
    match m {
        ItemModifier::Add { add, val } => {
            let np = match val {
                Option::Some(v) => v@,
                Option::None => p,
            };
            let c = n + add;
            (np, if c > usize::MAX { usize::MAX as int } else { c })
        },
        ItemModifier::Sub { sub, val } => {
            let guard_ok = match val {
                Option::Some(v) => v@ == p,
                Option::None => true,
            };
            if guard_ok {
                (p, if n > sub { n - sub } else { 0 })
            } else {
                (p, n)
            }
        },
        ItemModifier::ModifyVal { val } => (val@, n),
        ItemModifier::NoOp => (p, n),
    }
}

impl ItemModifier {
    /// Applies the operation to one item entry of payload and count.
    pub fn apply(&self, entry: &mut (ItemPayload, usize))
        ensures
            (final(entry).0@, final(entry).1 as int) == spec_apply_item(
                *self,
                old(entry).0@,
                old(entry).1 as int,
            ),
    {
        match self {
            ItemModifier::Add { add, val } => {
                entry.1 = entry.1.saturating_add(*add);
                match val {
                    Option::Some(v) => {
                        entry.0 = v.duplicate();
                    },
                    Option::None => {},
                }
            },
            ItemModifier::Sub { sub, val } => {
                let guard_ok = match val {
                    Option::Some(v) => crate::items::payload_eq(v, &entry.0),
                    Option::None => true,
                };
                if guard_ok {
                    if entry.1 > *sub {
                        entry.1 = entry.1 - *sub;
                    } else {
                        entry.1 = 0;
                    }
                }
            },
            ItemModifier::ModifyVal { val } => {
                entry.0 = val.duplicate();
            },
            ItemModifier::NoOp => {},
        }
    }
}

/// The inventory after an item operation on the entry named `item`: a missing
/// entry makes the operation a no-op, and an entry whose count reaches zero
/// is removed.
pub open spec fn spec_modify_items(
    items: Seq<(Seq<char>, (PayloadV, int))>,
    item: Seq<char>,
    m: ItemModifier,
) -> Seq<(Seq<char>, (PayloadV, int))> {
    match key_idx(items, item, 0) {
        None => items,
        Some(j) => {
            let (p2, n2) = spec_apply_item(m, items[j].1.0, items[j].1.1);
            if n2 == 0 {
                items.remove(j)
            } else {
                items.update(j, (items[j].0, (p2, n2)))
            }
        },
    }
}

/// The world and the outcome after a modifier is applied: the exact new
/// attribute store, inventory, location and generator state, or the failure
/// that stopped the application where it stood. An attribute mutation whose
/// name or index the store does not hold is a hard typed failure.
pub open spec fn apply_modifier(
    m: Modifier,
    w: WorldShot,
    defs: Seq<Attribute>,
    maps: Seq<MapNode>,
) -> (WorldShot, Result<(), GameErrV>)
    decreases m, 0int, 0int,
{
    match m {
        Modifier::Attribute { attr, val } => {
            match spec_modify_attr_err(w.attrs, attr) {
                Result::Err(e) => (w, Result::Err(GameErrV::Eval(e))),
                Result::Ok(()) => (
                    WorldShot { attrs: spec_modify_attrs(w.attrs, defs, attr, val), ..w },
                    Result::Ok(()),
                ),
            }
        },
        Modifier::Item { item, modify } => (
            WorldShot { items: spec_modify_items(w.items, item@, modify), ..w },
            Result::Ok(()),
        ),
        Modifier::Position { towards, check } => {
            if !check {
                (WorldShot { game_map: towards@, ..w }, Result::Ok(()))
            } else {
                match travel_ok(maps, w.game_map, towards@) {
                    Result::Ok(()) => (WorldShot { game_map: towards@, ..w }, Result::Ok(())),
                    Result::Err(t) => (w, Result::Err(GameErrV::Travel(t))),
                }
            }
        },
        Modifier::Group(g) => apply_group(g@, w, defs, maps, 0),
        Modifier::Condition { group, cond } => match cond {
            Option::None => apply_group(group@, w, defs, maps, 0),
            Option::Some(c) => {
                let (res, s) = eval_cond(c, w);
                let w1 = WorldShot { rand: s, ..w };
                match res {
                    Result::Err(e) => (w1, Result::Err(GameErrV::Eval(e))),
                    Result::Ok(false) => (w1, Result::Ok(())),
                    Result::Ok(true) => apply_group(group@, w1, defs, maps, 0),
                }
            },
        },
        Modifier::NoOp => (w, Result::Ok(())),
    }
}

/// The world and the outcome after the modifiers from index `i` on are
/// applied in order; the first failure aborts the remainder.
pub open spec fn apply_group(
    ms: Seq<Modifier>,
    w: WorldShot,
    defs: Seq<Attribute>,
    maps: Seq<MapNode>,
    i: int,
) -> (WorldShot, Result<(), GameErrV>)
    decreases ms, ms.len() - i, 1int,
{
    if i < 0 || i >= ms.len() {
        (w, Result::Ok(()))
    } else {
        let (w1, r1) = apply_modifier(ms[i], w, defs, maps);
        match r1 {
            Result::Err(e) => (w1, Result::Err(e)),
            Result::Ok(()) => apply_group(ms, w1, defs, maps, i + 1),
        }
    }
}

impl Modifier {
    /// Applies the modifier to the world state. The attribute definitions,
    /// the running-event pointer, the trigger set and the stuck flag are
    /// never touched; a failure leaves the world as the failing step found
    /// it. An attribute mutation naming a missing attribute, or indexing out
    /// of range, fails hard with a typed evaluation failure.
    pub fn modify(
        &self,
        maps: &MapSystem,
        time: &TimeSystem,
        player: &mut Player,
        rand: &mut Rand,
    ) -> (r: Result<(), GameErr>)
        requires
            old(player).wf(),
        ensures
            final(player).wf(),
            final(player).attribute_defs == old(player).attribute_defs,
            final(player).cur_evt_seg == old(player).cur_evt_seg,
            final(player).trigger == old(player).trigger,
            final(player).stuck_in_event == old(player).stuck_in_event,
            final(player).game_time == old(player).game_time,
            ({
                let (w2, res) = apply_modifier(
                    *self,
                    old(player).shot(old(rand).state),
                    old(player).attribute_defs@,
                    maps.maps@,
                );
                final(player).shot(final(rand).state) == w2 && unit_res_view(r) == res
            }),
        decreases *self, 0int, 0int,
    {
        match self {
            Modifier::Attribute { attr, val } => {
                match player.modify_attribute(attr, val) {
                    Ok(()) => Ok(()),
                    Err(e) => Err(GameErr::Eval(e)),
                }
            },
            Modifier::Item { item, modify } => {
                let found = player.items.find_index(item.as_str());
                match found {
                    None => Ok(()),
                    Some(j) => {
                        let ghost items0 = player.items@;
                        let e = &mut player.items.entries[j];
                        modify.apply(&mut e.1);
                        proof {
                            assert(player.items@ =~= items0.update(
                                j as int,
                                (
                                    items0[j as int].0,
                                    spec_apply_item(
                                        *modify,
                                        items0[j as int].1.0,
                                        items0[j as int].1.1,
                                    ),
                                ),
                            ));
                        }
                        if player.items.entries[j].1.1 == 0 {
                            player.items.entries.remove(j);
                            proof {
                                let upd = items0.update(
                                    j as int,
                                    (
                                        items0[j as int].0,
                                        spec_apply_item(
                                            *modify,
                                            items0[j as int].1.0,
                                            items0[j as int].1.1,
                                        ),
                                    ),
                                );
                                upd.remove_ensures(j as int);
                                items0.remove_ensures(j as int);
                                assert(player.items@ =~= upd.remove(j as int));
                                assert(player.items@ =~= items0.remove(j as int));
                                assert(player.items@ =~= spec_modify_items(
                                    items0,
                                    item@,
                                    *modify,
                                ));
                                lemma_items_wf_remove(items0, j as int);
                            }
                        } else {
                            proof {
                                assert(player.items@ =~= spec_modify_items(
                                    items0,
                                    item@,
                                    *modify,
                                ));
                                assert forall|a: int, b: int|
                                    0 <= a < b < player.items@.len() implies player.items@[a].0
                                    != player.items@[b].0 by {
                                    assert(player.items@[a].0 == items0[a].0);
                                    assert(player.items@[b].0 == items0[b].0);
                                }
                            }
                        }
                        Ok(())
                    },
                }
            },
            Modifier::Position { towards, check } => {
                if *check {
                    match maps.travel(player, towards.as_str(), time) {
                        Ok(()) => Ok(()),
                        Err(t) => Err(GameErr::Travel(t)),
                    }
                } else {
                    player.game_map = towards.clone();
                    Ok(())
                }
            },
            Modifier::Group(g) => modify_group(g, maps, time, player, rand),
            Modifier::Condition { group, cond } => {
                match cond {
                    Option::None => modify_group(group, maps, time, player, rand),
                    Option::Some(c) => {
                        match c.is_met(time, player, rand) {
                            Err(e) => Err(GameErr::Eval(e)),
                            Ok(true) => modify_group(group, maps, time, player, rand),
                            Ok(false) => Ok(()),
                        }
                    },
                }
            },
            Modifier::NoOp => Ok(()),
        }
    }
}

/// Subtraction never drives a count below zero: the count is floored there.
pub proof fn lemma_sub_floor(p: PayloadV, n: int, sub: usize, val: Option<ItemPayload>)
    requires
        n >= 0,
    ensures
        spec_apply_item(ItemModifier::Sub { sub, val }, p, n).1 >= 0,
{
}

/// An item mutation keeps the inventory well formed: names stay unique,
/// every count stays positive, and an entry whose count reaches zero is
/// removed from the inventory.
pub proof fn lemma_item_mutation_wf(
    items: Seq<(Seq<char>, (PayloadV, int))>,
    name: Seq<char>,
    m: ItemModifier,
)
    requires
        items_wf(items),
    ensures
        items_wf(spec_modify_items(items, name, m)),
{
    match key_idx(items, name, 0) {
        None => {},
        Some(j) => {
            crate::player::lemma_key_idx(items, name, 0);
            let (p2, n2) = spec_apply_item(m, items[j].1.0, items[j].1.1);
            if n2 == 0 {
                lemma_items_wf_remove(items, j);
            } else {
                let t = spec_modify_items(items, name, m);
                assert forall|a: int, b: int| 0 <= a < b < t.len() implies t[a].0 != t[b].0 by {
                    assert(t[a].0 == items[a].0);
                    assert(t[b].0 == items[b].0);
                }
                assert forall|a: int| 0 <= a < t.len() implies t[a].1.1 > 0 by {
                    if a != j {
                        assert(t[a] == items[a]);
                    }
                }
            }
        },
    }
}

/// Removing an entry keeps an inventory well formed.
proof fn lemma_items_wf_remove(s: Seq<(Seq<char>, (PayloadV, int))>, j: int)
    requires
        0 <= j < s.len(),
        items_wf(s),
    ensures
        items_wf(s.remove(j)),
{
    s.remove_ensures(j);
    let t = s.remove(j);
    assert forall|a: int, b: int| 0 <= a < b < t.len() implies t[a].0 != t[b].0 by {
        let a0 = if a < j {
            a
        } else {
            a + 1
        };
        let b0 = if b < j {
            b
        } else {
            b + 1
        };
        assert(t[a].0 == s[a0].0);
        assert(t[b].0 == s[b0].0);
    }
    assert forall|a: int| 0 <= a < t.len() implies t[a].1.1 > 0 by {
        let a0 = if a < j {
            a
        } else {
            a + 1
        };
        assert(t[a] == s[a0]);
    }
}

/// Applies the modifiers of a group in order, stopping at the first failure.
fn modify_group(
    ms: &Vec<Modifier>,
    maps: &MapSystem,
    time: &TimeSystem,
    player: &mut Player,
    rand: &mut Rand,
) -> (r: Result<(), GameErr>)
    requires
        old(player).wf(),
    ensures
        final(player).wf(),
        final(player).attribute_defs == old(player).attribute_defs,
        final(player).cur_evt_seg == old(player).cur_evt_seg,
        final(player).trigger == old(player).trigger,
        final(player).stuck_in_event == old(player).stuck_in_event,
        final(player).game_time == old(player).game_time,
        ({
            let (w2, res) = apply_group(
                ms@,
                old(player).shot(old(rand).state),
                old(player).attribute_defs@,
                maps.maps@,
                0,
            );
            final(player).shot(final(rand).state) == w2 && unit_res_view(r) == res
        }),
    decreases ms@, 0int, 0int,
{
    let ghost w0 = player.shot(rand.state);
    let ghost defs0 = player.attribute_defs@;
    let n = ms.len();
    for i in 0..n
        invariant
            n == ms.len(),
            player.wf(),
            player.attribute_defs == old(player).attribute_defs,
            player.cur_evt_seg == old(player).cur_evt_seg,
            player.trigger == old(player).trigger,
            player.stuck_in_event == old(player).stuck_in_event,
            player.game_time == old(player).game_time,
            defs0 == player.attribute_defs@,
            ({
                let (w2, res) = apply_group(ms@, w0, defs0, maps.maps@, 0);
                let (w2i, resi) = apply_group(
                    ms@,
                    player.shot(rand.state),
                    defs0,
                    maps.maps@,
                    i as int,
                );
                w2 == w2i && res == resi
            }),
    {
        let ghost w_pre = player.shot(rand.state);
        match ms[i].modify(maps, time, player, rand) {
            Ok(()) => {
                proof {
                    assert(apply_modifier(ms@[i as int], w_pre, defs0, maps.maps@).0
                        == player.shot(rand.state));
                }
            },
            Err(e) => {
                return Err(e);
            },
        }
    }
    Ok(())
}

} // verus!
