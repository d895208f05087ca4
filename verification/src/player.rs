//! The world state: attributes, inventory, location, triggers, and the
//! pointer to the running event.

use vstd::prelude::*;
use crate::items::ItemPayload;
use crate::items::PayloadV;
use crate::modifier::Identity;
use crate::modifier::ValModifier;
use crate::modifier::spec_apply_val;
use crate::time_system::SimTime;
use crate::triggers::Trigger;
use crate::conditions::EvalErr;
use crate::conditions::EvalErrV;

verus! {

/// The first index at or after `i` whose entry's key is `name`, scanning a
/// sequence of key-value pairs at the view level.
pub open spec fn key_idx<T>(s: Seq<(Seq<char>, T)>, name: Seq<char>, i: int) -> Option<int>
    decreases s.len() - i,
{
    if i < 0 || i >= s.len() {
        None
    } else if s[i].0 == name {
        Some(i)
    } else {
        key_idx(s, name, i + 1)
    }
}

/// What a found key index means: the first match at or after `i`; a missing
/// result means no entry at or after `i` matches.
pub proof fn lemma_key_idx<T>(s: Seq<(Seq<char>, T)>, name: Seq<char>, i: int)
    requires
        0 <= i <= s.len(),
    ensures
        match key_idx(s, name, i) {
            Some(j) => i <= j < s.len() && s[j].0 == name && forall|k: int|
                i <= k < j ==> s[k].0 != name,
            None => forall|k: int| i <= k < s.len() ==> s[k].0 != name,
        },
    decreases s.len() - i,
{
    if i < s.len() && s[i].0 != name {
        lemma_key_idx(s, name, i + 1);
    }
}

/// An attribute definition: bounds, default, display thresholds and their
/// descriptions, and a visibility flag. Immutable once loaded.
pub struct Attribute {
    pub name: String,
    pub max: i32,
    pub min: i32,
    pub default: i32,
    pub over_max: i32,
    pub under_min: i32,
    pub over_max_desc: String,
    pub under_min_desc: String,
    pub invisible: bool,
}

impl Attribute {
    /// A definition is well formed when its bounds are ordered and its
    /// default lies within them.
    pub open spec fn wf(self) -> bool {
        self.min <= self.default <= self.max
    }

    /// A copy of the definition.
    pub fn duplicate(&self) -> (r: Attribute)
        ensures
            r == *self,
    {
        Attribute {
            name: self.name.clone(),
            max: self.max,
            min: self.min,
            default: self.default,
            over_max: self.over_max,
            under_min: self.under_min,
            over_max_desc: self.over_max_desc.clone(),
            under_min_desc: self.under_min_desc.clone(),
            invisible: self.invisible,
        }
    }
}

/// The first index at or after `i` of a definition named `name`.
pub open spec fn def_idx(defs: Seq<Attribute>, name: Seq<char>, i: int) -> Option<int>
    decreases defs.len() - i,
{
    if i < 0 || i >= defs.len() {
        None
    } else if defs[i].name@ == name {
        Some(i)
    } else {
        def_idx(defs, name, i + 1)
    }
}

/// What a found definition index means.
pub proof fn lemma_def_idx(defs: Seq<Attribute>, name: Seq<char>, i: int)
    requires
        0 <= i <= defs.len(),
    ensures
        match def_idx(defs, name, i) {
            Some(j) => i <= j < defs.len() && defs[j].name@ == name && forall|k: int|
                i <= k < j ==> defs[k].name@ != name,
            None => forall|k: int| i <= k < defs.len() ==> defs[k].name@ != name,
        },
    decreases defs.len() - i,
{
    if i < defs.len() && defs[i].name@ != name {
        lemma_def_idx(defs, name, i + 1);
    }
}

/// The definition named `name`, if any.
pub open spec fn def_of(defs: Seq<Attribute>, name: Seq<char>) -> Option<Attribute> {
    match def_idx(defs, name, 0) {
        Some(j) => Some(defs[j]),
        None => None,
    }
}

/// The attribute store: an ordered sequence of (name, value) pairs,
/// addressable by name or by positional index.
pub struct PlayerAttribute {
    pub val: Vec<(String, i32)>,
}

impl View for PlayerAttribute {
    type V = Seq<(Seq<char>, i32)>;

    open spec fn view(&self) -> Seq<(Seq<char>, i32)> {
        Seq::new(self.val@.len(), |i: int| (self.val@[i].0@, self.val@[i].1))
    }
}

impl PlayerAttribute {
    /// The value of the first attribute named `name`, if any.
    pub open spec fn spec_get(self, name: Seq<char>) -> Option<i32> {
        match key_idx(self@, name, 0) {
            Some(j) => Some(self@[j].1),
            None => None,
        }
    }

    /// The index of the first attribute named `k`, if any.
    pub fn index_of(&self, k: &str) -> (r: Option<usize>)
        ensures
            r is Some <==> key_idx(self@, k@, 0) is Some,
            r matches Some(j) ==> key_idx(self@, k@, 0) == Some(j as int) && j < self.val@.len(),
    {
        let n = self.val.len();
        for i in 0..n
            invariant
                n == self.val.len(),
                key_idx(self@, k@, 0) == key_idx(self@, k@, i as int),
        {
            if crate::strutil::str_eq(self.val[i].0.as_str(), k) {
                return Some(i);
            }
        }
        None
    }

    /// The value of the attribute named `k`, if any.
    pub fn get(&self, k: &str) -> (r: Option<i32>)
        ensures
            r == self.spec_get(k@),
    {
        match self.index_of(k) {
            Some(i) => {
                proof {
                    lemma_key_idx(self@, k@, 0);
                    assert(key_idx(self@, k@, 0) == Some(i as int));
                    assert(self@[i as int].1 == self.val@[i as int].1);
                }
                Some(self.val[i].1)
            },
            None => None,
        }
    }

    /// The index that an addressing mode resolves to, if any.
    pub open spec fn spec_id_idx(self, k: Identity) -> Option<int> {
        match k {
            Identity::Str(s) => key_idx(self@, s@, 0),
            Identity::Index(i) => if i < self@.len() {
                Some(i as int)
            } else {
                None
            },
            Identity::NoOp => None,
        }
    }

    /// Resolves an addressing mode to an index into the store.
    pub fn id_index(&self, k: &Identity) -> (r: Option<usize>)
        ensures
            r is Some <==> self.spec_id_idx(*k) is Some,
            r matches Some(j) ==> self.spec_id_idx(*k) == Some(j as int) && j < self.val@.len(),
    {
        match k {
            Identity::Str(s) => self.index_of(s.as_str()),
            Identity::Index(i) => {
                if *i < self.val.len() {
                    Some(*i)
                } else {
                    None
                }
            },
            Identity::NoOp => None,
        }
    }

    /// Overwrites the value at index `i`, keeping the name.
    pub fn set_at(&mut self, i: usize, v: i32)
        requires
            i < old(self)@.len(),
        ensures
            final(self)@ == old(self)@.update(i as int, (old(self)@[i as int].0, v)),
    {
        let entry = &mut self.val[i];
        entry.1 = v;
        proof {
            assert(final(self)@ =~= old(self)@.update(i as int, (old(self)@[i as int].0, v)));
        }
    }

    /// Overwrites the value of the attribute named `k`; reports whether the
    /// name was found.
    pub fn set_value(&mut self, k: &str, v: i32) -> (r: bool)
        ensures
            match key_idx(old(self)@, k@, 0) {
                Some(j) => r && final(self)@ == old(self)@.update(j, (old(self)@[j].0, v)),
                None => !r && *final(self) == *old(self),
            },
    {
        match self.index_of(k) {
            Some(i) => {
                proof {
                    lemma_key_idx(self@, k@, 0);
                    assert(key_idx(self@, k@, 0) == Some(i as int));
                }
                self.set_at(i, v);
                true
            },
            None => false,
        }
    }

    /// The stored pairs, as a fresh list.
    pub fn iter(&self) -> (r: Vec<(String, i32)>)
        ensures
            Seq::new(r@.len(), |i: int| (r@[i].0@, r@[i].1)) == self@,
    {
        let mut out: Vec<(String, i32)> = Vec::new();
        let n = self.val.len();
        for i in 0..n
            invariant
                n == self.val.len(),
                out@.len() == i,
                forall|k: int| 0 <= k < i ==> out@[k].0@ == self.val@[k].0@ && out@[k].1
                    == self.val@[k].1,
        {
            out.push((self.val[i].0.clone(), self.val[i].1));
        }
        proof {
            assert(Seq::new(out@.len(), |i: int| (out@[i].0@, out@[i].1)) =~= self@);
        }
        out
    }
}

/// The item store: a mapping from item name to (payload, count).
pub struct PlayerItem {
    pub entries: Vec<(String, (ItemPayload, usize))>,
}

/// The view of a list of item entries: each entry's name, payload value and
/// count.
pub open spec fn entries_view(s: Seq<(String, (ItemPayload, usize))>) -> Seq<
    (Seq<char>, (PayloadV, int)),
> {
    Seq::new(s.len(), |i: int| (s[i].0@, (s[i].1.0@, s[i].1.1 as int)))
}

impl View for PlayerItem {
    type V = Seq<(Seq<char>, (PayloadV, int))>;

    open spec fn view(&self) -> Seq<(Seq<char>, (PayloadV, int))> {
        entries_view(self.entries@)
    }
}

/// An item store is well formed when its names are unique and no entry has a
/// zero count: an item whose count reaches zero is removed.
pub open spec fn items_wf(s: Seq<(Seq<char>, (PayloadV, int))>) -> bool {
    &&& forall|i: int, j: int| 0 <= i < j < s.len() ==> s[i].0 != s[j].0
    &&& forall|i: int| 0 <= i < s.len() ==> s[i].1.1 > 0
}

impl PlayerItem {
    /// An empty inventory.
    pub fn new() -> (r: PlayerItem)
        ensures
            r@ =~= Seq::<(Seq<char>, (PayloadV, int))>::empty(),
    {
        PlayerItem { entries: Vec::new() }
    }

    /// The entry named `name`, if any.
    pub open spec fn spec_get(self, name: Seq<char>) -> Option<(PayloadV, int)> {
        match key_idx(self@, name, 0) {
            Some(j) => Some(self@[j].1),
            None => None,
        }
    }

    /// The index of the first entry named `k`, if any.
    pub fn find_index(&self, k: &str) -> (r: Option<usize>)
        ensures
            r is Some <==> key_idx(self@, k@, 0) is Some,
            r matches Some(j) ==> key_idx(self@, k@, 0) == Some(j as int) && j < self.entries@.len(),
    {
        let n = self.entries.len();
        for i in 0..n
            invariant
                n == self.entries.len(),
                key_idx(self@, k@, 0) == key_idx(self@, k@, i as int),
        {
            if crate::strutil::str_eq(self.entries[i].0.as_str(), k) {
                return Some(i);
            }
        }
        None
    }
}

/// All of the world a condition can read, together with the random source's
/// state, at the view level.
pub struct WorldShot {
    pub attrs: Seq<(Seq<char>, i32)>,
    pub items: Seq<(Seq<char>, (PayloadV, int))>,
    pub game_map: Seq<char>,
    pub time: SimTime,
    pub rand: u64,
}

/// Whether a stored attribute entry has a definition and sits within its
/// bounds.
pub open spec fn attr_in_bounds(defs: Seq<Attribute>, entry: (Seq<char>, i32)) -> bool {
    match def_of(defs, entry.0) {
        Some(a) => a.min <= entry.1 <= a.max,
        None => false,
    }
}

/// The mutable world state.
pub struct Player {
    pub attributes: PlayerAttribute,
    pub attribute_defs: Vec<Attribute>,
    pub items: PlayerItem,
    pub game_time: SimTime,
    pub game_map: String,
    pub cur_evt_seg: Option<(String, Option<String>)>,
    pub trigger: Vec<Trigger>,
    pub stuck_in_event: bool,
}

impl Player {
    /// The view of this world state that conditions read, paired with a
    /// random-source state.
    pub open spec fn shot(self, rand: u64) -> WorldShot {
        WorldShot {
            attrs: self.attributes@,
            items: self.items@,
            game_map: self.game_map@,
            time: self.game_time,
            rand,
        }
    }

    /// Well-formedness of the world state: definitions are unique and well
    /// formed, every stored attribute has a definition and sits within its
    /// bounds, and the inventory is well formed.
    pub open spec fn wf(self) -> bool {
        &&& forall|i: int| 0 <= i < self.attribute_defs@.len() ==> self.attribute_defs@[i].wf()
        &&& forall|i: int, j: int| 0 <= i < j < self.attribute_defs@.len()
            ==> self.attribute_defs@[i].name@ != self.attribute_defs@[j].name@
        &&& forall|i: int| 0 <= i < self.attributes@.len() ==> #[trigger] attr_in_bounds(
            self.attribute_defs@,
            self.attributes@[i],
        )
        &&& items_wf(self.items@)
    }

    /// A fresh world state from the attribute definitions: every attribute at
    /// its default, an empty inventory, the starting location, the
    /// initialization trigger, and no running event.
    pub fn new(attribute: &Vec<Attribute>) -> (r: Player)
        requires
            forall|i: int| 0 <= i < attribute@.len() ==> attribute@[i].wf(),
            forall|i: int, j: int| 0 <= i < j < attribute@.len() ==> attribute@[i].name@
                != attribute@[j].name@,
        ensures
            r.attribute_defs@ == attribute@,
            r.attributes@ == Seq::new(
                attribute@.len(),
                |i: int| (attribute@[i].name@, attribute@[i].default),
            ),
            r.items@ =~= Seq::<(Seq<char>, (PayloadV, int))>::empty(),
            r.game_map@ == "Town"@,
            r.game_time == (SimTime { weekday: 0u8, minute: 0u16 }),
            r.cur_evt_seg is None,
            r.trigger@ =~= seq![Trigger::Init],
            !r.stuck_in_event,
            r.wf(),
    {
        let mut attributes = PlayerAttribute { val: Vec::new() };
        let mut defs: Vec<Attribute> = Vec::new();
        let n = attribute.len();
        for i in 0..n
            invariant
                n == attribute.len(),
                defs@ =~= attribute@.subrange(0, i as int),
                attributes.val@.len() == i,
                forall|k: int| 0 <= k < i ==> attributes.val@[k].0@ == attribute@[k].name@
                    && attributes.val@[k].1 == attribute@[k].default,
        {
            attributes.val.push((attribute[i].name.clone(), attribute[i].default));
            defs.push(attribute[i].duplicate());
        }
        proof {
            assert(defs@ =~= attribute@);
            assert(attributes@ =~= Seq::new(
                attribute@.len(),
                |i: int| (attribute@[i].name@, attribute@[i].default),
            ));
        }
        let mut trigger: Vec<Trigger> = Vec::new();
        trigger.push(Trigger::Init);
        let r = Player {
            attributes,
            attribute_defs: defs,
            items: PlayerItem::new(),
            game_time: SimTime::session_start(),
            game_map: town_name(),
            cur_evt_seg: None,
            trigger,
            stuck_in_event: false,
        };
        proof {
            assert forall|i: int| 0 <= i < r.attributes@.len() implies #[trigger] attr_in_bounds(
                r.attribute_defs@,
                r.attributes@[i],
            ) by {
                lemma_def_idx(r.attribute_defs@, r.attributes@[i].0, 0);
                let d = def_idx(r.attribute_defs@, r.attributes@[i].0, 0);
                assert(r.attribute_defs@[i].name@ == r.attributes@[i].0);
                assert(d is Some);
                let j = d->0;
                assert(r.attribute_defs@[j].name@ == r.attributes@[i].0);
            }
        }
        r
    }

    /// Applies a value operation to the addressed attribute and clamps the
    /// outcome into the definition's bounds. A name the store does not hold,
    /// or an index out of range, is a hard typed failure that leaves the
    /// store untouched; an unaddressed mutation is a no-op.
    pub fn modify_attribute(&mut self, attr: &Identity, value: &ValModifier) -> (r: Result<
        (),
        EvalErr,
    >)
        requires
            old(self).wf(),
        ensures
            final(self).wf(),
            final(self).attribute_defs == old(self).attribute_defs,
            final(self).items == old(self).items,
            final(self).game_time == old(self).game_time,
            final(self).game_map == old(self).game_map,
            final(self).cur_evt_seg == old(self).cur_evt_seg,
            final(self).trigger == old(self).trigger,
            final(self).stuck_in_event == old(self).stuck_in_event,
            final(self).attributes@ == spec_modify_attrs(
                old(self).attributes@,
                old(self).attribute_defs@,
                *attr,
                *value,
            ),
            r is Ok <==> spec_modify_attr_err(old(self).attributes@, *attr) is Ok,
            r matches Err(e) ==> spec_modify_attr_err(old(self).attributes@, *attr) == Result::<
                (),
                EvalErrV,
            >::Err(e@),
    {
        let idx = self.attributes.id_index(attr);
        match idx {
            None => {
                match attr {
                    Identity::Str(nm) => Err(EvalErr::MissingAttribute(nm.clone())),
                    Identity::Index(i) => Err(EvalErr::MissingAttributeIndex(*i)),
                    Identity::NoOp => Ok(()),
                }
            },
            Some(j) => {
                let ghost s = self.attributes@;
                let ghost defs = self.attribute_defs@;
                proof {
                    match attr {
                        Identity::Str(nm) => lemma_key_idx(s, nm@, 0),
                        _ => (),
                    }
                    assert(self.attributes.spec_id_idx(*attr) == Some(j as int));
                }
                let name_owned = self.attributes.val[j].0.clone();
                proof {
                    assert(name_owned@ == s[j as int].0);
                    assert(attr_in_bounds(defs, s[j as int]));
                }
                let d = lookup_def(&self.attribute_defs, name_owned.as_str());
                proof {
                    lemma_def_idx(defs, name_owned@, 0);
                }
                match d {
                    None => {
                        // Unreachable: the store is well formed, so every
                        // stored name has a definition.
                        proof {
                            assert(false);
                        }
                    },
                    Some(di) => {
                        let mut x = self.attributes.val[j].1;
                        value.apply(&mut x);
                        let lo = self.attribute_defs[di].min;
                        let hi = self.attribute_defs[di].max;
                        let clamped = if x > hi {
                            hi
                        } else if x < lo {
                            lo
                        } else {
                            x
                        };
                        self.attributes.set_at(j, clamped);
                        proof {
                            let dd = def_of(defs, s[j as int].0)->0;
                            assert(dd == defs[di as int]);
                            assert(dd.wf());
                            assert(clamped == crate::clamp(
                                spec_apply_val(*value, s[j as int].1),
                                dd.min as int,
                                dd.max as int,
                            ));
                            assert(final(self).attributes@ =~= spec_modify_attrs(
                                s,
                                defs,
                                *attr,
                                *value,
                            ));
                            assert forall|i: int| 0 <= i < final(self).attributes@.len()
                                implies #[trigger] attr_in_bounds(
                                defs,
                                final(self).attributes@[i],
                            ) by {
                                assert(attr_in_bounds(defs, s[i]));
                                assert(final(self).attributes@[i].0 == s[i].0);
                            }
                        }
                    },
                }
                Ok(())
            },
        }
    }
}

/// Whether an addressing mode resolves against the store: a name the store
/// does not hold, or an index out of range, is the typed failure that
/// attribute mutation reports; an unaddressed mutation resolves trivially.
pub open spec fn spec_modify_attr_err(s: Seq<(Seq<char>, i32)>, attr: Identity) -> Result<
    (),
    EvalErrV,
> {
    match attr {
        Identity::Str(nm) => if key_idx(s, nm@, 0) is Some {
            Result::Ok(())
        } else {
            Result::Err(EvalErrV::MissingAttribute(nm@))
        },
        Identity::Index(i) => if i < s.len() {
            Result::Ok(())
        } else {
            Result::Err(EvalErrV::MissingAttributeIndex(i as int))
        },
        Identity::NoOp => Result::Ok(()),
    }
}

/// The attribute store after a value operation on the addressed attribute:
/// the mathematical result of the operation, clamped into the definition's
/// bounds. An unresolved address, like an address whose name has no
/// definition, changes nothing.
pub open spec fn spec_modify_attrs(
    s: Seq<(Seq<char>, i32)>,
    defs: Seq<Attribute>,
    attr: Identity,
    v: ValModifier,
) -> Seq<(Seq<char>, i32)> {
    let idx = match attr {
        Identity::Str(nm) => key_idx(s, nm@, 0),
        Identity::Index(i) => if i < s.len() {
            Some(i as int)
        } else {
            None
        },
        Identity::NoOp => None,
    };
    match idx {
        None => s,
        Some(j) => match def_of(defs, s[j].0) {
            None => s,
            Some(d) => s.update(
                j,
                (s[j].0, crate::clamp(spec_apply_val(v, s[j].1), d.min as int, d.max as int) as i32),
            ),
        },
    }
}

/// The index of the definition named `k`, if any.
pub fn lookup_def(defs: &Vec<Attribute>, k: &str) -> (r: Option<usize>)
    ensures
        r is Some <==> def_idx(defs@, k@, 0) is Some,
        r matches Some(j) ==> def_idx(defs@, k@, 0) == Some(j as int) && j < defs@.len(),
{
    let n = defs.len();
    for i in 0..n
        invariant
            n == defs.len(),
            def_idx(defs@, k@, 0) == def_idx(defs@, k@, i as int),
    {
        if crate::strutil::str_eq(defs[i].name.as_str(), k) {
            return Some(i);
        }
    }
    None
}

/// The name of the starting location.
fn town_name() -> (r: String)
    ensures
        r@ == "Town"@,
{
    let t: &str = "Town";
    t.to_owned()
}

/// The view of a list of attribute pairs.
pub open spec fn attrs_view(s: Seq<(String, i32)>) -> Seq<(Seq<char>, i32)> {
    Seq::new(s.len(), |i: int| (s[i].0@, s[i].1))
}

/// The persisted form of the world state. Attribute definitions are part of
/// the immutable catalog and are not persisted; restoring takes them anew.
pub struct SaveData {
    pub attributes: Vec<(String, i32)>,
    pub items: Vec<(String, (ItemPayload, usize))>,
    pub game_time: SimTime,
    pub game_map: String,
    pub cur_evt_seg: Option<(String, Option<String>)>,
    pub trigger: Vec<Trigger>,
}

/// How a saved form relates to the world it was taken from: the attribute
/// pairs, item contents, time, location, pointer and trigger set are the
/// same.
pub open spec fn save_rel(p: Player, s: SaveData) -> bool {
    &&& s.attributes@ == p.attributes.val@
    &&& entries_view(s.items@) == p.items@
    &&& s.game_time == p.game_time
    &&& s.game_map == p.game_map
    &&& s.cur_evt_seg == p.cur_evt_seg
    &&& s.trigger@ == p.trigger@
}

/// Whether a saved form can be restored against the given definitions: the
/// definitions are well formed and unique, every saved attribute has a
/// definition and sits within its bounds, and the saved inventory is well
/// formed.
pub open spec fn restore_ok(s: SaveData, defs: Seq<Attribute>) -> bool {
    &&& forall|i: int| 0 <= i < defs.len() ==> defs[i].wf()
    &&& forall|i: int, j: int| 0 <= i < j < defs.len() ==> defs[i].name@ != defs[j].name@
    &&& forall|i: int| 0 <= i < attrs_view(s.attributes@).len() ==> #[trigger] attr_in_bounds(
        defs,
        attrs_view(s.attributes@)[i],
    )
    &&& items_wf(entries_view(s.items@))
}

impl Player {
    /// The persisted form of this world state.
    pub fn save(&self) -> (r: SaveData)
        ensures
            save_rel(*self, r),
    {
        let mut attributes: Vec<(String, i32)> = Vec::new();
        let n = self.attributes.val.len();
        for i in 0..n
            invariant
                n == self.attributes.val@.len(),
                attributes@ =~= self.attributes.val@.subrange(0, i as int),
        {
            attributes.push((self.attributes.val[i].0.clone(), self.attributes.val[i].1));
        }
        let mut items: Vec<(String, (ItemPayload, usize))> = Vec::new();
        let m = self.items.entries.len();
        for i in 0..m
            invariant
                m == self.items.entries@.len(),
                items@.len() == i,
                forall|k: int| 0 <= k < i ==> #[trigger] items@[k].0 == self.items.entries@[k].0
                    && items@[k].1.0@ == self.items.entries@[k].1.0@ && items@[k].1.1
                    == self.items.entries@[k].1.1,
        {
            let e = &self.items.entries[i];
            items.push((e.0.clone(), (e.1.0.duplicate(), e.1.1)));
        }
        let mut trigger: Vec<Trigger> = Vec::new();
        let t = self.trigger.len();
        for i in 0..t
            invariant
                t == self.trigger@.len(),
                trigger@ =~= self.trigger@.subrange(0, i as int),
        {
            trigger.push(self.trigger[i].duplicate());
        }
        let r = SaveData {
            attributes,
            items,
            game_time: self.game_time,
            game_map: self.game_map.clone(),
            cur_evt_seg: crate::events::clone_pointer(&self.cur_evt_seg),
            trigger,
        };
        proof {
            assert(r.attributes@ =~= self.attributes.val@);
            assert(r.trigger@ =~= self.trigger@);
            assert(entries_view(r.items@) =~= self.items@);
        }
        r
    }

    /// The world state a saved form describes, against the catalog's
    /// attribute definitions, when the saved form passes validation; a saved
    /// form that does not fit the definitions restores to nothing.
    pub fn restore(data: SaveData, defs: Vec<Attribute>) -> (r: Option<Player>)
        ensures
            r is Some <==> restore_ok(data, defs@),
            r matches Some(p) ==> {
                &&& p.attributes.val@ == data.attributes@
                &&& p.items@ == entries_view(data.items@)
                &&& p.game_time == data.game_time
                &&& p.game_map == data.game_map
                &&& p.cur_evt_seg == data.cur_evt_seg
                &&& p.trigger@ == data.trigger@
                &&& p.attribute_defs@ == defs@
                &&& !p.stuck_in_event
                &&& p.wf()
            },
    {
        // Definitions: well formed, unique names.
        let nd = defs.len();
        for i in 0..nd
            invariant
                nd == defs@.len(),
                forall|k: int| 0 <= k < i ==> defs@[k].wf(),
                forall|k: int, l: int| 0 <= k < l < i ==> defs@[k].name@ != defs@[l].name@,
        {
            if !(defs[i].min <= defs[i].default && defs[i].default <= defs[i].max) {
                return None;
            }
            for j in 0..i
                invariant
                    i < nd == defs@.len(),
                    forall|k: int| 0 <= k < j ==> defs@[k].name@ != defs@[i as int].name@,
            {
                if crate::strutil::str_eq(defs[j].name.as_str(), defs[i].name.as_str()) {
                    return None;
                }
            }
        }
        // Attributes: defined and within bounds.
        let na = data.attributes.len();
        for i in 0..na
            invariant
                na == data.attributes@.len(),
                forall|k: int| 0 <= k < i ==> #[trigger] attr_in_bounds(
                    defs@,
                    attrs_view(data.attributes@)[k],
                ),
                forall|k: int| 0 <= k < defs@.len() ==> defs@[k].wf(),
                forall|k: int, l: int| 0 <= k < l < defs@.len() ==> defs@[k].name@
                    != defs@[l].name@,
        {
            let v = data.attributes[i].1;
            match lookup_def(&defs, data.attributes[i].0.as_str()) {
                None => {
                    proof {
                        assert(!attr_in_bounds(defs@, attrs_view(data.attributes@)[i as int]));
                        assert(!restore_ok(data, defs@));
                    }
                    return None;
                },
                Some(d) => {
                    if !(defs[d].min <= v && v <= defs[d].max) {
                        proof {
                            assert(!attr_in_bounds(defs@, attrs_view(data.attributes@)[i as int]));
                            assert(!restore_ok(data, defs@));
                        }
                        return None;
                    }
                    proof {
                        assert(attr_in_bounds(defs@, attrs_view(data.attributes@)[i as int]));
                    }
                },
            }
        }
        // Items: unique names, positive counts.
        let ni = data.items.len();
        for i in 0..ni
            invariant
                ni == data.items@.len(),
                forall|k: int| 0 <= k < i ==> entries_view(data.items@)[k].1.1 > 0,
                forall|k: int, l: int| 0 <= k < l < i ==> entries_view(data.items@)[k].0
                    != entries_view(data.items@)[l].0,
        {
            if data.items[i].1.1 == 0 {
                proof {
                    assert(entries_view(data.items@)[i as int].1.1 == 0);
                    assert(!items_wf(entries_view(data.items@)));
                }
                return None;
            }
            for j in 0..i
                invariant
                    i < ni == data.items@.len(),
                    forall|k: int| 0 <= k < j ==> entries_view(data.items@)[k].0 != entries_view(
                        data.items@,
                    )[i as int].0,
            {
                if crate::strutil::str_eq(data.items[j].0.as_str(), data.items[i].0.as_str()) {
                    proof {
                        assert(entries_view(data.items@)[j as int].0 == entries_view(
                            data.items@,
                        )[i as int].0);
                        assert(!items_wf(entries_view(data.items@)));
                    }
                    return None;
                }
            }
        }
        let p = Player {
            attributes: PlayerAttribute { val: data.attributes },
            attribute_defs: defs,
            items: PlayerItem { entries: data.items },
            game_time: data.game_time,
            game_map: data.game_map,
            cur_evt_seg: data.cur_evt_seg,
            trigger: data.trigger,
            stuck_in_event: false,
        };
        proof {
            assert(p.attributes@ =~= attrs_view(p.attributes.val@));
            assert forall|i: int| 0 <= i < p.attributes@.len() implies #[trigger] attr_in_bounds(
                p.attribute_defs@,
                p.attributes@[i],
            ) by {
                assert(attr_in_bounds(p.attribute_defs@, attrs_view(p.attributes.val@)[i]));
            }
        }
        Some(p)
    }

    /// The status lines of the attributes standing past their display
    /// thresholds: the over-maximum description of a visible attribute above
    /// its threshold, then the under-minimum one below its threshold, walking
    /// the store in order and stopping once two or more lines are collected.
    pub fn get_over_under_descriptions(&self) -> (r: Vec<String>)
        ensures
            r@ == descs_from(self.attributes.val@, self.attribute_defs@, 0, Seq::empty()),
    {
        let mut out: Vec<String> = Vec::new();
        let n = self.attributes.val.len();
        let mut i: usize = 0;
        while i < n && out.len() < 2
            invariant
                n == self.attributes.val@.len(),
                i <= n,
                descs_from(self.attributes.val@, self.attribute_defs@, 0, Seq::empty()) == (
                if out@.len() >= 2 {
                    out@
                } else {
                    descs_from(self.attributes.val@, self.attribute_defs@, i as int, out@)
                }),
            decreases n - i,
        {
            let name = &self.attributes.val[i].0;
            let value = self.attributes.val[i].1;
            match lookup_def(&self.attribute_defs, name.as_str()) {
                None => {},
                Some(d) => {
                    if !self.attribute_defs[d].invisible {
                        if value > self.attribute_defs[d].over_max {
                            out.push(self.attribute_defs[d].over_max_desc.clone());
                        }
                        if value < self.attribute_defs[d].under_min {
                            out.push(self.attribute_defs[d].under_min_desc.clone());
                        }
                    }
                },
            }
            i = i + 1;
        }
        out
    }
}

/// Attribute mutation always leaves every stored value within its
/// definition's bounds: the store of a well-formed world stays well bounded
/// under any value operation on any address.
pub proof fn lemma_attribute_mutation_bounded(p: Player, attr: Identity, v: ValModifier, k: int)
    requires
        p.wf(),
        0 <= k < spec_modify_attrs(p.attributes@, p.attribute_defs@, attr, v).len(),
    ensures
        attr_in_bounds(
            p.attribute_defs@,
            spec_modify_attrs(p.attributes@, p.attribute_defs@, attr, v)[k],
        ),
{
    let s = p.attributes@;
    let defs = p.attribute_defs@;
    let s2 = spec_modify_attrs(s, defs, attr, v);
    let idx = match attr {
        Identity::Str(nm) => key_idx(s, nm@, 0),
        Identity::Index(i) => if i < s.len() {
            Some(i as int)
        } else {
            None
        },
        Identity::NoOp => None,
    };
    match attr {
        Identity::Str(nm) => lemma_key_idx(s, nm@, 0),
        _ => (),
    }
    match idx {
        None => {
            assert(attr_in_bounds(defs, s[k]));
        },
        Some(j) => {
            lemma_def_idx(defs, s[j].0, 0);
            match def_of(defs, s[j].0) {
                None => {
                    assert(attr_in_bounds(defs, s[k]));
                },
                Some(d) => {
                    assert(attr_in_bounds(defs, s[j]));
                    if k != j {
                        assert(s2[k] == s[k]);
                        assert(attr_in_bounds(defs, s[k]));
                    } else {
                        assert(s2[j].0 == s[j].0);
                        assert(d.wf());
                    }
                },
            }
        },
    }
}

/// The round trip law: the persisted form of a well-formed world restores
/// against the world's own definitions, and what restoring then yields —
/// pinned by the contract of `Player::restore` — carries the same attribute
/// values, item contents, trigger set, location, time and pointer.
pub proof fn lemma_save_restore(p: Player, s: SaveData)
    requires
        p.wf(),
        save_rel(p, s),
    ensures
        restore_ok(s, p.attribute_defs@),
{
    assert(attrs_view(s.attributes@) =~= p.attributes@);
    assert forall|i: int| 0 <= i < attrs_view(s.attributes@).len() implies #[trigger]
    attr_in_bounds(p.attribute_defs@, attrs_view(s.attributes@)[i]) by {
        assert(attr_in_bounds(p.attribute_defs@, p.attributes@[i]));
    }
}

/// The status lines collected from the attributes from index `i` on, appended
/// to `acc`: per attribute, its over-maximum description when above that
/// threshold, then its under-minimum description when below that one;
/// attributes without a definition and invisible ones contribute nothing, and
/// the walk stops after the attribute that brings the count to two or more.
pub open spec fn descs_from(
    attrs: Seq<(String, i32)>,
    defs: Seq<Attribute>,
    i: int,
    acc: Seq<String>,
) -> Seq<String>
    decreases attrs.len() - i,
{
    if i < 0 || i >= attrs.len() {
        acc
    } else {
        let acc2 = match def_of(defs, attrs[i].0@) {
            None => acc,
            Some(d) => if d.invisible {
                acc
            } else {
                let a1 = if attrs[i].1 > d.over_max {
                    acc.push(d.over_max_desc)
                } else {
                    acc
                };
                if attrs[i].1 < d.under_min {
                    a1.push(d.under_min_desc)
                } else {
                    a1
                }
            },
        };
        if acc2.len() >= 2 {
            acc2
        } else {
            descs_from(attrs, defs, i + 1, acc2)
        }
    }
}

} // verus!
