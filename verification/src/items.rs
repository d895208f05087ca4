//! Item payloads: the value carried by an inventory item.
//!
//! A payload is either a scalar (integer, text, truth value) or a structured
//! record, represented by the names of its tags. Conditions may ask whether a
//! payload is structured and whether a given tag is present; modifiers may
//! replace a payload wholesale or compare one against a guard.

use vstd::prelude::*;

verus! {

/// The payload carried by an inventory item.
pub enum ItemPayload {
    Int(i64),
    Text(String),
    Truth(bool),
    Table(Vec<String>),
}

/// The mathematical value of a payload.
pub enum PayloadV {
    Int(int),
    Text(Seq<char>),
    Truth(bool),
    Table(Seq<Seq<char>>),
}

/// The character sequences of a list of strings.
pub open spec fn strings_view(tags: Seq<String>) -> Seq<Seq<char>> {
    Seq::new(tags.len(), |i: int| tags[i]@)
}

impl View for ItemPayload {
    type V = PayloadV;

    open spec fn view(&self) -> PayloadV {
        match self {
            ItemPayload::Int(i) => PayloadV::Int(*i as int),
            ItemPayload::Text(s) => PayloadV::Text(s@),
            ItemPayload::Truth(b) => PayloadV::Truth(*b),
            ItemPayload::Table(tags) => PayloadV::Table(strings_view(tags@)),
        }
    }
}

/// Whether the payload is a structured record.
pub open spec fn spec_is_table(p: ItemPayload) -> bool {
    p@ is Table
}

/// Whether a structured payload carries the named tag; a scalar payload
/// carries no tags.
pub open spec fn spec_has_tag(p: ItemPayload, tag: Seq<char>) -> bool {
    match p {
        ItemPayload::Table(tags) => exists|i: int| 0 <= i < tags@.len() && tags@[i]@ == tag,
        _ => false,
    }
}

/// Tag presence stated on the payload's value: a structured value carries the
/// tag exactly when some member of its tag view equals it.
pub proof fn lemma_has_tag_view(p: ItemPayload, t: Seq<char>)
    ensures
        spec_has_tag(p, t) == (match p@ {
            PayloadV::Table(tags) => exists|k: int| 0 <= k < tags.len() && tags[k] == t,
            _ => false,
        }),
{
    match p {
        ItemPayload::Table(v) => {
            if spec_has_tag(p, t) {
                let k = choose|k: int| 0 <= k < v@.len() && v@[k]@ == t;
                assert(strings_view(v@)[k] == t);
            }
            if exists|k: int| 0 <= k < strings_view(v@).len() && strings_view(v@)[k] == t {
                let k = choose|k: int| 0 <= k < strings_view(v@).len() && strings_view(v@)[k] == t;
                assert(v@[k]@ == t);
            }
        },
        _ => {},
    }
}

impl ItemPayload {
    /// Whether the payload is a structured record.
    pub fn is_table(&self) -> (r: bool)
        ensures
            r == spec_is_table(*self),
    {
        match self {
            ItemPayload::Table(_) => true,
            _ => false,
        }
    }

    /// Whether the payload is a structured record carrying the named tag.
    pub fn has_tag(&self, tag: &str) -> (r: bool)
        ensures
            r == spec_has_tag(*self, tag@),
    {
        match self {
            ItemPayload::Table(tags) => {
                let n = tags.len();
                for i in 0..n
                    invariant
                        n == tags.len(),
                        forall|k: int| 0 <= k < i ==> tags@[k]@ != tag@,
                {
                    if crate::strutil::str_eq(tags[i].as_str(), tag) {
                        assert(tags@[i as int]@ == tag@);
                        return true;
                    }
                }
                false
            },
            _ => false,
        }
    }

    /// A copy of the payload with the same value.
    pub fn duplicate(&self) -> (r: ItemPayload)
        ensures
            r@ == self@,
    {
        match self {
            ItemPayload::Int(i) => ItemPayload::Int(*i),
            ItemPayload::Text(s) => ItemPayload::Text(s.clone()),
            ItemPayload::Truth(b) => ItemPayload::Truth(*b),
            ItemPayload::Table(tags) => {
                let mut out: Vec<String> = Vec::new();
                let n = tags.len();
                for i in 0..n
                    invariant
                        n == tags.len(),
                        out@.len() == i,
                        forall|k: int| 0 <= k < i ==> out@[k]@ == tags@[k]@,
                {
                    out.push(tags[i].clone());
                }
                proof {
                    assert(strings_view(out@) =~= strings_view(tags@));
                }
                ItemPayload::Table(out)
            },
        }
    }
}

/// Whether two payloads hold the same value.
pub fn payload_eq(a: &ItemPayload, b: &ItemPayload) -> (r: bool)
    ensures
        r == (a@ == b@),
{
    match (a, b) {
        (ItemPayload::Int(x), ItemPayload::Int(y)) => *x == *y,
        (ItemPayload::Text(x), ItemPayload::Text(y)) => crate::strutil::str_eq(
            x.as_str(),
            y.as_str(),
        ),
        (ItemPayload::Truth(x), ItemPayload::Truth(y)) => *x == *y,
        (ItemPayload::Table(x), ItemPayload::Table(y)) => {
            if x.len() != y.len() {
                assert(strings_view(x@).len() != strings_view(y@).len());
                return false;
            }
            let n = x.len();
            for i in 0..n
                invariant
                    n == x.len() && n == y.len(),
                    forall|k: int| 0 <= k < i ==> x@[k]@ == y@[k]@,
            {
                if !crate::strutil::str_eq(x[i].as_str(), y[i].as_str()) {
                    assert(strings_view(x@)[i as int] != strings_view(y@)[i as int]);
                    return false;
                }
            }
            proof {
                assert(strings_view(x@) =~= strings_view(y@));
            }
            true
        },
        _ => {
            assert(a@ != b@);
            false
        },
    }
}

} // verus!
