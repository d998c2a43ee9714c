use crate::crf_utils::str_eq;
use vstd::prelude::*;

verus! {

/// A decoded slot in its final form: the text it covers, the entity
/// type its slot name resolved to, the slot name itself, and where it
/// stands in the source text as a character range.
#[derive(Debug, PartialEq)]
pub struct InternalSlot {
    pub value: String,
    pub entity: String,
    pub char_range: core::ops::Range<usize>,
    pub slot_name: String,
}

/// The mathematical model of an `InternalSlot`.
pub ghost struct InternalSlotView {
    pub value: Seq<char>,
    pub entity: Seq<char>,
    pub char_start: int,
    pub char_end: int,
    pub slot_name: Seq<char>,
}

impl View for InternalSlot {
    type V = InternalSlotView;

    open spec fn view(&self) -> InternalSlotView {
        InternalSlotView {
            value: self.value@,
            entity: self.entity@,
            char_start: self.char_range.start as int,
            char_end: self.char_range.end as int,
            slot_name: self.slot_name@,
        }
    }
}

impl DeepView for InternalSlot {
    type V = InternalSlotView;

    open spec fn deep_view(&self) -> InternalSlotView {
        self.view()
    }
}

/// The finite map denoted by a sequence of key-value pairs; a later
/// pair with the same key overrides an earlier one.
pub open spec fn entries_to_map(entries: Seq<(String, String)>) -> Map<Seq<char>, Seq<char>>
    decreases entries.len(),
{
    if entries.len() == 0 {
        Map::empty()
    } else {
        entries_to_map(entries.drop_last()).insert(entries.last().0@, entries.last().1@)
    }
}

/// Externally supplied, read-only mapping from slot name to entity
/// type. Its model is the finite map from name to entity type.
#[derive(Debug, PartialEq)]
pub struct IntentSlotsMapping {
    entries: Vec<(String, String)>,
}

impl View for IntentSlotsMapping {
    type V = Map<Seq<char>, Seq<char>>;

    closed spec fn view(&self) -> Map<Seq<char>, Seq<char>> {
        entries_to_map(self.entries@)
    }
}

impl IntentSlotsMapping {
    /// An empty mapping.
    pub fn new() -> (m: IntentSlotsMapping)
        ensures
            m@ == Map::<Seq<char>, Seq<char>>::empty(),
    {
        IntentSlotsMapping { entries: Vec::new() }
    }

    /// Binds a slot name to an entity type, overriding any earlier
    /// binding of the same name.
    pub fn insert(&mut self, name: String, entity: String)
        ensures
            final(self)@ == old(self)@.insert(name@, entity@),
    {
        let ghost before = self.entries@;
        self.entries.push((name, entity));
        proof {
            assert(self.entries@.drop_last() =~= before);
        }
    }

    /// Looks a slot name up: the entity type it is bound to, or `None`
    /// when the mapping does not know the name.
    pub fn get<'a>(&'a self, name: &str) -> (r: Option<&'a String>)
        ensures
            match r {
                Some(entity) => self@.contains_key(name@) && entity@ == self@[name@],
                None => !self@.contains_key(name@),
            },
    {
        let mut i: usize = self.entries.len();
        proof {
            assert(self.entries@.take(i as int) =~= self.entries@);
        }
        while i > 0
            invariant
                i <= self.entries@.len(),
                self@.contains_key(name@) == entries_to_map(
                    self.entries@.take(i as int),
                ).contains_key(name@),
                self@.contains_key(name@) ==> self@[name@] == entries_to_map(
                    self.entries@.take(i as int),
                )[name@],
            decreases i,
        {
            i = i - 1;
            proof {
                assert(self.entries@.take(i + 1).drop_last() =~= self.entries@.take(i as int));
                assert(self.entries@.take(i + 1).last() == self.entries@[i as int]);
            }
            if str_eq(self.entries[i].0.as_str(), name) {
                return Some(&self.entries[i].1);
            }
        }
        proof {
            assert(self.entries@.take(0) =~= Seq::<(String, String)>::empty());
        }
        None
    }
}

} // verus!
