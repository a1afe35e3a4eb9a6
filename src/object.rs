//! An object: an insertion-ordered property store with a prototype link, an
//! extensible flag and an optional class tag.
use vstd::prelude::*;
use crate::interner::Name;
use crate::value::{JsValue, ObjId};
use crate::descriptor::{JsDescriptor, PropertyDescriptor};

verus! {

/// One step of positional enumeration over a store.
#[derive(Clone, Copy, Debug, PartialEq, Eq, Structural)]
pub enum JsStoreKey {
    /// A live property: its key and whether it is enumerable.
    Key(Name, bool),
    /// A deleted slot before the end of the store.
    Missing,
    /// The index lies past the last slot ever allocated.
    End,
}

pub struct JsObject {
    slots: Vec<Option<(Name, PropertyDescriptor)>>,
    prototype: Option<ObjId>,
    extensible: bool,
    class: Option<Name>,
    primitive: Option<JsValue>,
    callable: bool,
}

/// The live key of a slot, if any.
pub open spec fn slot_key(slot: Option<(Name, PropertyDescriptor)>) -> Option<Name> {
    match slot {
        Some(e) => Some(e.0),
        None => None,
    }
}

/// The keys of the enumerable live slots, in slot order.
pub open spec fn enumerable_keys(slots: Seq<Option<(Name, PropertyDescriptor)>>) -> Seq<Name>
    decreases slots.len(),
{
    if slots.len() == 0 {
        Seq::empty()
    } else {
        let rest = enumerable_keys(slots.drop_last());
        match slots.last() {
            Some(e) => if e.1.enumerable { rest.push(e.0) } else { rest },
            None => rest,
        }
    }
}

impl JsObject {
    /// The slots in insertion order; `None` marks a deleted slot.
    pub closed spec fn slots(&self) -> Seq<Option<(Name, PropertyDescriptor)>> {
        self.slots@
    }

    pub closed spec fn proto(&self) -> Option<ObjId> {
        self.prototype
    }

    pub closed spec fn is_extensible(&self) -> bool {
        self.extensible
    }

    pub closed spec fn class_tag(&self) -> Option<Name> {
        self.class
    }

    pub closed spec fn primitive_value(&self) -> Option<JsValue> {
        self.primitive
    }

    pub closed spec fn is_callable(&self) -> bool {
        self.callable
    }

    /// Slot `i` holds a live property named `name`.
    pub open spec fn holds(&self, i: int, name: Name) -> bool {
        0 <= i < self.slots().len() && slot_key(self.slots()[i]) == Some(name)
    }

    /// The own property named `name`, if any.
    pub open spec fn own(&self, name: Name) -> Option<PropertyDescriptor> {
        if exists|i: int| self.holds(i, name) {
            Some(self.slots()[choose|i: int| self.holds(i, name)].unwrap().1)
        } else {
            None
        }
    }

    /// Live keys are unique.
    pub open spec fn wf(&self) -> bool {
        forall|i: int, j: int| #![auto]
            0 <= i < j < self.slots().len() && self.slots()[i] is Some && self.slots()[j] is Some
                ==> self.slots()[i].unwrap().0 != self.slots()[j].unwrap().0
    }

    pub open spec fn enumerable_names(&self) -> Seq<Name> {
        enumerable_keys(self.slots())
    }

    /// A new empty, extensible object with the given prototype and no class tag.
    pub fn new(prototype: Option<ObjId>) -> (r: JsObject)
        ensures
            r.wf(),
            r.slots().len() == 0,
            r.proto() == prototype,
            r.is_extensible(),
            r.class_tag() is None,
            r.primitive_value() is None,
            !r.is_callable(),
    {
        JsObject { slots: Vec::new(), prototype, extensible: true, class: None, primitive: None, callable: false }
    }

    /// A new empty, extensible object with every internal slot given.
    pub fn with_parts(prototype: Option<ObjId>, class: Option<Name>, primitive: Option<JsValue>, callable: bool) -> (r: JsObject)
        ensures
            r.wf(),
            r.slots().len() == 0,
            r.proto() == prototype,
            r.is_extensible(),
            r.class_tag() == class,
            r.primitive_value() == primitive,
            r.is_callable() == callable,
    {
        JsObject { slots: Vec::new(), prototype, extensible: true, class, primitive, callable }
    }

    pub fn prototype(&self) -> (r: Option<ObjId>)
        ensures
            r == self.proto(),
    {
        self.prototype
    }

    pub fn extensible(&self) -> (r: bool)
        ensures
            r == self.is_extensible(),
    {
        self.extensible
    }

    pub fn class(&self) -> (r: Option<Name>)
        ensures
            r == self.class_tag(),
    {
        self.class
    }

    pub fn primitive(&self) -> (r: Option<JsValue>)
        ensures
            r == self.primitive_value(),
    {
        self.primitive
    }

    pub fn callable(&self) -> (r: bool)
        ensures
            r == self.is_callable(),
    {
        self.callable
    }

    /// Replaces the prototype link; no cycle check is made here.
    pub fn set_prototype(&mut self, prototype: Option<ObjId>)
        ensures
            final(self).proto() == prototype,
            final(self).slots() == old(self).slots(),
            final(self).is_extensible() == old(self).is_extensible(),
            final(self).class_tag() == old(self).class_tag(),
            final(self).primitive_value() == old(self).primitive_value(),
            final(self).is_callable() == old(self).is_callable(),
    {
        self.prototype = prototype;
    }

    pub fn set_extensible(&mut self, extensible: bool)
        ensures
            final(self).is_extensible() == extensible,
            final(self).slots() == old(self).slots(),
            final(self).proto() == old(self).proto(),
            final(self).class_tag() == old(self).class_tag(),
            final(self).primitive_value() == old(self).primitive_value(),
            final(self).is_callable() == old(self).is_callable(),
    {
        self.extensible = extensible;
    }

    /// Objects with the same slots have the same own properties.
    pub proof fn lemma_own_same_slots(&self, other: &JsObject)
        requires
            self.wf(),
            self.slots() == other.slots(),
        ensures
            forall|n: Name| #[trigger] self.own(n) == other.own(n),
    {
        assert forall|n: Name| #[trigger] self.own(n) == other.own(n) by {
            assert forall|i: int| self.holds(i, n) == other.holds(i, n) by {}
            if exists|i: int| self.holds(i, n) {
                let i = choose|i: int| self.holds(i, n);
                assert(other.holds(i, n));
                self.lemma_own_at(i, n);
                other.lemma_own_at(i, n);
            }
        }
    }

    proof fn lemma_own_at(&self, i: int, name: Name)
        requires
            self.wf(),
            self.holds(i, name),
        ensures
            self.own(name) == Some(self.slots()[i].unwrap().1),
    {
        let j = choose|j: int| self.holds(j, name);
        assert(self.holds(j, name));
        if i < j || j < i {
            assert(self.slots()[i].unwrap().0 != self.slots()[j].unwrap().0);
        }
    }

    fn find_slot(&self, name: Name) -> (r: Option<usize>)
        requires
            self.wf(),
        ensures
            match r {
                Some(i) => self.holds(i as int, name) && self.own(name) == Some(self.slots()[i as int].unwrap().1),
                None => self.own(name) is None && forall|i: int| !self.holds(i, name),
            },
    {
        let mut i: usize = 0;
        while i < self.slots.len()
            invariant
                self.wf(),
                i <= self.slots@.len(),
                forall|k: int| 0 <= k < i ==> !self.holds(k, name),
            decreases self.slots@.len() - i,
        {
            match self.slots[i] {
                Some(e) => if e.0 == name {
                    proof { self.lemma_own_at(i as int, name); }
                    return Some(i);
                },
                None => {},
            }
            i = i + 1;
        }
        None
    }

    /// The own property named `name`; the prototype chain is not consulted.
    pub fn get_own_property(&self, name: Name) -> (r: Option<PropertyDescriptor>)
        requires
            self.wf(),
        ensures
            r == self.own(name),
    {
        match self.find_slot(name) {
            Some(i) => Some(self.slots[i].unwrap().1),
            None => None,
        }
    }

    /// Defines or updates the own property `name`. All checks are made before
    /// anything changes: on refusal the object is left as it was, and the
    /// result is `Ok(false)`, or `Err(TypeCannotDefine)` where `throw` is set.
    pub fn define_own_property(&mut self, name: Name, desc: JsDescriptor, throw: bool) -> (r: Result<bool, crate::value::JsError>)
        requires
            old(self).wf(),
        ensures
            final(self).wf(),
            final(self).proto() == old(self).proto(),
            final(self).is_extensible() == old(self).is_extensible(),
            final(self).class_tag() == old(self).class_tag(),
            final(self).primitive_value() == old(self).primitive_value(),
            final(self).is_callable() == old(self).is_callable(),
            match desc.outcome(old(self).own(name), old(self).is_extensible()) {
                Some(p) => {
                    &&& r == Ok::<bool, crate::value::JsError>(true)
                    &&& final(self).own(name) == Some(p)
                    &&& forall|n: Name| n != name ==> final(self).own(n) == old(self).own(n)
                    &&& forall|i: int| #[trigger] old(self).holds(i, name) ==> final(self).slots()
                        == old(self).slots().update(i, Some((name, p)))
                    &&& old(self).own(name) is None ==> final(self).slots() == old(self).slots().push(Some((name, p)))
                },
                None => {
                    &&& *final(self) == *old(self)
                    &&& r == if throw {
                        Err::<bool, crate::value::JsError>(crate::value::JsError::TypeCannotDefine)
                    } else {
                        Ok(false)
                    }
                },
            },
    {
        let slot = self.find_slot(name);
        let current = match slot {
            Some(i) => Some(self.slots[i].unwrap().1),
            None => None,
        };
        match desc.define_outcome(current, self.extensible) {
            None => if throw {
                Err(crate::value::JsError::TypeCannotDefine)
            } else {
                Ok(false)
            },
            Some(p) => {
                let ghost before = *self;
                match slot {
                    Some(i) => {
                        self.slots.set(i, Some((name, p)));
                        proof {
                            assert forall|j: int| #[trigger] before.holds(j, name) implies j == i by {
                                if j != i {
                                    assert(before.slots()[j].unwrap().0 != before.slots()[i as int].unwrap().0);
                                }
                            }
                            assert(self.holds(i as int, name));
                            self.lemma_own_at(i as int, name);
                            assert forall|n: Name| n != name implies self.own(n) == before.own(n) by {
                                self.lemma_same_elsewhere(before, i as int, n);
                            }
                        }
                    },
                    None => {
                        self.slots.push(Some((name, p)));
                        proof {
                            assert forall|j: int| !before.holds(j, name) by {}
                            let k = before.slots().len() as int;
                            assert(self.slots() == before.slots().push(Some((name, p))));
                            assert forall|i: int| 0 <= i < k && #[trigger] self.slots()[i] is Some
                                implies self.slots()[i].unwrap().0 != name by {
                                assert(!before.holds(i, name));
                            }
                            assert(self.wf());
                            assert(self.holds(k, name));
                            self.lemma_own_at(k, name);
                            assert forall|n: Name| n != name implies self.own(n) == before.own(n) by {
                                self.lemma_same_elsewhere(before, k, n);
                            }
                        }
                    },
                }
                Ok(true)
            },
        }
    }

    proof fn lemma_same_elsewhere(&self, before: JsObject, k: int, n: Name)
        requires
            self.wf(),
            before.wf(),
            0 <= k < self.slots().len(),
            self.slots().len() == before.slots().len() || (self.slots().len() == before.slots().len() + 1
                && k == before.slots().len()),
            forall|i: int| 0 <= i < self.slots().len() && i != k ==> #[trigger] self.slots()[i] == before.slots()[i],
            slot_key(self.slots()[k]) != Some(n),
            k < before.slots().len() ==> slot_key(before.slots()[k]) != Some(n),
        ensures
            self.own(n) == before.own(n),
    {
        if exists|i: int| self.holds(i, n) {
            let i = choose|i: int| self.holds(i, n);
            self.lemma_own_at(i, n);
            assert(i != k);
            assert(self.slots()[i] == before.slots()[i]);
            assert(before.holds(i, n));
            before.lemma_own_at(i, n);
        } else if exists|i: int| before.holds(i, n) {
            let i = choose|i: int| before.holds(i, n);
            assert(self.holds(i, n));
        }
    }

    /// Removes the own property `name`, leaving its slot as a tombstone. A
    /// non-configurable property stays, and the result is `false`.
    pub fn delete(&mut self, name: Name) -> (r: bool)
        requires
            old(self).wf(),
        ensures
            final(self).wf(),
            final(self).proto() == old(self).proto(),
            final(self).is_extensible() == old(self).is_extensible(),
            final(self).class_tag() == old(self).class_tag(),
            final(self).primitive_value() == old(self).primitive_value(),
            final(self).is_callable() == old(self).is_callable(),
            final(self).slots().len() == old(self).slots().len(),
            r == (old(self).own(name) is None || old(self).own(name).unwrap().configurable),
            r ==> final(self).own(name) is None,
            !r ==> *final(self) == *old(self),
            forall|n: Name| n != name ==> final(self).own(n) == old(self).own(n),
    {
        match self.find_slot(name) {
            None => true,
            Some(i) => {
                if !self.slots[i].unwrap().1.configurable {
                    return false;
                }
                let ghost before = *self;
                self.slots.set(i, None);
                proof {
                    assert forall|n: Name| n != name implies self.own(n) == before.own(n) by {
                        self.lemma_same_elsewhere(before, i as int, n);
                    }
                    assert forall|k: int| !self.holds(k, name) by {
                        if self.holds(k, name) {
                            assert(before.holds(k, name));
                            assert(k != i);
                        }
                    }
                }
                true
            },
        }
    }

    /// One step of positional enumeration.
    pub fn get_key(&self, index: usize) -> (r: JsStoreKey)
        ensures
            index >= self.slots().len() ==> r == JsStoreKey::End,
            index < self.slots().len() ==> r == match self.slots()[index as int] {
                Some(e) => JsStoreKey::Key(e.0, e.1.enumerable),
                None => JsStoreKey::Missing,
            },
    {
        if index >= self.slots.len() {
            JsStoreKey::End
        } else {
            match self.slots[index] {
                Some(e) => JsStoreKey::Key(e.0, e.1.enumerable),
                None => JsStoreKey::Missing,
            }
        }
    }

    /// The number of slots ever allocated, deleted ones included.
    pub fn slot_count(&self) -> (r: usize)
        ensures
            r == self.slots().len(),
    {
        self.slots.len()
    }
}

} // verus!
