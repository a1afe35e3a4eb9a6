//! Property descriptors: the stored attribute records, the partial records
//! that a definition merges in, and the rules of that merge.
use vstd::prelude::*;
use crate::value::{JsValue, same_value, same_value_exec};

verus! {

/// The shape-specific part of a stored property.
#[derive(Clone, Copy, Debug, PartialEq, Eq, Structural)]
pub enum PropertyKind {
    Data { value: JsValue, writable: bool },
    Accessor { get: JsValue, set: JsValue },
}

/// A fully resolved property, as held by an object's store.
#[derive(Clone, Copy, Debug, PartialEq, Eq, Structural)]
pub struct PropertyDescriptor {
    pub kind: PropertyKind,
    pub enumerable: bool,
    pub configurable: bool,
}

/// A partially specified property: the attributes that a definition sets.
#[derive(Clone, Copy, Debug, PartialEq, Eq, Structural)]
pub struct JsDescriptor {
    pub value: Option<JsValue>,
    pub writable: Option<bool>,
    pub get: Option<JsValue>,
    pub set: Option<JsValue>,
    pub enumerable: Option<bool>,
    pub configurable: Option<bool>,
}

/// The generic exchange shape of a descriptor: each recognized attribute key
/// with the value found for it, if any.
#[derive(Clone, Copy, Debug, PartialEq, Eq, Structural)]
pub struct DescriptorRecord {
    pub value: Option<JsValue>,
    pub writable: Option<JsValue>,
    pub get: Option<JsValue>,
    pub set: Option<JsValue>,
    pub enumerable: Option<JsValue>,
    pub configurable: Option<JsValue>,
}

impl PropertyDescriptor {
    pub open spec fn is_data(self) -> bool {
        self.kind is Data
    }

    pub fn is_enumerable(&self) -> (r: bool)
        ensures
            r == self.enumerable,
    {
        self.enumerable
    }

    /// A writable, enumerable, configurable data property holding `value`.
    pub fn new_simple_value(value: JsValue) -> (r: PropertyDescriptor)
        ensures
            r == (PropertyDescriptor {
                kind: PropertyKind::Data { value, writable: true },
                enumerable: true,
                configurable: true,
            }),
    {
        PropertyDescriptor { kind: PropertyKind::Data { value, writable: true }, enumerable: true, configurable: true }
    }

    /// The exchange shape exposing exactly the attributes of this shape.
    pub fn from_property_descriptor(&self) -> (r: DescriptorRecord)
        ensures
            r == self.spec_record(),
    {
        match self.kind {
            PropertyKind::Data { value, writable } => DescriptorRecord {
                value: Some(value),
                writable: Some(JsValue::Boolean(writable)),
                get: None,
                set: None,
                enumerable: Some(JsValue::Boolean(self.enumerable)),
                configurable: Some(JsValue::Boolean(self.configurable)),
            },
            PropertyKind::Accessor { get, set } => DescriptorRecord {
                value: None,
                writable: None,
                get: Some(get),
                set: Some(set),
                enumerable: Some(JsValue::Boolean(self.enumerable)),
                configurable: Some(JsValue::Boolean(self.configurable)),
            },
        }
    }

    pub open spec fn spec_record(self) -> DescriptorRecord {
        let flags = DescriptorRecord {
            value: None,
            writable: None,
            get: None,
            set: None,
            enumerable: Some(JsValue::Boolean(self.enumerable)),
            configurable: Some(JsValue::Boolean(self.configurable)),
        };
        match self.kind {
            PropertyKind::Data { value, writable } => DescriptorRecord {
                value: Some(value),
                writable: Some(JsValue::Boolean(writable)),
                ..flags
            },
            PropertyKind::Accessor { get, set } => DescriptorRecord { get: Some(get), set: Some(set), ..flags },
        }
    }
}

impl JsDescriptor {
    pub open spec fn is_accessor_descriptor(self) -> bool {
        self.get is Some || self.set is Some
    }

    pub open spec fn is_data_descriptor(self) -> bool {
        self.value is Some || self.writable is Some
    }

    pub open spec fn is_generic_descriptor(self) -> bool {
        !self.is_accessor_descriptor() && !self.is_data_descriptor()
    }

    /// The property with every attribute absent from `self` taken at its default.
    pub open spec fn blank(self, enumerable: bool, configurable: bool) -> PropertyDescriptor {
        PropertyDescriptor {
            kind: if self.is_accessor_descriptor() {
                PropertyKind::Accessor { get: JsValue::Undefined, set: JsValue::Undefined }
            } else {
                PropertyKind::Data { value: JsValue::Undefined, writable: false }
            },
            enumerable,
            configurable,
        }
    }

    /// What the attributes present in `self` are laid over: the current
    /// property, or a blank of the new shape where there is none or the shape
    /// changes (keeping the current flags).
    pub open spec fn base(self, current: Option<PropertyDescriptor>) -> PropertyDescriptor {
        match current {
            None => self.blank(false, false),
            Some(c) => if self.is_generic_descriptor() || (c.is_data() == !self.is_accessor_descriptor()) {
                c
            } else {
                self.blank(c.enumerable, c.configurable)
            },
        }
    }

    /// `base` with each attribute present in `self` replaced.
    pub open spec fn overlay(self, base: PropertyDescriptor) -> PropertyDescriptor {
        PropertyDescriptor {
            kind: match base.kind {
                PropertyKind::Data { value, writable } => PropertyKind::Data {
                    value: if self.value is Some { self.value.unwrap() } else { value },
                    writable: if self.writable is Some { self.writable.unwrap() } else { writable },
                },
                PropertyKind::Accessor { get, set } => PropertyKind::Accessor {
                    get: if self.get is Some { self.get.unwrap() } else { get },
                    set: if self.set is Some { self.set.unwrap() } else { set },
                },
            },
            enumerable: if self.enumerable is Some { self.enumerable.unwrap() } else { base.enumerable },
            configurable: if self.configurable is Some { self.configurable.unwrap() } else { base.configurable },
        }
    }

    /// The property stored when `self` is defined over `current`.
    pub open spec fn applied(self, current: Option<PropertyDescriptor>) -> PropertyDescriptor {
        self.overlay(self.base(current))
    }

    /// Whether defining `self` over `current`, on an object whose extensible
    /// flag is `extensible`, is allowed.
    pub open spec fn admissible(self, current: Option<PropertyDescriptor>, extensible: bool) -> bool {
        match current {
            None => extensible,
            Some(c) => c.configurable || {
                &&& self.configurable != Some(true)
                &&& (self.enumerable is Some ==> self.enumerable.unwrap() == c.enumerable)
                &&& (!self.is_generic_descriptor() ==> c.is_data() == !self.is_accessor_descriptor())
                &&& match c.kind {
                    PropertyKind::Data { value, writable } => !writable ==> {
                        &&& self.writable != Some(true)
                        &&& (self.value is Some ==> same_value(self.value.unwrap(), value))
                    },
                    PropertyKind::Accessor { get, set } => {
                        &&& (self.get is Some ==> same_value(self.get.unwrap(), get))
                        &&& (self.set is Some ==> same_value(self.set.unwrap(), set))
                    },
                }
            },
        }
    }

    /// The outcome of defining `self` over `current`: the property to store,
    /// or `None` where the definition is refused.
    pub open spec fn outcome(self, current: Option<PropertyDescriptor>, extensible: bool) -> Option<PropertyDescriptor> {
        if self.admissible(current, extensible) {
            Some(self.applied(current))
        } else {
            None
        }
    }

    pub fn is_accessor(&self) -> (r: bool)
        ensures
            r == self.is_accessor_descriptor(),
    {
        self.get.is_some() || self.set.is_some()
    }

    pub fn is_data(&self) -> (r: bool)
        ensures
            r == self.is_data_descriptor(),
    {
        self.value.is_some() || self.writable.is_some()
    }

    fn make_blank(&self, enumerable: bool, configurable: bool) -> (r: PropertyDescriptor)
        ensures
            r == self.blank(enumerable, configurable),
    {
        let kind = if self.is_accessor() {
            PropertyKind::Accessor { get: JsValue::Undefined, set: JsValue::Undefined }
        } else {
            PropertyKind::Data { value: JsValue::Undefined, writable: false }
        };
        PropertyDescriptor { kind, enumerable, configurable }
    }

    fn lay_over(&self, base: PropertyDescriptor) -> (r: PropertyDescriptor)
        ensures
            r == self.overlay(base),
    {
        let kind = match base.kind {
            PropertyKind::Data { value, writable } => PropertyKind::Data {
                value: match self.value { Some(v) => v, None => value },
                writable: match self.writable { Some(w) => w, None => writable },
            },
            PropertyKind::Accessor { get, set } => PropertyKind::Accessor {
                get: match self.get { Some(g) => g, None => get },
                set: match self.set { Some(s) => s, None => set },
            },
        };
        PropertyDescriptor {
            kind,
            enumerable: match self.enumerable { Some(e) => e, None => base.enumerable },
            configurable: match self.configurable { Some(c) => c, None => base.configurable },
        }
    }

    fn check(&self, current: Option<PropertyDescriptor>, extensible: bool) -> (r: bool)
        ensures
            r == self.admissible(current, extensible),
    {
        match current {
            None => extensible,
            Some(c) => {
                if c.configurable {
                    return true;
                }
                if self.configurable == Some(true) {
                    return false;
                }
                match self.enumerable {
                    Some(e) => if e != c.enumerable {
                        return false;
                    },
                    None => {},
                }
                let generic = !self.is_accessor() && !self.is_data();
                let c_data = match c.kind {
                    PropertyKind::Data { .. } => true,
                    PropertyKind::Accessor { .. } => false,
                };
                if !generic && c_data != !self.is_accessor() {
                    return false;
                }
                match c.kind {
                    PropertyKind::Data { value, writable } => {
                        if writable {
                            true
                        } else if self.writable == Some(true) {
                            false
                        } else {
                            match self.value {
                                Some(v) => same_value_exec(v, value),
                                None => true,
                            }
                        }
                    },
                    PropertyKind::Accessor { get, set } => {
                        let get_ok = match self.get {
                            Some(g) => same_value_exec(g, get),
                            None => true,
                        };
                        let set_ok = match self.set {
                            Some(s) => same_value_exec(s, set),
                            None => true,
                        };
                        get_ok && set_ok
                    },
                }
            },
        }
    }

    /// Validates this definition against `current` and, where it is allowed,
    /// gives the merged property to store.
    pub fn define_outcome(&self, current: Option<PropertyDescriptor>, extensible: bool) -> (r: Option<PropertyDescriptor>)
        ensures
            r == self.outcome(current, extensible),
    {
        if !self.check(current, extensible) {
            return None;
        }
        let base = match current {
            None => self.make_blank(false, false),
            Some(c) => {
                let generic = !self.is_accessor() && !self.is_data();
                let c_data = match c.kind {
                    PropertyKind::Data { .. } => true,
                    PropertyKind::Accessor { .. } => false,
                };
                if generic || c_data == !self.is_accessor() {
                    c
                } else {
                    self.make_blank(c.enumerable, c.configurable)
                }
            },
        };
        Some(self.lay_over(base))
    }
}

/// The extensible flag only gates new properties: with it cleared, a
/// definition of an absent property is refused, and a definition over an
/// existing one is judged by that property's own attributes alone.
pub proof fn lemma_extensible_gates_only_new(desc: JsDescriptor, current: Option<PropertyDescriptor>)
    ensures
        current is None ==> desc.outcome(current, false) is None,
        current is Some ==> desc.outcome(current, false) == desc.outcome(current, true),
{
}

} // verus!
