//! The engine context: the interner, the heap of objects, and the
//! primitive operations that built-ins are written against.
use vstd::prelude::*;
use vstd::set_lib::{lemma_int_range, lemma_len_subset, set_int_range};
use crate::interner::{Name, StrInterner};
use crate::value::{JsValue, JsError, ObjId};
use crate::descriptor::{DescriptorRecord, JsDescriptor, PropertyDescriptor};
use crate::object::JsObject;

verus! {

/// An object fits a heap of `nobj` objects and an interner of `nstr` names.
pub open spec fn object_ok(o: JsObject, nstr: nat, nobj: nat) -> bool {
    &&& o.wf()
    &&& (o.proto() is Some ==> (o.proto().unwrap().0 as nat) < nobj)
    &&& (o.class_tag() is Some ==> o.class_tag().unwrap().index() < nstr)
    &&& forall|n: Name| #[trigger] o.own(n) is Some ==> n.index() < nstr
}

/// The object `k` links up the prototype chain from `cur`, if the chain is
/// that long.
pub open spec fn chain_at(objs: Seq<JsObject>, cur: ObjId, k: nat) -> Option<ObjId>
    decreases k,
{
    if k == 0 {
        Some(cur)
    } else {
        match objs[cur.0 as int].proto() {
            None => None,
            Some(p) => chain_at(objs, p, (k - 1) as nat),
        }
    }
}

/// A text whose first character starts no entry is not registered.
proof fn lemma_fresh_text(i: StrInterner, s: Seq<char>)
    requires
        s.len() > 0,
        forall|k: int| 0 <= k < i.spec_len() ==> #[trigger] i.strings()[k].len() > 0 && i.strings()[k][0] != s[0],
    ensures
        i.lookup(s) is None,
{
    assert forall|n: Name| !i.maps(s, n) by {
        if i.maps(s, n) {
            assert(i.strings()[n.index() as int][0] == s[0]);
        }
    }
}

/// Where a walk up the prototype chain from `cur` first meets `target`:
/// `Some(true)` if it does, `Some(false)` if the chain ends first, `None` if
/// `fuel` links were followed without either.
pub open spec fn chain_search(objs: Seq<JsObject>, cur: ObjId, target: ObjId, fuel: nat) -> Option<bool>
    decreases fuel,
{
    if fuel == 0 {
        None
    } else {
        match objs[cur.0 as int].proto() {
            None => Some(false),
            Some(p) => if p == target {
                Some(true)
            } else {
                chain_search(objs, p, target, (fuel - 1) as nat)
            },
        }
    }
}

/// The property `name` as found on `cur` or the first object up its chain
/// that has it; `None` if `fuel` objects were visited without an answer.
pub open spec fn chain_lookup(objs: Seq<JsObject>, cur: ObjId, name: Name, fuel: nat) -> Option<Option<PropertyDescriptor>>
    decreases fuel,
{
    if fuel == 0 {
        None
    } else {
        match objs[cur.0 as int].own(name) {
            Some(p) => Some(Some(p)),
            None => match objs[cur.0 as int].proto() {
                None => Some(None),
                Some(q) => chain_lookup(objs, q, name, (fuel - 1) as nat),
            },
        }
    }
}

pub open spec fn number_truthy(bits: u64) -> bool {
    (bits & 0x7fff_ffff_ffff_ffffu64) != 0 && !crate::value::is_nan_bits(bits)
}

/// One engine instance: its interner, its heap of objects addressed by
/// `ObjId`, the default prototype, and the names the built-ins rely on.
pub struct JsEnv {
    interner: StrInterner,
    objects: Vec<JsObject>,
    object_prototype: ObjId,
    class_object: Name,
    class_string: Name,
    class_boolean: Name,
    class_number: Name,
    class_function: Name,
    to_string_name: Name,
}

impl JsEnv {
    pub closed spec fn names(&self) -> StrInterner {
        self.interner
    }

    pub closed spec fn objs(&self) -> Seq<JsObject> {
        self.objects@
    }

    /// The default prototype of new ordinary objects.
    pub closed spec fn root_prototype(&self) -> ObjId {
        self.object_prototype
    }

    pub closed spec fn class_names(&self) -> (Name, Name, Name, Name, Name) {
        (self.class_object, self.class_string, self.class_boolean, self.class_number, self.class_function)
    }

    pub closed spec fn to_string_key(&self) -> Name {
        self.to_string_name
    }

    pub open spec fn text(&self, n: Name) -> Seq<char> {
        self.names().strings()[n.index() as int]
    }

    pub open spec fn nstr(&self) -> nat {
        self.names().spec_len()
    }

    pub open spec fn nobj(&self) -> nat {
        self.objs().len()
    }

    pub open spec fn valid_id(&self, id: ObjId) -> bool {
        (id.0 as nat) < self.nobj()
    }

    pub open spec fn obj(&self, id: ObjId) -> JsObject {
        self.objs()[id.0 as int]
    }

    /// A value whose name or handle belongs to this context.
    pub open spec fn valid_value(&self, v: JsValue) -> bool {
        match v {
            JsValue::String(n) => n.index() < self.nstr(),
            JsValue::Object(id) => self.valid_id(id),
            _ => true,
        }
    }

    pub open spec fn wf(&self) -> bool {
        let (o, s, b, n, f) = self.class_names();
        &&& self.names().wf()
        &&& self.valid_id(self.root_prototype())
        &&& o.index() < self.nstr() && self.text(o) == "Object"@
        &&& s.index() < self.nstr() && self.text(s) == "String"@
        &&& b.index() < self.nstr() && self.text(b) == "Boolean"@
        &&& n.index() < self.nstr() && self.text(n) == "Number"@
        &&& f.index() < self.nstr() && self.text(f) == "Function"@
        &&& self.to_string_key().index() < self.nstr() && self.text(self.to_string_key()) == "toString"@
        &&& forall|i: int| 0 <= i < self.nobj() ==> object_ok(#[trigger] self.objs()[i], self.nstr(), self.nobj())
    }

    /// Everything but the heap of objects is as in `other`, and the heap
    /// only grew.
    pub open spec fn extends(&self, other: &JsEnv) -> bool {
        &&& self.names() == other.names()
        &&& self.root_prototype() == other.root_prototype()
        &&& self.class_names() == other.class_names()
        &&& self.to_string_key() == other.to_string_key()
        &&& self.nobj() >= other.nobj()
        &&& forall|i: int| 0 <= i < other.nobj() ==> #[trigger] self.objs()[i] == other.objs()[i]
    }

    /// Only object `id` changed, and not its links.
    pub open spec fn updates(&self, other: &JsEnv, id: ObjId) -> bool {
        &&& self.names() == other.names()
        &&& self.root_prototype() == other.root_prototype()
        &&& self.class_names() == other.class_names()
        &&& self.to_string_key() == other.to_string_key()
        &&& self.nobj() == other.nobj()
        &&& forall|i: int| 0 <= i < other.nobj() && i != id.0 ==> #[trigger] self.objs()[i] == other.objs()[i]
    }

    proof fn lemma_object_ok_grows(o: JsObject, nstr: nat, nobj: nat, nstr2: nat, nobj2: nat)
        requires
            object_ok(o, nstr, nobj),
            nstr <= nstr2,
            nobj <= nobj2,
        ensures
            object_ok(o, nstr2, nobj2),
    {
    }

    /// A context with the root prototype object and the well-known names.
    pub fn new() -> (r: JsEnv)
        ensures
            r.wf(),
            r.nstr() == 6,
            r.nobj() == 1,
            r.obj(r.root_prototype()).proto() is None,
            r.obj(r.root_prototype()).class_tag() == Some(r.class_names().0),
            r.obj(r.root_prototype()).slots().len() == 0,
    {
        let mut interner = StrInterner::new();
        proof {
            reveal_strlit("Object");
            reveal_strlit("String");
            reveal_strlit("Boolean");
            reveal_strlit("Number");
            reveal_strlit("Function");
            reveal_strlit("toString");
        }
        proof {
            lemma_fresh_text(interner, "Object"@);
        }
        let class_object = interner.intern("Object");
        proof {
            lemma_fresh_text(interner, "String"@);
        }
        let class_string = interner.intern("String");
        proof {
            lemma_fresh_text(interner, "Boolean"@);
        }
        let class_boolean = interner.intern("Boolean");
        proof {
            lemma_fresh_text(interner, "Number"@);
        }
        let class_number = interner.intern("Number");
        proof {
            lemma_fresh_text(interner, "Function"@);
        }
        let class_function = interner.intern("Function");
        proof {
            lemma_fresh_text(interner, "toString"@);
        }
        let to_string_name = interner.intern("toString");
        let mut objects: Vec<JsObject> = Vec::new();
        objects.push(JsObject::with_parts(None, Some(class_object), None, false));
        let r = JsEnv {
            interner,
            objects,
            object_prototype: ObjId(0),
            class_object,
            class_string,
            class_boolean,
            class_number,
            class_function,
            to_string_name,
        };
        assert(object_ok(r.objs()[0], r.nstr(), r.nobj()));
        r
    }

    pub fn to_string_name(&self) -> (r: Name)
        ensures
            r == self.to_string_key(),
    {
        self.to_string_name
    }

    pub fn interner(&self) -> (r: &StrInterner)
        ensures
            *r == self.names(),
    {
        &self.interner
    }

    /// The canonical name of `s`.
    pub fn intern(&mut self, s: &str) -> (r: Name)
        requires
            old(self).wf(),
            old(self).nstr() < u32::MAX,
        ensures
            final(self).wf(),
            crate::interner::interned(old(self).names(), final(self).names(), s@, r),
            final(self).objs() == old(self).objs(),
            final(self).root_prototype() == old(self).root_prototype(),
            final(self).class_names() == old(self).class_names(),
            final(self).to_string_key() == old(self).to_string_key(),
            final(self).names().maps(s@, r),
            final(self).names().lookup(s@) == Some(r),
            old(self).names().lookup(s@) is Some ==> final(self).names() == old(self).names(),
            old(self).names().lookup(s@) is None ==> final(self).names().strings() == old(self).names().strings().push(s@),
            old(self).names().lookup(s@) is None ==> r.index() == old(self).nstr(),
            final(self).nstr() >= old(self).nstr(),
            forall|k: int| 0 <= k < old(self).nstr() ==> #[trigger] final(self).names().strings()[k] == old(self).names().strings()[k],
    {
        let r = self.interner.intern(s);
        proof {
            assert forall|i: int| 0 <= i < self.nobj() implies object_ok(#[trigger] self.objs()[i], self.nstr(), self.nobj()) by {
                assert(object_ok(old(self).objs()[i], old(self).nstr(), old(self).nobj()));
                Self::lemma_object_ok_grows(self.objs()[i], old(self).nstr(), old(self).nobj(), self.nstr(), self.nobj());
            }
        }
        r
    }

    fn allocate(&mut self, o: JsObject) -> (r: ObjId)
        requires
            old(self).wf(),
            object_ok(o, old(self).nstr(), old(self).nobj() + 1),
            old(self).nobj() < usize::MAX,
        ensures
            final(self).wf(),
            final(self).extends(old(self)),
            final(self).nobj() == old(self).nobj() + 1,
            r.0 == old(self).nobj(),
            final(self).obj(r) == o,
    {
        let r = ObjId(self.objects.len());
        self.objects.push(o);
        proof {
            assert forall|i: int| 0 <= i < self.nobj() implies object_ok(#[trigger] self.objs()[i], self.nstr(), self.nobj()) by {
                if i < old(self).nobj() {
                    assert(object_ok(old(self).objs()[i], old(self).nstr(), old(self).nobj()));
                    Self::lemma_object_ok_grows(self.objs()[i], old(self).nstr(), old(self).nobj(), self.nstr(), self.nobj());
                }
            }
        }
        r
    }

    pub fn object(&self, id: ObjId) -> (r: &JsObject)
        requires
            self.valid_id(id),
        ensures
            *r == self.obj(id),
    {
        &self.objects[id.0]
    }

    pub fn object_count(&self) -> (r: usize)
        ensures
            r == self.nobj(),
    {
        self.objects.len()
    }

    /// A new ordinary object: empty, extensible, with the default prototype
    /// and the class tag `Object`.
    pub fn create_object(&mut self) -> (r: ObjId)
        requires
            old(self).wf(),
            old(self).nobj() < usize::MAX,
        ensures
            final(self).wf(),
            final(self).extends(old(self)),
            final(self).nobj() == old(self).nobj() + 1,
            r.0 == old(self).nobj(),
            final(self).obj(r).slots().len() == 0,
            final(self).obj(r).proto() == Some(old(self).root_prototype()),
            final(self).obj(r).is_extensible(),
            final(self).obj(r).class_tag() == Some(old(self).class_names().0),
            final(self).obj(r).primitive_value() is None,
            !final(self).obj(r).is_callable(),
    {
        let o = JsObject::with_parts(Some(self.object_prototype), Some(self.class_object), None, false);
        self.allocate(o)
    }

    /// A new empty object with the given prototype and no class tag.
    pub fn create_bare_object(&mut self, prototype: Option<ObjId>) -> (r: ObjId)
        requires
            old(self).wf(),
            old(self).nobj() < usize::MAX,
            prototype is Some ==> old(self).valid_id(prototype.unwrap()),
        ensures
            final(self).wf(),
            final(self).extends(old(self)),
            final(self).nobj() == old(self).nobj() + 1,
            r.0 == old(self).nobj(),
            final(self).obj(r).slots().len() == 0,
            final(self).obj(r).proto() == prototype,
            final(self).obj(r).is_extensible(),
            final(self).obj(r).class_tag() is None,
            final(self).obj(r).primitive_value() is None,
            !final(self).obj(r).is_callable(),
    {
        self.allocate(JsObject::new(prototype))
    }

    /// A new callable object with the default prototype and the class tag `Function`.
    pub fn create_function(&mut self) -> (r: ObjId)
        requires
            old(self).wf(),
            old(self).nobj() < usize::MAX,
        ensures
            final(self).wf(),
            final(self).extends(old(self)),
            final(self).nobj() == old(self).nobj() + 1,
            r.0 == old(self).nobj(),
            final(self).obj(r).slots().len() == 0,
            final(self).obj(r).proto() == Some(old(self).root_prototype()),
            final(self).obj(r).class_tag() == Some(old(self).class_names().4),
            final(self).obj(r).is_callable(),
    {
        let o = JsObject::with_parts(Some(self.object_prototype), Some(self.class_function), None, true);
        self.allocate(o)
    }

    /// Defines the own property `name` of object `id` (see
    /// `JsObject::define_own_property`).
    pub fn define_own_property(&mut self, id: ObjId, name: Name, desc: JsDescriptor, throw: bool) -> (r: Result<bool, JsError>)
        requires
            old(self).wf(),
            old(self).valid_id(id),
            name.index() < old(self).nstr(),
        ensures
            final(self).wf(),
            final(self).updates(old(self), id),
            final(self).obj(id).proto() == old(self).obj(id).proto(),
            final(self).obj(id).is_extensible() == old(self).obj(id).is_extensible(),
            final(self).obj(id).class_tag() == old(self).obj(id).class_tag(),
            final(self).obj(id).primitive_value() == old(self).obj(id).primitive_value(),
            final(self).obj(id).is_callable() == old(self).obj(id).is_callable(),
            match desc.outcome(old(self).obj(id).own(name), old(self).obj(id).is_extensible()) {
                Some(p) => {
                    &&& r == Ok::<bool, JsError>(true)
                    &&& final(self).obj(id).own(name) == Some(p)
                    &&& forall|n: Name| n != name ==> final(self).obj(id).own(n) == old(self).obj(id).own(n)
                    &&& old(self).obj(id).own(name) is None ==> final(self).obj(id).slots()
                        == old(self).obj(id).slots().push(Some((name, p)))
                    &&& forall|i: int| #[trigger] old(self).obj(id).holds(i, name) ==> final(self).obj(id).slots()
                        == old(self).obj(id).slots().update(i, Some((name, p)))
                },
                None => {
                    &&& final(self).objs() == old(self).objs()
                    &&& r == if throw { Err::<bool, JsError>(JsError::TypeCannotDefine) } else { Ok(false) }
                },
            },
    {
        proof {
            assert(object_ok(self.objs()[id.0 as int], self.nstr(), self.nobj()));
        }
        let ghost before = *self;
        let r = self.objects[id.0].define_own_property(name, desc, throw);
        proof {
            if desc.outcome(before.obj(id).own(name), before.obj(id).is_extensible()) is None {
                assert(self.objects@ =~= before.objects@);
            }
            assert forall|i: int| 0 <= i < self.nobj() implies object_ok(#[trigger] self.objs()[i], self.nstr(), self.nobj()) by {
                assert(object_ok(before.objs()[i], self.nstr(), self.nobj()));
                if i == id.0 {
                    let o = self.objs()[i];
                    assert forall|n: Name| #[trigger] o.own(n) is Some implies n.index() < self.nstr() by {
                        if n != name {
                            assert(before.objs()[i].own(n) is Some);
                        }
                    }
                }
            }
        }
        r
    }

    /// Removes the own property `name` of object `id` (see `JsObject::delete`).
    pub fn delete(&mut self, id: ObjId, name: Name) -> (r: bool)
        requires
            old(self).wf(),
            old(self).valid_id(id),
        ensures
            final(self).wf(),
            final(self).updates(old(self), id),
            final(self).obj(id).slots().len() == old(self).obj(id).slots().len(),
            final(self).obj(id).proto() == old(self).obj(id).proto(),
            final(self).obj(id).is_extensible() == old(self).obj(id).is_extensible(),
            final(self).obj(id).class_tag() == old(self).obj(id).class_tag(),
            final(self).obj(id).primitive_value() == old(self).obj(id).primitive_value(),
            final(self).obj(id).is_callable() == old(self).obj(id).is_callable(),
            r == (old(self).obj(id).own(name) is None || old(self).obj(id).own(name).unwrap().configurable),
            r ==> final(self).obj(id).own(name) is None,
            !r ==> final(self).objs() == old(self).objs(),
            forall|n: Name| n != name ==> final(self).obj(id).own(n) == old(self).obj(id).own(n),
    {
        proof {
            assert(object_ok(self.objs()[id.0 as int], self.nstr(), self.nobj()));
        }
        let ghost before = *self;
        let r = self.objects[id.0].delete(name);
        proof {
            if !r {
                assert(self.objects@ =~= before.objects@);
            }
            assert forall|i: int| 0 <= i < self.nobj() implies object_ok(#[trigger] self.objs()[i], self.nstr(), self.nobj()) by {
                assert(object_ok(before.objs()[i], self.nstr(), self.nobj()));
                if i == id.0 {
                    let o = self.objs()[i];
                    assert forall|n: Name| #[trigger] o.own(n) is Some implies n.index() < self.nstr() by {
                        if n != name {
                            assert(before.objs()[i].own(n) is Some);
                        }
                    }
                }
            }
        }
        r
    }

    /// Replaces the prototype link of object `id`.
    pub fn set_prototype(&mut self, id: ObjId, prototype: Option<ObjId>)
        requires
            old(self).wf(),
            old(self).valid_id(id),
            prototype is Some ==> old(self).valid_id(prototype.unwrap()),
        ensures
            final(self).wf(),
            final(self).updates(old(self), id),
            final(self).obj(id).proto() == prototype,
            final(self).obj(id).slots() == old(self).obj(id).slots(),
            final(self).obj(id).is_extensible() == old(self).obj(id).is_extensible(),
            final(self).obj(id).class_tag() == old(self).obj(id).class_tag(),
            final(self).obj(id).primitive_value() == old(self).obj(id).primitive_value(),
            final(self).obj(id).is_callable() == old(self).obj(id).is_callable(),
    {
        proof {
            assert(object_ok(self.objs()[id.0 as int], self.nstr(), self.nobj()));
        }
        let ghost before = *self;
        self.objects[id.0].set_prototype(prototype);
        proof {
            assert forall|i: int| 0 <= i < self.nobj() implies object_ok(#[trigger] self.objs()[i], self.nstr(), self.nobj()) by {
                assert(object_ok(before.objs()[i], self.nstr(), self.nobj()));
                if i == id.0 {
                    let o = self.objs()[i];
                    o.lemma_own_same_slots(&before.objs()[i]);
                    assert forall|n: Name| #[trigger] o.own(n) is Some implies n.index() < self.nstr() by {
                        assert(before.objs()[i].own(n) is Some);
                    }
                }
            }
        }
    }

    /// Sets the extensible flag of object `id`.
    pub fn set_extensible(&mut self, id: ObjId, extensible: bool)
        requires
            old(self).wf(),
            old(self).valid_id(id),
        ensures
            final(self).wf(),
            final(self).updates(old(self), id),
            final(self).obj(id).is_extensible() == extensible,
            final(self).obj(id).slots() == old(self).obj(id).slots(),
            final(self).obj(id).proto() == old(self).obj(id).proto(),
            final(self).obj(id).class_tag() == old(self).obj(id).class_tag(),
            final(self).obj(id).primitive_value() == old(self).obj(id).primitive_value(),
            final(self).obj(id).is_callable() == old(self).obj(id).is_callable(),
    {
        proof {
            assert(object_ok(self.objs()[id.0 as int], self.nstr(), self.nobj()));
        }
        let ghost before = *self;
        self.objects[id.0].set_extensible(extensible);
        proof {
            assert forall|i: int| 0 <= i < self.nobj() implies object_ok(#[trigger] self.objs()[i], self.nstr(), self.nobj()) by {
                assert(object_ok(before.objs()[i], self.nstr(), self.nobj()));
                if i == id.0 {
                    let o = self.objs()[i];
                    o.lemma_own_same_slots(&before.objs()[i]);
                    assert forall|n: Name| #[trigger] o.own(n) is Some implies n.index() < self.nstr() by {
                        assert(before.objs()[i].own(n) is Some);
                    }
                }
            }
        }
    }

    /// Whether `v` is a callable object.
    pub fn is_callable(&self, v: JsValue) -> (r: bool)
        ensures
            r == self.callable_value(v),
    {
        match v {
            JsValue::Object(id) => id.0 < self.objects.len() && self.objects[id.0].callable(),
            _ => false,
        }
    }

    pub open spec fn callable_value(&self, v: JsValue) -> bool {
        match v {
            JsValue::Object(id) => self.valid_id(id) && self.obj(id).is_callable(),
            _ => false,
        }
    }

    /// The ToBoolean coercion.
    pub open spec fn truthy(&self, v: JsValue) -> bool {
        match v {
            JsValue::Undefined | JsValue::Null => false,
            JsValue::Boolean(b) => b,
            JsValue::Number(bits) => number_truthy(bits),
            JsValue::String(n) => self.text(n).len() > 0,
            JsValue::Object(_) => true,
        }
    }

    pub fn to_boolean(&self, v: JsValue) -> (r: bool)
        requires
            self.wf(),
            self.valid_value(v),
        ensures
            r == self.truthy(v),
    {
        match v {
            JsValue::Undefined | JsValue::Null => false,
            JsValue::Boolean(b) => b,
            JsValue::Number(bits) => (bits & 0x7fff_ffff_ffff_ffffu64) != 0 && !crate::value::is_nan(bits),
            JsValue::String(n) => !self.interner.get(n).as_str().is_empty(),
            JsValue::Object(_) => true,
        }
    }

    /// The ToObject coercion: an object is itself; a string, boolean or
    /// number is wrapped in a new object; undefined and null are refused.
    pub fn to_object(&mut self, v: JsValue) -> (r: Result<ObjId, JsError>)
        requires
            old(self).wf(),
            old(self).valid_value(v),
            old(self).nobj() < usize::MAX,
        ensures
            final(self).wf(),
            final(self).extends(old(self)),
            match v {
                JsValue::Undefined | JsValue::Null => {
                    &&& r == Err::<ObjId, JsError>(JsError::TypeInvalid)
                    &&& final(self).objs() == old(self).objs()
                },
                JsValue::Object(id) => r == Ok::<ObjId, JsError>(id) && final(self).objs() == old(self).objs(),
                _ => {
                    &&& r == Ok::<ObjId, JsError>(ObjId(old(self).nobj() as usize))
                    &&& final(self).nobj() == old(self).nobj() + 1
                    &&& final(self).obj(r.unwrap()).primitive_value() == Some(v)
                    &&& final(self).obj(r.unwrap()).proto() == Some(old(self).root_prototype())
                    &&& final(self).obj(r.unwrap()).slots().len() == 0
                    &&& final(self).obj(r.unwrap()).is_extensible()
                    &&& final(self).obj(r.unwrap()).class_tag() == Some(match v {
                        JsValue::String(_) => old(self).class_names().1,
                        JsValue::Boolean(_) => old(self).class_names().2,
                        _ => old(self).class_names().3,
                    })
                },
            },
    {
        let class = match v {
            JsValue::Undefined | JsValue::Null => {
                return Err(JsError::TypeInvalid);
            },
            JsValue::Object(id) => {
                return Ok(id);
            },
            JsValue::String(_) => self.class_string,
            JsValue::Boolean(_) => self.class_boolean,
            JsValue::Number(_) => self.class_number,
        };
        let o = JsObject::with_parts(Some(self.object_prototype), Some(class), Some(v), false);
        Ok(self.allocate(o))
    }

    /// The descriptor a record converts to, or the error it is refused with.
    pub open spec fn descriptor_of(&self, rec: DescriptorRecord) -> Result<JsDescriptor, JsError> {
        let bad_accessor = |f: Option<JsValue>| f is Some && !self.callable_value(f.unwrap()) && f.unwrap() != JsValue::Undefined;
        if bad_accessor(rec.get) || bad_accessor(rec.set) {
            Err(JsError::TypeNotCallable)
        } else if (rec.get is Some || rec.set is Some) && (rec.value is Some || rec.writable is Some) {
            Err(JsError::TypeMixedDescriptor)
        } else {
            Ok(JsDescriptor {
                value: rec.value,
                writable: if rec.writable is Some { Some(self.truthy(rec.writable.unwrap())) } else { None },
                get: rec.get,
                set: rec.set,
                enumerable: if rec.enumerable is Some { Some(self.truthy(rec.enumerable.unwrap())) } else { None },
                configurable: if rec.configurable is Some { Some(self.truthy(rec.configurable.unwrap())) } else { None },
            })
        }
    }

    pub open spec fn valid_record(&self, rec: DescriptorRecord) -> bool {
        let ok = |f: Option<JsValue>| f is Some ==> self.valid_value(f.unwrap());
        ok(rec.value) && ok(rec.writable) && ok(rec.get) && ok(rec.set) && ok(rec.enumerable) && ok(rec.configurable)
    }

    fn flag(&self, f: Option<JsValue>) -> (r: Option<bool>)
        requires
            self.wf(),
            f is Some ==> self.valid_value(f.unwrap()),
        ensures
            r == if f is Some { Some(self.truthy(f.unwrap())) } else { None::<bool> },
    {
        match f {
            Some(v) => Some(self.to_boolean(v)),
            None => None,
        }
    }

    fn accessor_ok(&self, f: Option<JsValue>) -> (r: bool)
        requires
            f is Some ==> self.valid_value(f.unwrap()),
        ensures
            r == !(f is Some && !self.callable_value(f.unwrap()) && f.unwrap() != JsValue::Undefined),
    {
        match f {
            Some(v) => v.is_undefined() || self.is_callable(v),
            None => true,
        }
    }

    /// Reads a descriptor from its exchange shape. Booleans are coerced;
    /// `get` and `set` must be callable or undefined, and data and accessor
    /// attributes may not be mixed.
    pub fn to_property_descriptor(&self, rec: &DescriptorRecord) -> (r: Result<JsDescriptor, JsError>)
        requires
            self.wf(),
            self.valid_record(*rec),
        ensures
            r == self.descriptor_of(*rec),
    {
        if !self.accessor_ok(rec.get) || !self.accessor_ok(rec.set) {
            return Err(JsError::TypeNotCallable);
        }
        if (rec.get.is_some() || rec.set.is_some()) && (rec.value.is_some() || rec.writable.is_some()) {
            return Err(JsError::TypeMixedDescriptor);
        }
        Ok(JsDescriptor {
            value: rec.value,
            writable: self.flag(rec.writable),
            get: rec.get,
            set: rec.set,
            enumerable: self.flag(rec.enumerable),
            configurable: self.flag(rec.configurable),
        })
    }

    /// Walks the prototype chain of `start`, looking for `target`. A chain
    /// longer than the number of objects must loop, and is reported as
    /// `CyclicPrototype`.
    pub fn prototype_chain_contains(&self, start: ObjId, target: ObjId) -> (r: Result<bool, JsError>)
        requires
            self.wf(),
            self.valid_id(start),
        ensures
            r == match chain_search(self.objs(), start, target, self.nobj()) {
                Some(b) => Ok::<bool, JsError>(b),
                None => Err(JsError::CyclicPrototype),
            },
    {
        let mut cur = start;
        let mut fuel: usize = self.objects.len();
        while fuel > 0
            invariant
                self.wf(),
                self.valid_id(cur),
                fuel <= self.nobj(),
                chain_search(self.objs(), cur, target, fuel as nat) == chain_search(self.objs(), start, target, self.nobj()),
            decreases fuel,
        {
            proof {
                assert(object_ok(self.objs()[cur.0 as int], self.nstr(), self.nobj()));
            }
            match self.objects[cur.0].prototype() {
                None => {
                    return Ok(false);
                },
                Some(p) => {
                    if p == target {
                        return Ok(true);
                    }
                    cur = p;
                },
            }
            fuel = fuel - 1;
        }
        Err(JsError::CyclicPrototype)
    }

    /// The property `name` of object `id`, found on it or up its prototype
    /// chain; a chain that loops is reported as `CyclicPrototype`.
    pub fn get_property(&self, id: ObjId, name: Name) -> (r: Result<Option<PropertyDescriptor>, JsError>)
        requires
            self.wf(),
            self.valid_id(id),
        ensures
            r == match chain_lookup(self.objs(), id, name, self.nobj()) {
                Some(p) => Ok::<Option<PropertyDescriptor>, JsError>(p),
                None => Err(JsError::CyclicPrototype),
            },
    {
        let mut cur = id;
        let mut fuel: usize = self.objects.len();
        while fuel > 0
            invariant
                self.wf(),
                self.valid_id(cur),
                fuel <= self.nobj(),
                chain_lookup(self.objs(), cur, name, fuel as nat) == chain_lookup(self.objs(), id, name, self.nobj()),
            decreases fuel,
        {
            proof {
                assert(object_ok(self.objs()[cur.0 as int], self.nstr(), self.nobj()));
            }
            let o = &self.objects[cur.0];
            match o.get_own_property(name) {
                Some(p) => {
                    return Ok(Some(p));
                },
                None => {},
            }
            match o.prototype() {
                None => {
                    return Ok(None);
                },
                Some(p) => {
                    cur = p;
                },
            }
            fuel = fuel - 1;
        }
        Err(JsError::CyclicPrototype)
    }
}

/// A complete descriptor in its exchange shape: one shape's attributes all
/// present, booleans given as booleans, accessors callable or undefined.
pub open spec fn complete_record(env: &JsEnv, rec: DescriptorRecord) -> bool {
    let accessor_ok = |f: Option<JsValue>| f is Some && (env.callable_value(f.unwrap()) || f.unwrap() == JsValue::Undefined);
    &&& rec.enumerable matches Some(JsValue::Boolean(_))
    &&& rec.configurable matches Some(JsValue::Boolean(_))
    &&& {
        ||| rec.value is Some && (rec.writable matches Some(JsValue::Boolean(_))) && rec.get is None && rec.set is None
        ||| accessor_ok(rec.get) && accessor_ok(rec.set) && rec.value is None && rec.writable is None
    }
}

/// Reading a complete record into a descriptor, resolving it as a new
/// property and projecting it back gives the record again.
pub proof fn lemma_descriptor_round_trip(env: &JsEnv, rec: DescriptorRecord)
    requires
        complete_record(env, rec),
    ensures
        env.descriptor_of(rec) is Ok,
        env.descriptor_of(rec).unwrap().applied(None).spec_record() == rec,
{
}

proof fn lemma_search_exhausted(objs: Seq<JsObject>, cur: ObjId, target: ObjId, fuel: nat)
    requires
        chain_search(objs, cur, target, fuel) is None,
    ensures
        forall|k: nat| k <= fuel ==> #[trigger] chain_at(objs, cur, k) is Some,
    decreases fuel,
{
    if fuel > 0 {
        let p = objs[cur.0 as int].proto().unwrap();
        lemma_search_exhausted(objs, p, target, (fuel - 1) as nat);
        assert forall|k: nat| k <= fuel implies #[trigger] chain_at(objs, cur, k) is Some by {
            if k > 0 {
                assert(chain_at(objs, cur, k) == chain_at(objs, p, (k - 1) as nat));
            }
        }
    } else {
        assert forall|k: nat| k <= fuel implies #[trigger] chain_at(objs, cur, k) is Some by {
            assert(k == 0);
        }
    }
}

proof fn lemma_chain_stays_valid(env: &JsEnv, cur: ObjId, k: nat)
    requires
        env.wf(),
        env.valid_id(cur),
        chain_at(env.objs(), cur, k) is Some,
    ensures
        env.valid_id(chain_at(env.objs(), cur, k).unwrap()),
    decreases k,
{
    if k > 0 {
        assert(object_ok(env.objs()[cur.0 as int], env.nstr(), env.nobj()));
        let p = env.objs()[cur.0 as int].proto().unwrap();
        lemma_chain_stays_valid(env, p, (k - 1) as nat);
    }
}

/// A walk that `prototype_chain_contains` gives up on as cyclic does loop:
/// two different steps of the chain reach the same object.
pub proof fn lemma_exhausted_chain_has_cycle(env: &JsEnv, start: ObjId, target: ObjId)
    requires
        env.wf(),
        env.valid_id(start),
        chain_search(env.objs(), start, target, env.nobj()) is None,
    ensures
        exists|i: nat, j: nat| #![trigger chain_at(env.objs(), start, i), chain_at(env.objs(), start, j)]
            i < j <= env.nobj() && chain_at(env.objs(), start, i) is Some
            && chain_at(env.objs(), start, i) == chain_at(env.objs(), start, j),
{
    let n = env.nobj();
    let objs = env.objs();
    lemma_search_exhausted(objs, start, target, n);
    let ids = Seq::new(n + 1, |k: int| chain_at(objs, start, k as nat).unwrap().0 as int);
    assert forall|k: int| 0 <= k < ids.len() implies 0 <= #[trigger] ids[k] < n by {
        assert(chain_at(objs, start, k as nat) is Some);
        lemma_chain_stays_valid(env, start, k as nat);
    }
    if ids.no_duplicates() {
        ids.unique_seq_to_set();
        lemma_int_range(0, n as int);
        assert(ids.to_set().subset_of(set_int_range(0, n as int)));
        lemma_len_subset(ids.to_set(), set_int_range(0, n as int));
        assert(false);
    }
    let (i, j) = choose|i: int, j: int| 0 <= i < ids.len() && 0 <= j < ids.len() && i != j && ids[i] == ids[j];
    let (a, b) = if i < j { (i, j) } else { (j, i) };
    assert(chain_at(objs, start, a as nat) is Some);
    assert(chain_at(objs, start, b as nat) is Some);
    assert(ids[a] == ids[b]);
    assert(chain_at(objs, start, a as nat) == chain_at(objs, start, b as nat));
}

} // verus!
