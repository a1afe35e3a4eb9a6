//! The standard `Object` built-ins, written against the object model.
use vstd::prelude::*;
use vstd::string::StringExecFns;
use crate::interner::{Name, RcStr};
use crate::value::{JsValue, JsType, JsError, ObjId};
use crate::descriptor::{DescriptorRecord, PropertyKind};
use crate::object::{JsStoreKey, enumerable_keys};
use crate::env::{JsEnv, chain_search};

verus! {

/// How a built-in was invoked.
#[derive(Clone, Copy, Debug, PartialEq, Eq, Structural)]
pub struct JsFnMode {
    construct: bool,
    strict: bool,
}

impl JsFnMode {
    pub fn new(construct: bool, strict: bool) -> (r: JsFnMode)
        ensures
            r.spec_construct() == construct,
            r.spec_strict() == strict,
    {
        JsFnMode { construct, strict }
    }

    pub closed spec fn spec_construct(self) -> bool {
        self.construct
    }

    pub closed spec fn spec_strict(self) -> bool {
        self.strict
    }

    /// Invoked with `new`.
    pub fn construct(&self) -> (r: bool)
        ensures
            r == self.spec_construct(),
    {
        self.construct
    }

    pub fn strict(&self) -> (r: bool)
        ensures
            r == self.spec_strict(),
    {
        self.strict
    }
}

/// The receiver and arguments of a built-in call.
pub struct JsArgs {
    pub this: JsValue,
    pub args: Vec<JsValue>,
}

impl JsArgs {
    pub fn new(this: JsValue, args: Vec<JsValue>) -> (r: JsArgs)
        ensures
            r.this == this,
            r.args@ == args@,
    {
        JsArgs { this, args }
    }

    /// Argument `i`, or undefined where fewer were passed.
    pub open spec fn spec_arg(&self, i: int) -> JsValue {
        if 0 <= i < self.args@.len() {
            self.args@[i]
        } else {
            JsValue::Undefined
        }
    }

    pub fn arg(&self, i: usize) -> (r: JsValue)
        ensures
            r == self.spec_arg(i as int),
    {
        if i < self.args.len() {
            self.args[i]
        } else {
            JsValue::Undefined
        }
    }

    pub fn argc(&self) -> (r: usize)
        ensures
            r == self.args@.len(),
    {
        self.args.len()
    }

    pub fn this(&self) -> (r: JsValue)
        ensures
            r == self.this,
    {
        self.this
    }
}

/// The receiver and every argument belong to `env`.
pub open spec fn valid_args(env: &JsEnv, args: &JsArgs) -> bool {
    env.valid_value(args.this) && forall|i: int| 0 <= i < args.args@.len() ==> env.valid_value(#[trigger] args.args@[i])
}

/// Room for the objects and names that one built-in call may create.
pub open spec fn has_room(env: &JsEnv) -> bool {
    env.nobj() + 1 < usize::MAX && env.nstr() + 1 < u32::MAX
}

/// The class text that `toString` renders for a value other than undefined
/// and null.
pub open spec fn class_text(env: &JsEnv, v: JsValue) -> Seq<char> {
    match v {
        JsValue::Object(id) => match env.obj(id).class_tag() {
            Some(c) => env.text(c),
            None => "Unknown"@,
        },
        JsValue::String(_) => "String"@,
        JsValue::Boolean(_) => "Boolean"@,
        _ => "Number"@,
    }
}

/// The registered key that a value names, if any.
pub open spec fn key_of(env: &JsEnv, v: JsValue, given: Option<&str>) -> Option<Name> {
    env.names().lookup(key_text(env, v, given).unwrap())
}

/// A fresh ordinary object was appended to the heap.
pub open spec fn fresh_ordinary(before: &JsEnv, after: &JsEnv, r: JsValue) -> bool {
    &&& after.nobj() == before.nobj() + 1
    &&& r == JsValue::Object(ObjId(before.nobj() as usize))
    &&& after.obj(ObjId(before.nobj() as usize)).slots().len() == 0
    &&& after.obj(ObjId(before.nobj() as usize)).proto() == Some(before.root_prototype())
    &&& after.obj(ObjId(before.nobj() as usize)).class_tag() == Some(before.class_names().0)
    &&& after.obj(ObjId(before.nobj() as usize)).primitive_value() is None
    &&& after.obj(ObjId(before.nobj() as usize)).is_extensible()
}

/// `new Object(value)` and `Object(value)`: an object argument comes back
/// as it is, a string, boolean or number is wrapped, and anything else (or
/// no argument) gives a fresh ordinary object. Both modes agree.
#[allow(non_snake_case)]
pub fn Object_constructor(env: &mut JsEnv, mode: JsFnMode, args: &JsArgs) -> (r: Result<JsValue, JsError>)
    requires
        old(env).wf(),
        valid_args(old(env), args),
        has_room(old(env)),
    ensures
        final(env).wf(),
        final(env).extends(old(env)),
        match args.spec_arg(0) {
            JsValue::Object(_) => r == Ok::<JsValue, JsError>(args.spec_arg(0)) && final(env).objs() == old(env).objs(),
            JsValue::Undefined | JsValue::Null => r is Ok && fresh_ordinary(old(env), final(env), r.unwrap()),
            _ => {
                &&& final(env).nobj() == old(env).nobj() + 1
                &&& r == Ok::<JsValue, JsError>(JsValue::Object(ObjId(old(env).nobj() as usize)))
                &&& final(env).obj(ObjId(old(env).nobj() as usize)).primitive_value() == Some(args.spec_arg(0))
                &&& final(env).obj(ObjId(old(env).nobj() as usize)).proto() == Some(old(env).root_prototype())
                &&& final(env).obj(ObjId(old(env).nobj() as usize)).slots().len() == 0
                &&& final(env).obj(ObjId(old(env).nobj() as usize)).is_extensible()
                &&& class_text(final(env), r.unwrap()) == class_text(old(env), args.spec_arg(0))
            },
        },
{
    if mode.construct() {
        if args.argc() > 0 {
            let arg = args.arg(0);
            match arg.ty() {
                JsType::Object => Ok(arg),
                JsType::String | JsType::Boolean | JsType::Number => match env.to_object(arg) {
                    Ok(id) => Ok(JsValue::Object(id)),
                    Err(e) => Err(e),
                },
                _ => Ok(JsValue::Object(env.create_object())),
            }
        } else {
            Ok(JsValue::Object(env.create_object()))
        }
    } else {
        let arg = args.arg(0);
        if arg.is_null_or_undefined() {
            Ok(JsValue::Object(env.create_object()))
        } else {
            match env.to_object(arg) {
                Ok(id) => Ok(JsValue::Object(id)),
                Err(e) => Err(e),
            }
        }
    }
}

/// `Object.create(prototype)`: a new ordinary object whose prototype is the
/// argument, or none for `null`. Without an argument, or with one that is
/// neither an object nor `null`, the call is refused.
#[allow(non_snake_case)]
pub fn Object_create(env: &mut JsEnv, _mode: JsFnMode, args: &JsArgs) -> (r: Result<JsValue, JsError>)
    requires
        old(env).wf(),
        valid_args(old(env), args),
        has_room(old(env)),
        args.args@.len() <= 1,
    ensures
        final(env).wf(),
        final(env).extends(old(env)),
        args.args@.len() < 1 ==> r == Err::<JsValue, JsError>(JsError::TypeInvalid),
        args.args@.len() == 1 ==> match args.spec_arg(0) {
            JsValue::Object(p) => {
                &&& final(env).nobj() == old(env).nobj() + 1
                &&& r == Ok::<JsValue, JsError>(JsValue::Object(ObjId(old(env).nobj() as usize)))
                &&& final(env).obj(ObjId(old(env).nobj() as usize)).proto() == Some(p)
                &&& final(env).obj(ObjId(old(env).nobj() as usize)).slots().len() == 0
                &&& final(env).obj(ObjId(old(env).nobj() as usize)).is_extensible()
                &&& final(env).obj(ObjId(old(env).nobj() as usize)).class_tag() == Some(old(env).class_names().0)
            },
            JsValue::Null => {
                &&& final(env).nobj() == old(env).nobj() + 1
                &&& r == Ok::<JsValue, JsError>(JsValue::Object(ObjId(old(env).nobj() as usize)))
                &&& final(env).obj(ObjId(old(env).nobj() as usize)).proto() is None
                &&& final(env).obj(ObjId(old(env).nobj() as usize)).slots().len() == 0
                &&& final(env).obj(ObjId(old(env).nobj() as usize)).is_extensible()
                &&& final(env).obj(ObjId(old(env).nobj() as usize)).class_tag() == Some(old(env).class_names().0)
            },
            _ => r == Err::<JsValue, JsError>(JsError::TypeInvalid),
        },
        r is Err ==> final(env).objs() == old(env).objs(),
{
    if args.argc() < 1 {
        return Err(JsError::TypeInvalid);
    }
    let prototype = match args.arg(0) {
        JsValue::Object(p) => Some(p),
        JsValue::Null => None,
        _ => {
            return Err(JsError::TypeInvalid);
        },
    };
    let id = env.create_object();
    env.set_prototype(id, prototype);
    Ok(JsValue::Object(id))
}

/// `Object.prototype.toString()`: `[object Undefined]`, `[object Null]`, or
/// `[object <class>]` for the receiver coerced to an object.
#[allow(non_snake_case)]
pub fn Object_toString(env: &mut JsEnv, _mode: JsFnMode, args: &JsArgs) -> (r: Result<JsValue, JsError>)
    requires
        old(env).wf(),
        valid_args(old(env), args),
        has_room(old(env)),
    ensures
        final(env).wf(),
        old(env).nobj() <= final(env).nobj() <= old(env).nobj() + 1,
        old(env).nstr() <= final(env).nstr() <= old(env).nstr() + 1,
        forall|j: int| 0 <= j < old(env).nstr() ==> #[trigger] final(env).names().strings()[j] == old(env).names().strings()[j],
        final(env).root_prototype() == old(env).root_prototype(),
        final(env).class_names() == old(env).class_names(),
        final(env).to_string_key() == old(env).to_string_key(),
        forall|i: int| 0 <= i < old(env).nobj() ==> #[trigger] final(env).objs()[i] == old(env).objs()[i],
        r is Ok,
        r.unwrap() is String,
        final(env).text(r.unwrap()->String_0) == match args.this {
            JsValue::Undefined => "[object Undefined]"@,
            JsValue::Null => "[object Null]"@,
            _ => "[object "@ + class_text(old(env), args.this) + "]"@,
        },
{
    let this_arg = args.this();
    if this_arg.is_undefined() {
        let n = env.intern("[object Undefined]");
        Ok(JsValue::String(n))
    } else if this_arg.is_null() {
        let n = env.intern("[object Null]");
        Ok(JsValue::String(n))
    } else {
        let mut result = String::from_str("[object ");
        let object = match env.to_object(this_arg) {
            Ok(id) => id,
            Err(e) => {
                return Err(e);
            },
        };
        match env.object(object).class() {
            Some(class) => {
                proof {
                    assert(crate::env::object_ok(env.objs()[object.0 as int], env.nstr(), env.nobj()));
                }
                let text = env.interner().get(class);
                result.append(text.as_str());
            },
            None => {
                result.append("Unknown");
            },
        }
        result.append("]");
        let n = env.intern(result.as_str());
        Ok(JsValue::String(n))
    }
}

/// The text of a value used as a property key. Where the caller has
/// already converted the value to a string (`given`), that text is the key.
/// Otherwise a string is itself, and undefined, null and the booleans render
/// as their names; a number or an object names no key here, since its
/// conversion needs number formatting or user code, which the caller runs.
pub open spec fn key_text(env: &JsEnv, v: JsValue, given: Option<&str>) -> Option<Seq<char>> {
    if given is Some {
        Some(given.unwrap()@)
    } else {
        match v {
        JsValue::String(n) => Some(env.text(n)),
        JsValue::Undefined => Some("undefined"@),
        JsValue::Null => Some("null"@),
        JsValue::Boolean(true) => Some("true"@),
        JsValue::Boolean(false) => Some("false"@),
        _ => None,
        }
    }
}

fn key_string(env: &JsEnv, v: JsValue, given: Option<&str>) -> (r: Option<RcStr>)
    requires
        env.wf(),
        env.valid_value(v),
    ensures
        r is Some == key_text(env, v, given) is Some,
        r is Some ==> r.unwrap()@ == key_text(env, v, given).unwrap(),
{
    if let Some(t) = given {
        return Some(RcStr::new(t));
    }
    match v {
        JsValue::String(n) => Some(env.interner().get(n)),
        JsValue::Undefined => Some(RcStr::new("undefined")),
        JsValue::Null => Some(RcStr::new("null")),
        JsValue::Boolean(true) => Some(RcStr::new("true")),
        JsValue::Boolean(false) => Some(RcStr::new("false")),
        _ => None,
    }
}

/// The registered key that a value names, if the interner has its text; a
/// value that names no key is refused.
fn lookup_key(env: &JsEnv, v: JsValue, given: Option<&str>) -> (r: Result<Option<Name>, JsError>)
    requires
        env.wf(),
        env.valid_value(v),
    ensures
        match key_text(env, v, given) {
            Some(t) => r == Ok::<Option<Name>, JsError>(env.names().lookup(t)),
            None => r == Err::<Option<Name>, JsError>(JsError::TypeInvalid),
        },
{
    match key_string(env, v, given) {
        Some(text) => Ok(env.interner().find(text.as_str())),
        None => Err(JsError::TypeInvalid),
    }
}

/// The next step of `toLocaleString`, which the caller performs.
#[derive(Clone, Copy, Debug, PartialEq, Eq, Structural)]
pub enum LocaleStep {
    /// Call `function` with `this` as receiver; what it returns is the result.
    CallToString { function: JsValue, this: JsValue },
    /// Call `getter` with `this` as receiver to read `toString`, then hand
    /// the value read to `to_locale_string_with`.
    ReadToString { getter: JsValue, this: JsValue },
}

/// What `toLocaleString` does with `value`, read as the `toString` of `this`:
/// call it where it is callable, else refuse.
pub open spec fn locale_call(env: &JsEnv, value: JsValue, this: JsValue) -> Result<LocaleStep, JsError> {
    if env.callable_value(value) {
        Ok(LocaleStep::CallToString { function: value, this })
    } else {
        Err(JsError::TypeCannotCallToString)
    }
}

/// What `toLocaleString` does for the object `id`, by its own `toString`
/// property: a data property's value is called; an accessor's getter is
/// called first to read it (an undefined getter reads undefined, which is
/// not callable); an absent property is refused.
pub open spec fn locale_target(env: &JsEnv, id: ObjId) -> Result<LocaleStep, JsError> {
    match env.obj(id).own(env.to_string_key()) {
        Some(p) => match p.kind {
            PropertyKind::Data { value, .. } => locale_call(env, value, JsValue::Object(id)),
            PropertyKind::Accessor { get, .. } => if env.callable_value(get) {
                Ok(LocaleStep::ReadToString { getter: get, this: JsValue::Object(id) })
            } else {
                Err(JsError::TypeCannotCallToString)
            },
        },
        None => Err(JsError::TypeCannotCallToString),
    }
}

/// `Object.prototype.toLocaleString()`: coerces the receiver to an object
/// and looks up its own `toString` property. Gives the call for the caller
/// to make: the function itself, or first the getter that reads it.
#[allow(non_snake_case)]
pub fn Object_toLocaleString(env: &mut JsEnv, _mode: JsFnMode, args: &JsArgs) -> (r: Result<LocaleStep, JsError>)
    requires
        old(env).wf(),
        valid_args(old(env), args),
        has_room(old(env)),
    ensures
        final(env).wf(),
        final(env).extends(old(env)),
        match args.this {
            JsValue::Undefined | JsValue::Null => r == Err::<LocaleStep, JsError>(JsError::TypeInvalid),
            JsValue::Object(id) => r == locale_target(old(env), id),
            _ => r == locale_target(final(env), ObjId(old(env).nobj() as usize)),
        },
{
    let this = match env.to_object(args.this()) {
        Ok(id) => id,
        Err(e) => {
            return Err(e);
        },
    };
    proof {
        assert(crate::env::object_ok(env.objs()[this.0 as int], env.nstr(), env.nobj()));
    }
    let key = env.to_string_name();
    match env.object(this).get_own_property(key) {
        Some(p) => match p.kind {
            PropertyKind::Data { value, .. } => to_locale_string_with(env, value, JsValue::Object(this)),
            PropertyKind::Accessor { get, .. } => if env.is_callable(get) {
                Ok(LocaleStep::ReadToString { getter: get, this: JsValue::Object(this) })
            } else {
                Err(JsError::TypeCannotCallToString)
            },
        },
        None => Err(JsError::TypeCannotCallToString),
    }
}

/// The rest of `toLocaleString` once `value`, the `toString` of `this`, is
/// known: call it where it is callable, else refuse.
pub fn to_locale_string_with(env: &JsEnv, value: JsValue, this: JsValue) -> (r: Result<LocaleStep, JsError>)
    ensures
        r == locale_call(env, value, this),
{
    if env.is_callable(value) {
        Ok(LocaleStep::CallToString { function: value, this })
    } else {
        Err(JsError::TypeCannotCallToString)
    }
}

/// `Object.prototype.valueOf()`: the receiver coerced to an object.
#[allow(non_snake_case)]
pub fn Object_valueOf(env: &mut JsEnv, _mode: JsFnMode, args: &JsArgs) -> (r: Result<JsValue, JsError>)
    requires
        old(env).wf(),
        valid_args(old(env), args),
        has_room(old(env)),
    ensures
        final(env).wf(),
        final(env).extends(old(env)),
        match args.this {
            JsValue::Undefined | JsValue::Null => r == Err::<JsValue, JsError>(JsError::TypeInvalid),
            JsValue::Object(_) => r == Ok::<JsValue, JsError>(args.this),
            _ => {
                &&& r == Ok::<JsValue, JsError>(JsValue::Object(ObjId(old(env).nobj() as usize)))
                &&& final(env).obj(ObjId(old(env).nobj() as usize)).primitive_value() == Some(args.this)
            },
        },
{
    match env.to_object(args.this()) {
        Ok(id) => Ok(JsValue::Object(id)),
        Err(e) => Err(e),
    }
}

/// Whether the receiver, coerced to an object, has the own property that
/// the first argument names (`key`: its text, where the caller converted
/// it; see `key_text`).
#[allow(non_snake_case)]
pub fn Object_hasOwnProperty(env: &mut JsEnv, _mode: JsFnMode, args: &JsArgs, key: Option<&str>) -> (r: Result<JsValue, JsError>)
    requires
        old(env).wf(),
        valid_args(old(env), args),
        has_room(old(env)),
    ensures
        final(env).wf(),
        final(env).extends(old(env)),
        key_text(old(env), args.spec_arg(0), key) is None ==> r == Err::<JsValue, JsError>(JsError::TypeInvalid),
        key_text(old(env), args.spec_arg(0), key) is Some ==> match args.this {
            JsValue::Undefined | JsValue::Null => r == Err::<JsValue, JsError>(JsError::TypeInvalid),
            JsValue::Object(id) => r == Ok::<JsValue, JsError>(JsValue::Boolean(
                match key_of(old(env), args.spec_arg(0), key) {
                    Some(k) => old(env).obj(id).own(k) is Some,
                    None => false,
                })),
            _ => r == Ok::<JsValue, JsError>(JsValue::Boolean(false)),
        },
{
    let key = match lookup_key(env, args.arg(0), key) {
        Ok(k) => k,
        Err(e) => {
            return Err(e);
        },
    };
    let object = match env.to_object(args.this()) {
        Ok(id) => id,
        Err(e) => {
            return Err(e);
        },
    };
    proof {
        assert(crate::env::object_ok(env.objs()[object.0 as int], env.nstr(), env.nobj()));
    }
    let result = match key {
        Some(k) => env.object(object).get_own_property(k).is_some(),
        None => false,
    };
    Ok(JsValue::Boolean(result))
}

/// Whether the receiver, coerced to an object, has the own property that
/// the first argument names (`key`: its text, where the caller converted
/// it; see `key_text`), and it is enumerable.
#[allow(non_snake_case)]
pub fn Object_propertyIsEnumerable(env: &mut JsEnv, _mode: JsFnMode, args: &JsArgs, key: Option<&str>) -> (r: Result<JsValue, JsError>)
    requires
        old(env).wf(),
        valid_args(old(env), args),
        has_room(old(env)),
    ensures
        final(env).wf(),
        final(env).extends(old(env)),
        key_text(old(env), args.spec_arg(0), key) is None ==> r == Err::<JsValue, JsError>(JsError::TypeInvalid),
        key_text(old(env), args.spec_arg(0), key) is Some ==> match args.this {
            JsValue::Undefined | JsValue::Null => r == Err::<JsValue, JsError>(JsError::TypeInvalid),
            JsValue::Object(id) => r == Ok::<JsValue, JsError>(JsValue::Boolean(
                match key_of(old(env), args.spec_arg(0), key) {
                    Some(k) => old(env).obj(id).own(k) is Some && old(env).obj(id).own(k).unwrap().enumerable,
                    None => false,
                })),
            _ => r == Ok::<JsValue, JsError>(JsValue::Boolean(false)),
        },
{
    let key = match lookup_key(env, args.arg(0), key) {
        Ok(k) => k,
        Err(e) => {
            return Err(e);
        },
    };
    let object = match env.to_object(args.this()) {
        Ok(id) => id,
        Err(e) => {
            return Err(e);
        },
    };
    proof {
        assert(crate::env::object_ok(env.objs()[object.0 as int], env.nstr(), env.nobj()));
    }
    let result = match key {
        Some(k) => match env.object(object).get_own_property(k) {
            Some(desc) => desc.is_enumerable(),
            None => false,
        },
        None => false,
    };
    Ok(JsValue::Boolean(result))
}

/// `Object.prototype.isPrototypeOf(v)`: false unless `v` is an object;
/// otherwise whether the receiver, coerced to an object, is on the
/// prototype chain of `v`.
#[allow(non_snake_case)]
pub fn Object_isPrototypeOf(env: &mut JsEnv, _mode: JsFnMode, args: &JsArgs) -> (r: Result<JsValue, JsError>)
    requires
        old(env).wf(),
        valid_args(old(env), args),
        has_room(old(env)),
    ensures
        final(env).wf(),
        final(env).extends(old(env)),
        !(args.spec_arg(0) is Object) ==> r == Ok::<JsValue, JsError>(JsValue::Boolean(false)),
        args.spec_arg(0) is Object ==> match args.this {
            JsValue::Undefined | JsValue::Null => r == Err::<JsValue, JsError>(JsError::TypeInvalid),
            JsValue::Object(t) => r == match chain_search(old(env).objs(), args.spec_arg(0)->Object_0, t, old(env).nobj()) {
                Some(b) => Ok::<JsValue, JsError>(JsValue::Boolean(b)),
                None => Err(JsError::CyclicPrototype),
            },
            _ => r == match chain_search(final(env).objs(), args.spec_arg(0)->Object_0, ObjId(old(env).nobj() as usize), final(env).nobj()) {
                Some(b) => Ok::<JsValue, JsError>(JsValue::Boolean(b)),
                None => Err(JsError::CyclicPrototype),
            },
        },
{
    let arg = args.arg(0);
    match arg {
        JsValue::Object(start) => {
            let object = match env.to_object(args.this()) {
                Ok(id) => id,
                Err(e) => {
                    return Err(e);
                },
            };
            proof {
                lemma_chain_search_extends(old(env), env, start, object);
            }
            match env.prototype_chain_contains(start, object) {
                Ok(b) => Ok(JsValue::Boolean(b)),
                Err(e) => Err(e),
            }
        },
        _ => Ok(JsValue::Boolean(false)),
    }
}

/// Growing the heap leaves walks from old objects as they were, where the
/// heap did not grow.
proof fn lemma_chain_search_extends(before: &JsEnv, after: &JsEnv, start: ObjId, target: ObjId)
    requires
        after.extends(before),
    ensures
        after.nobj() == before.nobj() ==> chain_search(after.objs(), start, target, after.nobj())
            == chain_search(before.objs(), start, target, before.nobj()),
{
    if after.nobj() == before.nobj() {
        assert(after.objs() =~= before.objs());
    }
}

/// `Object.getPrototypeOf(o)`: the prototype of an object, or undefined
/// where it has none; a non-object is refused.
#[allow(non_snake_case)]
pub fn Object_getPrototypeOf(env: &mut JsEnv, _mode: JsFnMode, args: &JsArgs) -> (r: Result<JsValue, JsError>)
    requires
        old(env).wf(),
        valid_args(old(env), args),
    ensures
        *final(env) == *old(env),
        match args.spec_arg(0) {
            JsValue::Object(id) => r == Ok::<JsValue, JsError>(match old(env).obj(id).proto() {
                Some(p) => JsValue::Object(p),
                None => JsValue::Undefined,
            }),
            _ => r == Err::<JsValue, JsError>(JsError::TypeInvalid),
        },
{
    match args.arg(0) {
        JsValue::Object(id) => match env.object(id).prototype() {
            Some(p) => Ok(JsValue::Object(p)),
            None => Ok(JsValue::Undefined),
        },
        _ => Err(JsError::TypeInvalid),
    }
}

/// `Object.preventExtensions(o)`: clears the extensible flag of an object
/// and gives it back; a non-object is refused.
#[allow(non_snake_case)]
pub fn Object_preventExtensions(env: &mut JsEnv, _mode: JsFnMode, args: &JsArgs) -> (r: Result<JsValue, JsError>)
    requires
        old(env).wf(),
        valid_args(old(env), args),
    ensures
        final(env).wf(),
        match args.spec_arg(0) {
            JsValue::Object(id) => {
                &&& r == Ok::<JsValue, JsError>(args.spec_arg(0))
                &&& final(env).updates(old(env), id)
                &&& !final(env).obj(id).is_extensible()
                &&& final(env).obj(id).slots() == old(env).obj(id).slots()
                &&& final(env).obj(id).proto() == old(env).obj(id).proto()
                &&& final(env).obj(id).class_tag() == old(env).obj(id).class_tag()
                &&& final(env).obj(id).primitive_value() == old(env).obj(id).primitive_value()
                &&& final(env).obj(id).is_callable() == old(env).obj(id).is_callable()
            },
            _ => r == Err::<JsValue, JsError>(JsError::TypeInvalid) && *final(env) == *old(env),
        },
{
    let object = args.arg(0);
    match object {
        JsValue::Object(id) => {
            env.set_extensible(id, false);
            Ok(object)
        },
        _ => Err(JsError::TypeInvalid),
    }
}

/// `Object.defineProperty(o, key, attributes)`, with the attributes given
/// in their exchange shape: validates them, then defines the property named
/// by the key on `o` (`key`: its text, where the caller converted it; see
/// `key_text`), raising on refusal. A non-object `o` or a key that
/// names no text (see `key_text`) is refused.
#[allow(non_snake_case)]
pub fn Object_defineProperty(env: &mut JsEnv, _mode: JsFnMode, args: &JsArgs, key: Option<&str>, attributes: &DescriptorRecord) -> (r: Result<JsValue, JsError>)
    requires
        old(env).wf(),
        valid_args(old(env), args),
        old(env).valid_record(*attributes),
        has_room(old(env)),
    ensures
        final(env).wf(),
        match (args.spec_arg(0), key_text(old(env), args.spec_arg(1), key)) {
            (JsValue::Object(id), Some(t)) => match old(env).descriptor_of(*attributes) {
                Err(e) => r == Err::<JsValue, JsError>(e) && *final(env) == *old(env),
                Ok(d) => {
                    let k = final(env).names().lookup(t).unwrap();
                    let before = old(env).obj(id);
                    let after = final(env).obj(id);
                    &&& final(env).names().lookup(t) is Some
                    &&& old(env).nstr() <= final(env).nstr() <= old(env).nstr() + 1
                    &&& final(env).root_prototype() == old(env).root_prototype()
                    &&& final(env).class_names() == old(env).class_names()
                    &&& final(env).to_string_key() == old(env).to_string_key()
                    &&& forall|j: int| 0 <= j < old(env).nstr() ==> #[trigger] final(env).names().strings()[j]
                        == old(env).names().strings()[j]
                    &&& old(env).names().lookup(t) is Some ==> final(env).names() == old(env).names()
                        && k == old(env).names().lookup(t).unwrap()
                    &&& old(env).names().lookup(t) is None ==> before.own(k) is None
                    &&& final(env).objs().len() == old(env).objs().len()
                    &&& forall|i: int| 0 <= i < old(env).nobj() && i != id.0 ==> #[trigger] final(env).objs()[i] == old(env).objs()[i]
                    &&& after.proto() == before.proto()
                    &&& after.is_extensible() == before.is_extensible()
                    &&& after.class_tag() == before.class_tag()
                    &&& match d.outcome(before.own(k), before.is_extensible()) {
                        Some(p) => {
                            &&& r == Ok::<JsValue, JsError>(args.spec_arg(0))
                            &&& after.own(k) == Some(p)
                            &&& forall|m: Name| m != k ==> after.own(m) == before.own(m)
                            &&& before.own(k) is None ==> after.slots() == before.slots().push(Some((k, p)))
                            &&& forall|i: int| #[trigger] before.holds(i, k) ==> after.slots()
                                == before.slots().update(i, Some((k, p)))
                        },
                        None => r == Err::<JsValue, JsError>(JsError::TypeCannotDefine) && final(env).objs() == old(env).objs(),
                    }
                },
            },
            _ => r == Err::<JsValue, JsError>(JsError::TypeInvalid) && *final(env) == *old(env),
        },
{
    let object = args.arg(0);
    let id = match object {
        JsValue::Object(id) => id,
        _ => {
            return Err(JsError::TypeInvalid);
        },
    };
    let text = match key_string(env, args.arg(1), key) {
        Some(t) => t,
        None => {
            return Err(JsError::TypeInvalid);
        },
    };
    let desc = match env.to_property_descriptor(attributes) {
        Ok(d) => d,
        Err(e) => {
            return Err(e);
        },
    };
    proof {
        assert(crate::env::object_ok(env.objs()[id.0 as int], env.nstr(), env.nobj()));
    }
    let name = env.intern(text.as_str());
    match env.define_own_property(id, name, desc, true) {
        Ok(_) => Ok(object),
        Err(e) => Err(e),
    }
}

/// `Object.getOwnPropertyDescriptor(o, key)`: the own property named by the
/// key (`key`: its text, where the caller converted it; see `key_text`),
/// in its exchange shape, or `None` where `o` has none. A non-object `o` or
/// a key that names no text is refused.
#[allow(non_snake_case)]
pub fn Object_getOwnPropertyDescriptor(env: &mut JsEnv, _mode: JsFnMode, args: &JsArgs, key: Option<&str>) -> (r: Result<Option<DescriptorRecord>, JsError>)
    requires
        old(env).wf(),
        valid_args(old(env), args),
    ensures
        *final(env) == *old(env),
        match (args.spec_arg(0), args.spec_arg(1)) {
            (JsValue::Object(id), _) if key_text(old(env), args.spec_arg(1), key) is Some => r
                == Ok::<Option<DescriptorRecord>, JsError>(match key_of(old(env), args.spec_arg(1), key) {
                    Some(k) => match old(env).obj(id).own(k) {
                        Some(p) => Some(p.spec_record()),
                        None => None,
                    },
                    None => None,
                }),
            _ => r == Err::<Option<DescriptorRecord>, JsError>(JsError::TypeInvalid),
        },
{
    let id = match args.arg(0) {
        JsValue::Object(id) => id,
        _ => {
            return Err(JsError::TypeInvalid);
        },
    };
    let key = match lookup_key(env, args.arg(1), key) {
        Ok(k) => k,
        Err(e) => {
            return Err(e);
        },
    };
    proof {
        assert(crate::env::object_ok(env.objs()[id.0 as int], env.nstr(), env.nobj()));
    }
    match key {
        Some(k) => match env.object(id).get_own_property(k) {
            Some(p) => Ok(Some(p.from_property_descriptor())),
            None => Ok(None),
        },
        None => Ok(None),
    }
}

/// `Object.getOwnPropertyNames(o)`: the keys of the enumerable own
/// properties of `o`, as string values, in insertion order. Deleted slots
/// are stepped over. A non-object `o` is refused.
#[allow(non_snake_case)]
pub fn Object_getOwnPropertyNames(env: &mut JsEnv, _mode: JsFnMode, args: &JsArgs) -> (r: Result<Vec<JsValue>, JsError>)
    requires
        old(env).wf(),
        valid_args(old(env), args),
    ensures
        *final(env) == *old(env),
        match args.spec_arg(0) {
            JsValue::Object(id) => r is Ok && r.unwrap()@
                == old(env).obj(id).enumerable_names().map_values(|n: Name| JsValue::String(n)),
            _ => r is Err && r->Err_0 == JsError::TypeInvalid,
        },
{
    let id = match args.arg(0) {
        JsValue::Object(id) => id,
        _ => {
            return Err(JsError::TypeInvalid);
        },
    };
    let object = env.object(id);
    let ghost slots = object.slots();
    let mut result: Vec<JsValue> = Vec::new();
    let count = object.slot_count();
    let mut i: usize = 0;
    while i < count
        invariant
            count == slots.len(),
            slots == object.slots(),
            i <= count,
            result@ == enumerable_keys(slots.take(i as int)).map_values(|n: Name| JsValue::String(n)),
        decreases count - i,
    {
        let ghost before = result@;
        match object.get_key(i) {
            JsStoreKey::Key(name, enumerable) => {
                if enumerable {
                    result.push(JsValue::String(name));
                }
            },
            JsStoreKey::Missing => {},
            JsStoreKey::End => {},
        }
        proof {
            assert(slots.take(i as int + 1).drop_last() =~= slots.take(i as int));
            assert(result@ =~= enumerable_keys(slots.take(i as int + 1)).map_values(|n: Name| JsValue::String(n)));
        }
        i = i + 1;
    }
    proof {
        assert(slots.take(count as int) =~= slots);
    }
    Ok(result)
}

} // verus!
