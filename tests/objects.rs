use rjs::builtins::{
    JsArgs, JsFnMode, LocaleStep, Object_constructor, Object_create, Object_defineProperty, Object_getOwnPropertyDescriptor,
    Object_getOwnPropertyNames, Object_getPrototypeOf, Object_hasOwnProperty, Object_isPrototypeOf,
    Object_preventExtensions, Object_propertyIsEnumerable, Object_toLocaleString, Object_toString, Object_valueOf, to_locale_string_with,
};
use rjs::descriptor::{DescriptorRecord, JsDescriptor, PropertyDescriptor, PropertyKind};
use rjs::env::JsEnv;
use rjs::object::{JsObject, JsStoreKey};
use rjs::value::{JsError, JsType, JsValue, ObjId};

fn call() -> JsFnMode {
    JsFnMode::new(false, false)
}

fn construct() -> JsFnMode {
    JsFnMode::new(true, false)
}

fn string(env: &mut JsEnv, s: &str) -> JsValue {
    JsValue::String(env.intern(s))
}

fn text(env: &JsEnv, v: JsValue) -> String {
    match v {
        JsValue::String(n) => env.interner().get(n).as_str().to_string(),
        _ => panic!("not a string"),
    }
}

fn data(value: JsValue, writable: bool, enumerable: bool, configurable: bool) -> JsDescriptor {
    JsDescriptor {
        value: Some(value),
        writable: Some(writable),
        get: None,
        set: None,
        enumerable: Some(enumerable),
        configurable: Some(configurable),
    }
}

fn empty_record() -> DescriptorRecord {
    DescriptorRecord { value: None, writable: None, get: None, set: None, enumerable: None, configurable: None }
}

fn define(env: &mut JsEnv, obj: ObjId, key: &str, value: JsValue, enumerable: bool) {
    let k = string(env, key);
    let rec = DescriptorRecord {
        value: Some(value),
        writable: Some(JsValue::Boolean(true)),
        enumerable: Some(JsValue::Boolean(enumerable)),
        configurable: Some(JsValue::Boolean(true)),
        ..empty_record()
    };
    let args = JsArgs::new(JsValue::Undefined, vec![JsValue::Object(obj), k]);
    assert_eq!(Object_defineProperty(env, call(), &args, None, &rec), Ok(JsValue::Object(obj)));
}

#[test]
fn get_own_property_names_keeps_order_and_skips_non_enumerable() {
    let mut env = JsEnv::new();
    let o = env.create_object();
    define(&mut env, o, "a", JsValue::Number(1), true);
    define(&mut env, o, "b", JsValue::Number(2), false);
    define(&mut env, o, "c", JsValue::Number(3), true);
    let args = JsArgs::new(JsValue::Undefined, vec![JsValue::Object(o)]);
    let names = Object_getOwnPropertyNames(&mut env, call(), &args).unwrap();
    let texts: Vec<String> = names.iter().map(|v| text(&env, *v)).collect();
    assert_eq!(texts, vec!["a".to_string(), "c".to_string()]);
}

#[test]
fn get_own_property_names_skips_deleted_slots() {
    let mut env = JsEnv::new();
    let o = env.create_object();
    define(&mut env, o, "a", JsValue::Number(1), true);
    define(&mut env, o, "b", JsValue::Number(2), true);
    define(&mut env, o, "c", JsValue::Number(3), true);
    let b = env.intern("b");
    assert!(env.delete(o, b));
    assert_eq!(env.object(o).get_key(1), JsStoreKey::Missing);
    assert_eq!(env.object(o).get_key(3), JsStoreKey::End);
    let args = JsArgs::new(JsValue::Undefined, vec![JsValue::Object(o)]);
    let names = Object_getOwnPropertyNames(&mut env, call(), &args).unwrap();
    let texts: Vec<String> = names.iter().map(|v| text(&env, *v)).collect();
    assert_eq!(texts, vec!["a".to_string(), "c".to_string()]);
}

#[test]
fn get_own_property_names_refuses_non_object() {
    let mut env = JsEnv::new();
    let args = JsArgs::new(JsValue::Undefined, vec![JsValue::Number(0)]);
    assert_eq!(Object_getOwnPropertyNames(&mut env, call(), &args), Err(JsError::TypeInvalid));
}

#[test]
fn create_null_has_no_prototype() {
    let mut env = JsEnv::new();
    let args = JsArgs::new(JsValue::Undefined, vec![JsValue::Null]);
    let r = Object_create(&mut env, call(), &args).unwrap();
    let id = match r {
        JsValue::Object(id) => id,
        _ => panic!("not an object"),
    };
    assert_eq!(env.object(id).prototype(), None);
    let args = JsArgs::new(JsValue::Undefined, vec![r]);
    assert_eq!(Object_getPrototypeOf(&mut env, call(), &args), Ok(JsValue::Undefined));
}

#[test]
fn create_without_argument_is_an_error() {
    let mut env = JsEnv::new();
    let args = JsArgs::new(JsValue::Undefined, vec![]);
    assert_eq!(Object_create(&mut env, call(), &args), Err(JsError::TypeInvalid));
    let args = JsArgs::new(JsValue::Undefined, vec![JsValue::Number(0)]);
    assert_eq!(Object_create(&mut env, call(), &args), Err(JsError::TypeInvalid));
}

#[test]
fn create_with_object_prototype() {
    let mut env = JsEnv::new();
    let p = env.create_object();
    let args = JsArgs::new(JsValue::Undefined, vec![JsValue::Object(p)]);
    let r = Object_create(&mut env, call(), &args).unwrap();
    let args = JsArgs::new(JsValue::Undefined, vec![r]);
    assert_eq!(Object_getPrototypeOf(&mut env, call(), &args), Ok(JsValue::Object(p)));
}

#[test]
fn construct_and_call_wrap_a_string() {
    let mut env = JsEnv::new();
    let x = string(&mut env, "x");
    let args = JsArgs::new(JsValue::Undefined, vec![x]);
    let a = Object_constructor(&mut env, construct(), &args).unwrap();
    let b = Object_constructor(&mut env, call(), &args).unwrap();
    for v in [a, b] {
        let id = match v {
            JsValue::Object(id) => id,
            _ => panic!("not an object"),
        };
        assert_eq!(env.object(id).primitive(), Some(x));
        let targs = JsArgs::new(v, vec![]);
        let s = Object_toString(&mut env, call(), &targs).unwrap();
        assert_eq!(text(&env, s), "[object String]");
    }
    assert_ne!(a, b);
}

#[test]
fn constructor_passes_objects_and_creates_for_missing() {
    let mut env = JsEnv::new();
    let o = env.create_object();
    let args = JsArgs::new(JsValue::Undefined, vec![JsValue::Object(o)]);
    assert_eq!(Object_constructor(&mut env, construct(), &args), Ok(JsValue::Object(o)));
    assert_eq!(Object_constructor(&mut env, call(), &args), Ok(JsValue::Object(o)));
    let before = env.object_count();
    let none = JsArgs::new(JsValue::Undefined, vec![]);
    let r = Object_constructor(&mut env, construct(), &none).unwrap();
    assert_eq!(r, JsValue::Object(ObjId(before)));
    let nul = JsArgs::new(JsValue::Undefined, vec![JsValue::Null]);
    let r = Object_constructor(&mut env, call(), &nul).unwrap();
    assert_eq!(r, JsValue::Object(ObjId(before + 1)));
    let t = JsArgs::new(r, vec![]);
    let s = Object_toString(&mut env, call(), &t).unwrap();
    assert_eq!(text(&env, s), "[object Object]");
}

#[test]
fn to_string_renders_class() {
    let mut env = JsEnv::new();
    let o = env.create_object();
    let args = JsArgs::new(JsValue::Object(o), vec![]);
    let s = Object_toString(&mut env, call(), &args).unwrap();
    assert_eq!(text(&env, s), "[object Object]");
    let args = JsArgs::new(JsValue::Undefined, vec![]);
    let s = Object_toString(&mut env, call(), &args).unwrap();
    assert_eq!(text(&env, s), "[object Undefined]");
    let args = JsArgs::new(JsValue::Null, vec![]);
    let s = Object_toString(&mut env, call(), &args).unwrap();
    assert_eq!(text(&env, s), "[object Null]");
    let args = JsArgs::new(JsValue::Boolean(true), vec![]);
    let s = Object_toString(&mut env, call(), &args).unwrap();
    assert_eq!(text(&env, s), "[object Boolean]");
    let args = JsArgs::new(JsValue::Number(0), vec![]);
    let s = Object_toString(&mut env, call(), &args).unwrap();
    assert_eq!(text(&env, s), "[object Number]");
    let bare = env.create_bare_object(None);
    let args = JsArgs::new(JsValue::Object(bare), vec![]);
    let s = Object_toString(&mut env, call(), &args).unwrap();
    assert_eq!(text(&env, s), "[object Unknown]");
}

#[test]
fn to_locale_string_finds_callable_to_string() {
    let mut env = JsEnv::new();
    let o = env.create_object();
    let args = JsArgs::new(JsValue::Object(o), vec![]);
    assert_eq!(Object_toLocaleString(&mut env, call(), &args), Err(JsError::TypeCannotCallToString));
    let f = env.create_function();
    let root = ObjId(0);
    define(&mut env, root, "toString", JsValue::Object(f), false);
    // an inherited toString is not the receiver's own
    assert_eq!(Object_toLocaleString(&mut env, call(), &args), Err(JsError::TypeCannotCallToString));
    let root_args = JsArgs::new(JsValue::Object(root), vec![]);
    assert_eq!(
        Object_toLocaleString(&mut env, call(), &root_args),
        Ok(LocaleStep::CallToString { function: JsValue::Object(f), this: JsValue::Object(root) })
    );
    define(&mut env, o, "toString", JsValue::Object(f), false);
    assert_eq!(
        Object_toLocaleString(&mut env, call(), &args),
        Ok(LocaleStep::CallToString { function: JsValue::Object(f), this: JsValue::Object(o) })
    );
    define(&mut env, o, "toString", JsValue::Number(1), false);
    assert_eq!(Object_toLocaleString(&mut env, call(), &args), Err(JsError::TypeCannotCallToString));
    let args = JsArgs::new(JsValue::Undefined, vec![]);
    assert_eq!(Object_toLocaleString(&mut env, call(), &args), Err(JsError::TypeInvalid));
}

#[test]
fn value_of_coerces_receiver() {
    let mut env = JsEnv::new();
    let o = env.create_object();
    let args = JsArgs::new(JsValue::Object(o), vec![]);
    assert_eq!(Object_valueOf(&mut env, call(), &args), Ok(JsValue::Object(o)));
    let args = JsArgs::new(JsValue::Null, vec![]);
    assert_eq!(Object_valueOf(&mut env, call(), &args), Err(JsError::TypeInvalid));
    let args = JsArgs::new(JsValue::Boolean(false), vec![]);
    let r = Object_valueOf(&mut env, call(), &args).unwrap();
    match r {
        JsValue::Object(id) => assert_eq!(env.object(id).primitive(), Some(JsValue::Boolean(false))),
        _ => panic!("not an object"),
    }
}

#[test]
fn has_own_property_and_enumerability() {
    let mut env = JsEnv::new();
    let o = env.create_object();
    define(&mut env, o, "a", JsValue::Number(1), true);
    define(&mut env, o, "b", JsValue::Number(2), false);
    let a = string(&mut env, "a");
    let b = string(&mut env, "b");
    let z = string(&mut env, "z");
    let this = JsValue::Object(o);
    let has = |env: &mut JsEnv, k: JsValue| Object_hasOwnProperty(env, call(), &JsArgs::new(this, vec![k]), None);
    assert_eq!(has(&mut env, a), Ok(JsValue::Boolean(true)));
    assert_eq!(has(&mut env, b), Ok(JsValue::Boolean(true)));
    assert_eq!(has(&mut env, z), Ok(JsValue::Boolean(false)));
    assert_eq!(has(&mut env, JsValue::Number(1)), Err(JsError::TypeInvalid));
    let en = |env: &mut JsEnv, k: JsValue| Object_propertyIsEnumerable(env, call(), &JsArgs::new(this, vec![k]), None);
    assert_eq!(en(&mut env, a), Ok(JsValue::Boolean(true)));
    assert_eq!(en(&mut env, b), Ok(JsValue::Boolean(false)));
    assert_eq!(en(&mut env, z), Ok(JsValue::Boolean(false)));
    // inherited properties are not own
    let root_has = Object_hasOwnProperty(&mut env, call(), &JsArgs::new(JsValue::Object(ObjId(0)), vec![a]), None);
    assert_eq!(root_has, Ok(JsValue::Boolean(false)));
    let undefined_this = Object_hasOwnProperty(&mut env, call(), &JsArgs::new(JsValue::Undefined, vec![a]), None);
    assert_eq!(undefined_this, Err(JsError::TypeInvalid));
}

#[test]
fn is_prototype_of_walks_the_chain() {
    let mut env = JsEnv::new();
    let p = env.create_object();
    let c = env.create_object();
    env.set_prototype(c, Some(p));
    let r = Object_isPrototypeOf(&mut env, call(), &JsArgs::new(JsValue::Object(p), vec![JsValue::Object(c)]));
    assert_eq!(r, Ok(JsValue::Boolean(true)));
    let r = Object_isPrototypeOf(&mut env, call(), &JsArgs::new(JsValue::Object(ObjId(0)), vec![JsValue::Object(c)]));
    assert_eq!(r, Ok(JsValue::Boolean(true)));
    let r = Object_isPrototypeOf(&mut env, call(), &JsArgs::new(JsValue::Object(c), vec![JsValue::Object(p)]));
    assert_eq!(r, Ok(JsValue::Boolean(false)));
    let r = Object_isPrototypeOf(&mut env, call(), &JsArgs::new(JsValue::Object(c), vec![JsValue::Object(c)]));
    assert_eq!(r, Ok(JsValue::Boolean(false)));
    let r = Object_isPrototypeOf(&mut env, call(), &JsArgs::new(JsValue::Object(p), vec![JsValue::Number(0)]));
    assert_eq!(r, Ok(JsValue::Boolean(false)));
}

#[test]
fn is_prototype_of_reports_cycles() {
    let mut env = JsEnv::new();
    let a = env.create_object();
    let b = env.create_object();
    env.set_prototype(a, Some(b));
    env.set_prototype(b, Some(a));
    let other = env.create_object();
    let r = Object_isPrototypeOf(&mut env, call(), &JsArgs::new(JsValue::Object(other), vec![JsValue::Object(a)]));
    assert_eq!(r, Err(JsError::CyclicPrototype));
    let r = Object_isPrototypeOf(&mut env, call(), &JsArgs::new(JsValue::Object(b), vec![JsValue::Object(a)]));
    assert_eq!(r, Ok(JsValue::Boolean(true)));
}

#[test]
fn get_prototype_of_refuses_non_object() {
    let mut env = JsEnv::new();
    let o = env.create_object();
    let args = JsArgs::new(JsValue::Undefined, vec![JsValue::Object(o)]);
    assert_eq!(Object_getPrototypeOf(&mut env, call(), &args), Ok(JsValue::Object(ObjId(0))));
    let args = JsArgs::new(JsValue::Undefined, vec![JsValue::Boolean(true)]);
    assert_eq!(Object_getPrototypeOf(&mut env, call(), &args), Err(JsError::TypeInvalid));
}

#[test]
fn prevent_extensions_blocks_new_properties_only() {
    let mut env = JsEnv::new();
    let o = env.create_object();
    define(&mut env, o, "a", JsValue::Number(1), true);
    let args = JsArgs::new(JsValue::Undefined, vec![JsValue::Object(o)]);
    assert_eq!(Object_preventExtensions(&mut env, call(), &args), Ok(JsValue::Object(o)));
    assert!(!env.object(o).extensible());
    let nk = string(&mut env, "new");
    let rec = DescriptorRecord { value: Some(JsValue::Number(5)), ..empty_record() };
    let args = JsArgs::new(JsValue::Undefined, vec![JsValue::Object(o), nk]);
    assert_eq!(Object_defineProperty(&mut env, call(), &args, None, &rec), Err(JsError::TypeCannotDefine));
    let ak = string(&mut env, "a");
    let args = JsArgs::new(JsValue::Undefined, vec![JsValue::Object(o), ak]);
    assert_eq!(Object_defineProperty(&mut env, call(), &args, None, &rec), Ok(JsValue::Object(o)));
    let a = env.intern("a");
    let p = env.object(o).get_own_property(a).unwrap();
    assert_eq!(p.kind, PropertyKind::Data { value: JsValue::Number(5), writable: true });
    let args = JsArgs::new(JsValue::Undefined, vec![JsValue::Null]);
    assert_eq!(Object_preventExtensions(&mut env, call(), &args), Err(JsError::TypeInvalid));
}

#[test]
fn descriptor_round_trip_all_shapes() {
    let mut env = JsEnv::new();
    let f = env.create_function();
    for enumerable in [true, false] {
        let data = DescriptorRecord {
            value: Some(JsValue::Number(42)),
            writable: Some(JsValue::Boolean(true)),
            get: None,
            set: None,
            enumerable: Some(JsValue::Boolean(enumerable)),
            configurable: Some(JsValue::Boolean(false)),
        };
        let accessor = DescriptorRecord {
            value: None,
            writable: None,
            get: Some(JsValue::Object(f)),
            set: Some(JsValue::Undefined),
            enumerable: Some(JsValue::Boolean(enumerable)),
            configurable: Some(JsValue::Boolean(true)),
        };
        for rec in [data, accessor] {
            let d = env.to_property_descriptor(&rec).unwrap();
            let stored = d.define_outcome(None, true).unwrap();
            assert_eq!(stored.from_property_descriptor(), rec);
        }
    }
}

#[test]
fn descriptor_round_trip_through_an_object() {
    let mut env = JsEnv::new();
    let o = env.create_object();
    let k = string(&mut env, "p");
    let rec = DescriptorRecord {
        value: Some(JsValue::Number(7)),
        writable: Some(JsValue::Boolean(false)),
        get: None,
        set: None,
        enumerable: Some(JsValue::Boolean(true)),
        configurable: Some(JsValue::Boolean(false)),
    };
    let args = JsArgs::new(JsValue::Undefined, vec![JsValue::Object(o), k]);
    Object_defineProperty(&mut env, call(), &args, None, &rec).unwrap();
    assert_eq!(Object_getOwnPropertyDescriptor(&mut env, call(), &args, None), Ok(Some(rec)));
    let missing = string(&mut env, "q");
    let args = JsArgs::new(JsValue::Undefined, vec![JsValue::Object(o), missing]);
    assert_eq!(Object_getOwnPropertyDescriptor(&mut env, call(), &args, None), Ok(None));
    let args = JsArgs::new(JsValue::Undefined, vec![JsValue::Null, missing]);
    assert_eq!(Object_getOwnPropertyDescriptor(&mut env, call(), &args, None), Err(JsError::TypeInvalid));
}

#[test]
fn to_property_descriptor_errors_and_defaults() {
    let mut env = JsEnv::new();
    let mixed = DescriptorRecord { value: Some(JsValue::Number(1)), get: Some(JsValue::Undefined), ..empty_record() };
    assert_eq!(env.to_property_descriptor(&mixed), Err(JsError::TypeMixedDescriptor));
    let bad_get = DescriptorRecord { get: Some(JsValue::Number(1)), ..empty_record() };
    assert_eq!(env.to_property_descriptor(&bad_get), Err(JsError::TypeNotCallable));
    let o = env.create_object();
    let bad_set = DescriptorRecord { set: Some(JsValue::Object(o)), ..empty_record() };
    assert_eq!(env.to_property_descriptor(&bad_set), Err(JsError::TypeNotCallable));
    let empty = string(&mut env, "");
    let full = string(&mut env, "y");
    let coerced = DescriptorRecord {
        writable: Some(empty),
        enumerable: Some(full),
        configurable: Some(JsValue::Number(0x7ff8_0000_0000_0000)),
        ..empty_record()
    };
    let d = env.to_property_descriptor(&coerced).unwrap();
    assert_eq!(d.writable, Some(false));
    assert_eq!(d.enumerable, Some(true));
    assert_eq!(d.configurable, Some(false));
    let fresh = d.define_outcome(None, true).unwrap();
    assert_eq!(
        fresh,
        PropertyDescriptor {
            kind: PropertyKind::Data { value: JsValue::Undefined, writable: false },
            enumerable: true,
            configurable: false
        }
    );
}

#[test]
fn define_property_refuses_bad_arguments() {
    let mut env = JsEnv::new();
    let k = string(&mut env, "k");
    let rec = empty_record();
    let args = JsArgs::new(JsValue::Undefined, vec![JsValue::Number(1), k]);
    assert_eq!(Object_defineProperty(&mut env, call(), &args, None, &rec), Err(JsError::TypeInvalid));
    let o = env.create_object();
    let args = JsArgs::new(JsValue::Undefined, vec![JsValue::Object(o), JsValue::Number(0)]);
    assert_eq!(Object_defineProperty(&mut env, call(), &args, None, &rec), Err(JsError::TypeInvalid));
    let bad = DescriptorRecord { get: Some(JsValue::Boolean(true)), ..empty_record() };
    let args = JsArgs::new(JsValue::Undefined, vec![JsValue::Object(o), k]);
    assert_eq!(Object_defineProperty(&mut env, call(), &args, None, &bad), Err(JsError::TypeNotCallable));
}

#[test]
fn non_configurable_rules() {
    let mut env = JsEnv::new();
    let o = env.create_object();
    let k = env.intern("k");
    assert_eq!(env.define_own_property(o, k, data(JsValue::Number(1), true, true, false), false), Ok(true));
    // configurable false -> true is refused
    let up = JsDescriptor { configurable: Some(true), ..JsDescriptor { value: None, writable: None, get: None, set: None, enumerable: None, configurable: None } };
    assert_eq!(env.define_own_property(o, k, up, false), Ok(false));
    assert_eq!(env.define_own_property(o, k, up, true), Err(JsError::TypeCannotDefine));
    // narrowing writable is allowed
    let narrow = JsDescriptor { writable: Some(false), ..up };
    let narrow = JsDescriptor { configurable: None, ..narrow };
    assert_eq!(env.define_own_property(o, k, narrow, true), Ok(true));
    // changing the value while non-writable is refused, same value allowed
    let change = JsDescriptor { value: Some(JsValue::Number(2)), writable: None, get: None, set: None, enumerable: None, configurable: None };
    assert_eq!(env.define_own_property(o, k, change, false), Ok(false));
    let same = JsDescriptor { value: Some(JsValue::Number(1)), ..change };
    assert_eq!(env.define_own_property(o, k, same, false), Ok(true));
    // switching to an accessor is refused
    let f = env.create_function();
    let acc = JsDescriptor { value: None, get: Some(JsValue::Object(f)), ..change };
    assert_eq!(env.define_own_property(o, k, acc, false), Ok(false));
    // a non-configurable property is not deleted
    assert!(!env.delete(o, k));
    assert!(env.object(o).get_own_property(k).is_some());
}

#[test]
fn configurable_property_can_change_shape() {
    let mut env = JsEnv::new();
    let o = env.create_object();
    let k = env.intern("k");
    assert_eq!(env.define_own_property(o, k, data(JsValue::Number(1), true, true, true), true), Ok(true));
    let f = env.create_function();
    let acc = JsDescriptor { value: None, writable: None, get: Some(JsValue::Object(f)), set: None, enumerable: None, configurable: None };
    assert_eq!(env.define_own_property(o, k, acc, true), Ok(true));
    let p = env.object(o).get_own_property(k).unwrap();
    assert_eq!(
        p,
        PropertyDescriptor {
            kind: PropertyKind::Accessor { get: JsValue::Object(f), set: JsValue::Undefined },
            enumerable: true,
            configurable: true
        }
    );
    // configurable true -> false is allowed
    let lock = JsDescriptor { get: None, configurable: Some(false), ..acc };
    assert_eq!(env.define_own_property(o, k, lock, true), Ok(true));
    assert!(!env.object(o).get_own_property(k).unwrap().configurable);
}

#[test]
fn store_level_object() {
    let mut o = JsObject::new(None);
    assert_eq!(o.get_key(0), JsStoreKey::End);
    let mut env = JsEnv::new();
    let a = env.intern("a");
    let b = env.intern("b");
    assert_eq!(o.define_own_property(a, data(JsValue::Null, true, false, true), false), Ok(true));
    assert_eq!(o.define_own_property(b, data(JsValue::Null, true, true, true), false), Ok(true));
    assert_eq!(o.get_key(0), JsStoreKey::Key(a, false));
    assert_eq!(o.get_key(1), JsStoreKey::Key(b, true));
    assert!(o.delete(a));
    assert_eq!(o.get_key(0), JsStoreKey::Missing);
    assert_eq!(o.get_own_property(a), None);
    assert_eq!(o.slot_count(), 2);
    o.set_extensible(false);
    assert_eq!(o.define_own_property(a, data(JsValue::Null, true, true, true), false), Ok(false));
    assert_eq!(o.slot_count(), 2);
}

#[test]
fn value_types() {
    assert_eq!(JsValue::Undefined.ty(), JsType::Undefined);
    assert_eq!(JsValue::Number(0).ty(), JsType::Number);
    assert!(JsValue::Null.is_null_or_undefined());
    assert!(!JsValue::Boolean(false).is_null_or_undefined());
    let mode = JsFnMode::new(true, true);
    assert!(mode.construct());
    assert!(mode.strict());
}

#[test]
fn number_truthiness() {
    let env = JsEnv::new();
    assert!(!env.to_boolean(JsValue::Number(0)));
    assert!(!env.to_boolean(JsValue::Number(0x8000_0000_0000_0000)));
    assert!(!env.to_boolean(JsValue::Number(0x7ff8_0000_0000_0000)));
    assert!(env.to_boolean(JsValue::Number(0x3ff0_0000_0000_0000)));
    assert!(env.to_boolean(JsValue::Number(0x7ff0_0000_0000_0000)));
}

#[test]
fn keys_render_undefined_null_and_booleans() {
    let mut env = JsEnv::new();
    let o = env.create_object();
    define(&mut env, o, "true", JsValue::Number(1), true);
    define(&mut env, o, "null", JsValue::Number(2), false);
    let this = JsValue::Object(o);
    let has = |env: &mut JsEnv, k: JsValue| Object_hasOwnProperty(env, call(), &JsArgs::new(this, vec![k]), None);
    assert_eq!(has(&mut env, JsValue::Boolean(true)), Ok(JsValue::Boolean(true)));
    assert_eq!(has(&mut env, JsValue::Boolean(false)), Ok(JsValue::Boolean(false)));
    assert_eq!(has(&mut env, JsValue::Null), Ok(JsValue::Boolean(true)));
    assert_eq!(has(&mut env, JsValue::Undefined), Ok(JsValue::Boolean(false)));
    assert_eq!(has(&mut env, JsValue::Object(o)), Err(JsError::TypeInvalid));
    let en = Object_propertyIsEnumerable(&mut env, call(), &JsArgs::new(this, vec![JsValue::Null]), None);
    assert_eq!(en, Ok(JsValue::Boolean(false)));
    let rec = DescriptorRecord { value: Some(JsValue::Number(3)), ..empty_record() };
    let args = JsArgs::new(JsValue::Undefined, vec![JsValue::Object(o), JsValue::Undefined]);
    assert_eq!(Object_defineProperty(&mut env, call(), &args, None, &rec), Ok(JsValue::Object(o)));
    let k = env.intern("undefined");
    assert!(env.object(o).get_own_property(k).is_some());
    let d = Object_getOwnPropertyDescriptor(&mut env, call(), &args, None).unwrap().unwrap();
    assert_eq!(d.value, Some(JsValue::Number(3)));
}

#[test]
fn define_twice_keeps_slot_order() {
    let mut env = JsEnv::new();
    let o = env.create_object();
    define(&mut env, o, "a", JsValue::Number(1), true);
    define(&mut env, o, "b", JsValue::Number(2), true);
    define(&mut env, o, "a", JsValue::Number(9), true);
    assert_eq!(env.object(o).slot_count(), 2);
    let a = env.intern("a");
    assert_eq!(env.object(o).get_key(0), JsStoreKey::Key(a, true));
}

#[test]
fn converted_keys_are_used_as_given() {
    let mut env = JsEnv::new();
    let o = env.create_object();
    let rec = DescriptorRecord { value: Some(JsValue::Boolean(true)), enumerable: Some(JsValue::Boolean(true)), ..empty_record() };
    let args = JsArgs::new(JsValue::Undefined, vec![JsValue::Object(o), JsValue::Number(0)]);
    assert_eq!(Object_defineProperty(&mut env, call(), &args, Some("0"), &rec), Ok(JsValue::Object(o)));
    assert_eq!(Object_defineProperty(&mut env, call(), &args, None, &rec), Err(JsError::TypeInvalid));
    let d = Object_getOwnPropertyDescriptor(&mut env, call(), &args, Some("0")).unwrap().unwrap();
    assert_eq!(d.value, Some(JsValue::Boolean(true)));
    let this = JsValue::Object(o);
    let key = JsArgs::new(this, vec![JsValue::Number(0)]);
    assert_eq!(Object_hasOwnProperty(&mut env, call(), &key, Some("0")), Ok(JsValue::Boolean(true)));
    assert_eq!(Object_hasOwnProperty(&mut env, call(), &key, Some("1")), Ok(JsValue::Boolean(false)));
    assert_eq!(Object_hasOwnProperty(&mut env, call(), &key, None), Err(JsError::TypeInvalid));
    assert_eq!(Object_propertyIsEnumerable(&mut env, call(), &key, Some("0")), Ok(JsValue::Boolean(true)));
}

#[test]
fn to_locale_string_reads_through_a_getter() {
    let mut env = JsEnv::new();
    let o = env.create_object();
    let getter = env.create_function();
    let k = string(&mut env, "toString");
    let rec = DescriptorRecord { get: Some(JsValue::Object(getter)), ..empty_record() };
    let args = JsArgs::new(JsValue::Undefined, vec![JsValue::Object(o), k]);
    Object_defineProperty(&mut env, call(), &args, None, &rec).unwrap();
    let this = JsArgs::new(JsValue::Object(o), vec![]);
    assert_eq!(
        Object_toLocaleString(&mut env, call(), &this),
        Ok(LocaleStep::ReadToString { getter: JsValue::Object(getter), this: JsValue::Object(o) })
    );
    let f = env.create_function();
    assert_eq!(
        to_locale_string_with(&env, JsValue::Object(f), JsValue::Object(o)),
        Ok(LocaleStep::CallToString { function: JsValue::Object(f), this: JsValue::Object(o) })
    );
    assert_eq!(to_locale_string_with(&env, JsValue::Null, JsValue::Object(o)), Err(JsError::TypeCannotCallToString));
    let p = env.create_object();
    let undefined_getter = DescriptorRecord { get: Some(JsValue::Undefined), ..empty_record() };
    let args = JsArgs::new(JsValue::Undefined, vec![JsValue::Object(p), k]);
    Object_defineProperty(&mut env, call(), &args, None, &undefined_getter).unwrap();
    let this = JsArgs::new(JsValue::Object(p), vec![]);
    assert_eq!(Object_toLocaleString(&mut env, call(), &this), Err(JsError::TypeCannotCallToString));
}

#[test]
fn get_property_follows_the_chain() {
    let mut env = JsEnv::new();
    let p = env.create_object();
    let c = env.create_object();
    env.set_prototype(c, Some(p));
    define(&mut env, p, "x", JsValue::Number(4), true);
    let x = env.intern("x");
    let y = env.intern("y");
    let found = env.get_property(c, x).unwrap().unwrap();
    assert_eq!(found.kind, PropertyKind::Data { value: JsValue::Number(4), writable: true });
    assert_eq!(env.get_property(c, y), Ok(None));
    env.set_prototype(p, Some(c));
    assert_eq!(env.get_property(c, y), Err(JsError::CyclicPrototype));
}
