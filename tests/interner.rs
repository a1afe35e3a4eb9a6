use rjs::interner::{Interner, Name, RcStr, StrInterner};

#[test]
fn intern_twice_gives_same_name() {
    let mut i = StrInterner::new();
    let a = i.intern("alpha");
    let b = i.intern("alpha");
    assert_eq!(a, b);
    assert_eq!(i.get(a).as_str(), "alpha");
    assert_eq!(i.len(), 1);
}

#[test]
fn intern_assigns_sequential_names() {
    let mut i = StrInterner::new();
    assert_eq!(i.intern("a"), Name(0));
    assert_eq!(i.intern("b"), Name(1));
    assert_eq!(i.intern("a"), Name(0));
    assert_eq!(i.intern(""), Name(2));
    assert_eq!(i.get(Name(2)).as_str(), "");
}

#[test]
fn gensym_differs_from_intern_and_is_not_found() {
    let mut i = StrInterner::new();
    let n = i.intern("x");
    let g = i.gensym("x");
    assert_ne!(n, g);
    assert_eq!(i.get(g).as_str(), "x");
    assert_eq!(i.find("x"), Some(n));

    let mut j = StrInterner::new();
    let g2 = j.gensym("y");
    assert_eq!(j.find("y"), None);
    let n2 = j.intern("y");
    assert_ne!(g2, n2);
    assert_eq!(j.find("y"), Some(n2));
}

#[test]
fn gensym_copy_keeps_text() {
    let mut i = StrInterner::new();
    let n = i.intern("key");
    let c = i.gensym_copy(n);
    assert_ne!(n, c);
    assert_eq!(i.get(c).as_str(), "key");
    assert_eq!(i.find("key"), Some(n));
    assert_eq!(i.len(), 2);
}

#[test]
fn find_without_insertion() {
    let mut i = StrInterner::new();
    assert_eq!(i.find("none"), None);
    assert_eq!(i.len(), 0);
    i.intern("some");
    assert_eq!(i.find("some"), Some(Name(0)));
}

#[test]
fn clear_empties_the_interner() {
    let mut i = StrInterner::new();
    i.intern("a");
    i.gensym("b");
    i.clear();
    assert_eq!(i.len(), 0);
    assert_eq!(i.find("a"), None);
    assert_eq!(i.intern("b"), Name(0));
}

#[test]
fn prefill_and_reset() {
    let i = StrInterner::prefill(&["a", "b", "a", "c"]);
    assert_eq!(i.len(), 3);
    assert_eq!(i.find("b"), Some(Name(1)));
    assert_eq!(i.find("c"), Some(Name(2)));
    assert_eq!(i.get(Name(2)).as_str(), "c");
    assert_eq!(i.find("d"), None);
    let mut j = StrInterner::new();
    j.intern("z");
    j.reset(i);
    assert_eq!(j.find("z"), None);
    assert_eq!(j.find("a"), Some(Name(0)));
}

#[test]
fn rcstr_holds_its_text() {
    let s = RcStr::new("text");
    assert_eq!(s.as_str(), "text");
    assert!(s.equals(&RcStr::new("text")));
    assert!(!s.equals(&RcStr::new("other")));
    assert!(s == RcStr::new("text"));
    assert!(s != RcStr::new("other"));
}

#[test]
fn name_index_round_trip() {
    let n = Name::from_index(7);
    assert_eq!(n.usize(), 7);
}

#[test]
fn generic_interner_behaves_like_string_interner() {
    let mut i: Interner<u64> = Interner::new();
    let a = i.intern(10);
    let b = i.intern(20);
    assert_eq!(i.intern(10), a);
    assert_ne!(a, b);
    let g = i.gensym(10);
    assert_ne!(g, a);
    assert_eq!(*i.get(g), 10);
    assert_eq!(i.find(&10), Some(a));
    assert_eq!(i.find(&30), None);
    assert_eq!(i.len(), 3);
    i.clear();
    assert_eq!(i.len(), 0);
    let p = Interner::prefill(&[5u64, 6, 5]);
    assert_eq!(p.len(), 2);
    assert_eq!(p.find(&6), Some(Name(1)));
}
