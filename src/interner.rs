//! Bidirectional text <-> token tables.
use vstd::prelude::*;
use vstd::string::StringExecFns;
use vstd::std_specs::cmp::PartialEqSpec;

verus! {

/// A compact token standing for a string held by an interner.
#[derive(Clone, Copy, Debug, PartialEq, Eq, Structural, Hash, PartialOrd, Ord)]
pub struct Name(pub u32);

impl Name {
    pub open spec fn index(self) -> nat {
        self.0 as nat
    }

    pub fn from_index(index: usize) -> (r: Name)
        requires
            index <= u32::MAX,
        ensures
            r.index() == index,
    {
        Name(index as u32)
    }

    pub fn usize(self) -> (r: usize)
        ensures
            r == self.index(),
    {
        self.0 as usize
    }
}

/// An owned piece of text as stored by the interner.
#[derive(Debug)]
pub struct RcStr {
    string: String,
}

impl View for RcStr {
    type V = Seq<char>;

    closed spec fn view(&self) -> Seq<char> {
        self.string@
    }
}

/// Two texts are equal when they hold the same characters.
impl PartialEq for RcStr {
    fn eq(&self, other: &RcStr) -> (r: bool)
        ensures
            r == (self@ == other@),
    {
        self.string == other.string
    }
}

impl vstd::std_specs::cmp::PartialEqSpecImpl for RcStr {
    open spec fn obeys_eq_spec() -> bool {
        true
    }

    open spec fn eq_spec(&self, other: &RcStr) -> bool {
        self@ == other@
    }
}

impl Eq for RcStr {
}

impl RcStr {
    pub fn new(string: &str) -> (r: RcStr)
        ensures
            r@ == string@,
    {
        RcStr { string: String::from_str(string) }
    }

    pub fn as_str(&self) -> (r: &str)
        ensures
            r@ == self@,
    {
        self.string.as_str()
    }

    /// A second handle on the same text.
    pub fn duplicate(&self) -> (r: RcStr)
        ensures
            r@ == self@,
    {
        RcStr { string: self.string.clone() }
    }

    pub fn equals(&self, other: &RcStr) -> (r: bool)
        ensures
            r == (self@ == other@),
    {
        self.string == other.string
    }
}

/// The texts of `s` without repeats, each at its first occurrence.
pub open spec fn dedup(s: Seq<Seq<char>>) -> Seq<Seq<char>>
    decreases s.len(),
{
    if s.len() == 0 {
        Seq::empty()
    } else {
        let d = dedup(s.drop_last());
        if d.contains(s.last()) {
            d
        } else {
            d.push(s.last())
        }
    }
}

pub proof fn lemma_dedup_contains(s: Seq<Seq<char>>, x: Seq<char>)
    ensures
        dedup(s).contains(x) <==> s.contains(x),
    decreases s.len(),
{
    if s.len() > 0 {
        lemma_dedup_contains(s.drop_last(), x);
        let d = dedup(s.drop_last());
        if s.contains(x) && x != s.last() {
            let k = choose|k: int| 0 <= k < s.len() && s[k] == x;
            assert(s.drop_last()[k] == x);
        }
        if s.drop_last().contains(x) {
            let k = choose|k: int| 0 <= k < s.drop_last().len() && s.drop_last()[k] == x;
            assert(s[k] == x);
        }
        if !d.contains(s.last()) {
            assert(d.push(s.last())[d.len() as int] == s.last());
            if d.push(s.last()).contains(x) && x != s.last() {
                let k = choose|k: int| 0 <= k < d.len() + 1 && d.push(s.last())[k] == x;
                assert(d[k] == x);
            }
            if d.contains(x) {
                let k = choose|k: int| 0 <= k < d.len() && d[k] == x;
                assert(d.push(s.last())[k] == x);
            }
        }
        if x == s.last() {
            assert(s[s.len() - 1] == x);
        }
    }
}

pub proof fn lemma_dedup_len(s: Seq<Seq<char>>)
    ensures
        dedup(s).len() <= s.len(),
    decreases s.len(),
{
    if s.len() > 0 {
        lemma_dedup_len(s.drop_last());
    }
}

/// `after` and `r` are what `intern` of `s` makes of `before`.
pub open spec fn interned(before: StrInterner, after: StrInterner, s: Seq<char>, r: Name) -> bool {
    &&& after.wf()
    &&& after.maps(s, r)
    &&& after.lookup(s) == Some(r)
    &&& match before.lookup(s) {
        Some(n) => r == n && after == before,
        None => {
            &&& r.index() == before.spec_len()
            &&& after.strings() == before.strings().push(s)
            &&& after.registered() == before.registered().push(true)
        },
    }
}

/// `after` and `r` are what `gensym` of `s` makes of `before`.
pub open spec fn gensymed(before: StrInterner, after: StrInterner, s: Seq<char>, r: Name) -> bool {
    &&& after.wf()
    &&& r.index() == before.spec_len()
    &&& after.strings() == before.strings().push(s)
    &&& after.registered() == before.registered().push(false)
}

/// Interning the same text twice gives the same token, leaves the interner
/// as the first call left it, and the token's text is that text.
pub proof fn lemma_intern_canonical(i0: StrInterner, i1: StrInterner, i2: StrInterner, s: Seq<char>, n1: Name, n2: Name)
    requires
        i0.wf(),
        interned(i0, i1, s, n1),
        interned(i1, i2, s, n2),
    ensures
        n1 == n2,
        i2 == i1,
        n1.index() < i2.spec_len(),
        i2.strings()[n1.index() as int] == s,
{
}

/// A token made by `gensym` is never found by text: lookup returns it for
/// no text at all.
pub proof fn lemma_gensym_unreachable(i0: StrInterner, i1: StrInterner, s: Seq<char>, g: Name)
    requires
        i0.wf(),
        gensymed(i0, i1, s, g),
    ensures
        forall|t: Seq<char>| #[trigger] i1.lookup(t) != Some(g),
        i1.lookup(s) == i0.lookup(s),
{
    assert forall|t: Seq<char>| #[trigger] i1.lookup(t) != Some(g) by {
        if i1.lookup(t) == Some(g) {
            i1.lemma_lookup_some(t);
        }
    }
    assert forall|n: Name| i1.maps(s, n) == i0.maps(s, n) by {
        if n.index() < i0.spec_len() {
            assert(i1.strings()[n.index() as int] == i0.strings()[n.index() as int]);
            assert(i1.registered()[n.index() as int] == i0.registered()[n.index() as int]);
        }
    }
    if i0.lookup(s) is Some {
        i0.lemma_lookup_some(s);
        i1.lemma_maps_unique(s, i0.lookup(s).unwrap());
    } else {
        assert(!exists|n: Name| i1.maps(s, n));
    }
}

/// `gensym` of a text and `intern` of the same text, in either order, give
/// different tokens, and lookup by text never returns the gensym'd one.
pub proof fn lemma_gensym_differs_from_intern(
    i0: StrInterner,
    i1: StrInterner,
    i2: StrInterner,
    j1: StrInterner,
    j2: StrInterner,
    s: Seq<char>,
    g: Name,
    n: Name,
    n2: Name,
    g2: Name,
)
    requires
        i0.wf(),
        gensymed(i0, i1, s, g),
        interned(i1, i2, s, n),
        interned(i0, j1, s, n2),
        gensymed(j1, j2, s, g2),
    ensures
        g != n,
        i2.lookup(s) != Some(g),
        g2 != n2,
        j2.lookup(s) == Some(n2),
        j2.lookup(s) != Some(g2),
{
    if i1.lookup(s) is Some {
        i1.lemma_lookup_some(s);
    }
    assert(i2.registered()[n.index() as int]);
    if g == n {
        assert(i2.registered()[g.index() as int] == i1.registered()[g.index() as int]);
    }
    lemma_gensym_unreachable(j1, j2, s, g2);
}

/// Maps text to tokens and back. Every entry lives in a sequence indexed by
/// token; entries made by `intern` are also registered for lookup by text,
/// entries made by `gensym` are not.
pub struct StrInterner {
    vect: Vec<RcStr>,
    registered: Vec<bool>,
}

impl StrInterner {
    /// The text stored for each token, in token order.
    pub closed spec fn strings(&self) -> Seq<Seq<char>> {
        self.vect@.map_values(|s: RcStr| s@)
    }

    /// Which tokens are reachable by text (issued by `intern`).
    pub closed spec fn registered(&self) -> Seq<bool> {
        self.registered@
    }

    pub open spec fn spec_len(&self) -> nat {
        self.strings().len()
    }

    /// `n` is a token of this interner that was issued by `intern` for `s`.
    pub open spec fn maps(&self, s: Seq<char>, n: Name) -> bool {
        n.index() < self.spec_len() && self.registered()[n.index() as int] && self.strings()[n.index() as int] == s
    }

    /// The lookup-by-text mapping: the registered token of `s`, if any.
    pub open spec fn lookup(&self, s: Seq<char>) -> Option<Name> {
        if exists|n: Name| self.maps(s, n) {
            Some(choose|n: Name| self.maps(s, n))
        } else {
            None
        }
    }

    pub open spec fn wf(&self) -> bool {
        &&& self.registered().len() == self.strings().len()
        &&& self.strings().len() <= u32::MAX as nat + 1
        &&& forall|i: int, j: int|
            0 <= i < j < self.strings().len() && self.registered()[i] && self.registered()[j]
                ==> self.strings()[i] != self.strings()[j]
    }

    pub fn new() -> (r: StrInterner)
        ensures
            r.wf(),
            r.strings() == Seq::<Seq<char>>::empty(),
            r.registered() == Seq::<bool>::empty(),
    {
        StrInterner { vect: Vec::new(), registered: Vec::new() }
    }

    pub fn len(&self) -> (r: usize)
        ensures
            r == self.spec_len(),
    {
        self.vect.len()
    }

    fn position(&self, val: &str) -> (r: Option<usize>)
        requires
            self.wf(),
        ensures
            match r {
                Some(i) => self.maps(val@, Name(i as u32)) && i < self.spec_len(),
                None => forall|n: Name| !self.maps(val@, n),
            },
    {
        let target = String::from_str(val);
        let mut i: usize = 0;
        while i < self.vect.len()
            invariant
                self.wf(),
                target@ == val@,
                i <= self.vect@.len(),
                forall|k: int| 0 <= k < i ==> !(self.registered()[k] && self.strings()[k] == val@),
            decreases self.vect@.len() - i,
        {
            if self.registered[i] && self.vect[i].string == target {
                return Some(i);
            }
            i = i + 1;
        }
        proof {
            assert forall|n: Name| !self.maps(val@, n) by {
                if self.maps(val@, n) {
                    assert(!(self.registered()[n.index() as int] && self.strings()[n.index() as int] == val@));
                }
            }
        }
        None
    }

    /// The registered token of `val`, without inserting anything.
    pub fn find(&self, val: &str) -> (r: Option<Name>)
        requires
            self.wf(),
        ensures
            r == self.lookup(val@),
            match r {
                Some(n) => self.maps(val@, n),
                None => forall|n: Name| !self.maps(val@, n),
            },
    {
        match self.position(val) {
            Some(i) => {
                let n = Name(i as u32);
                proof { self.lemma_maps_unique(val@, n); }
                Some(n)
            },
            None => None,
        }
    }

    /// Two registered tokens with the same text are the same token.
    pub proof fn lemma_maps_unique(&self, s: Seq<char>, n: Name)
        requires
            self.wf(),
            self.maps(s, n),
        ensures
            self.lookup(s) == Some(n),
    {
        let m = choose|m: Name| self.maps(s, m);
        assert(self.maps(s, m));
        if m.index() < n.index() {
            assert(self.strings()[m.index() as int] != self.strings()[n.index() as int]);
        } else if n.index() < m.index() {
            assert(self.strings()[n.index() as int] != self.strings()[m.index() as int]);
        }
        assert(m.0 == n.0);
    }

    /// The canonical token of `val`: the one issued before, or a fresh one
    /// registered for lookup by text.
    pub fn intern(&mut self, val: &str) -> (r: Name)
        requires
            old(self).wf(),
            old(self).spec_len() < u32::MAX,
        ensures
            interned(*old(self), *final(self), val@, r),
    {
        match self.find(val) {
            Some(n) => n,
            None => {
                let n = Name(self.vect.len() as u32);
                self.vect.push(RcStr::new(val));
                self.registered.push(true);
                proof {
                    assert(self.strings() =~= old(self).strings().push(val@));
                    assert forall|i: int| 0 <= i < old(self).spec_len() && old(self).registered()[i]
                        implies old(self).strings()[i] != val@ by {
                        assert(!old(self).maps(val@, Name(i as u32)));
                    }
                    assert(self.wf());
                    assert(self.maps(val@, n));
                    self.lemma_maps_unique(val@, n);
                }
                n
            },
        }
    }

    fn append(&mut self, s: RcStr) -> (r: Name)
        requires
            old(self).wf(),
            old(self).spec_len() < u32::MAX,
        ensures
            final(self).wf(),
            r.index() == old(self).spec_len(),
            final(self).strings() == old(self).strings().push(s@),
            final(self).registered() == old(self).registered().push(false),
    {
        let n = Name(self.vect.len() as u32);
        self.vect.push(s);
        self.registered.push(false);
        proof {
            assert(self.strings() =~= old(self).strings().push(s@));
        }
        n
    }

    /// A fresh token for `val`, never registered for lookup by text.
    pub fn gensym(&mut self, val: &str) -> (r: Name)
        requires
            old(self).wf(),
            old(self).spec_len() < u32::MAX,
        ensures
            gensymed(*old(self), *final(self), val@, r),
    {
        self.append(RcStr::new(val))
    }

    /// A fresh token, not registered for lookup by text, carrying the text of `idx`.
    pub fn gensym_copy(&mut self, idx: Name) -> (r: Name)
        requires
            old(self).wf(),
            old(self).spec_len() < u32::MAX,
            idx.index() < old(self).spec_len(),
        ensures
            final(self).wf(),
            r.index() == old(self).spec_len(),
            final(self).strings() == old(self).strings().push(old(self).strings()[idx.index() as int]),
            final(self).registered() == old(self).registered().push(false),
    {
        let existing = self.vect[idx.usize()].duplicate();
        self.append(existing)
    }

    /// The text stored for `idx`.
    pub fn get(&self, idx: Name) -> (r: RcStr)
        requires
            idx.index() < self.spec_len(),
        ensures
            r@ == self.strings()[idx.index() as int],
    {
        self.vect[idx.usize()].duplicate()
    }

    /// Forgets every token issued so far.
    pub fn clear(&mut self)
        ensures
            final(self).wf(),
            final(self).spec_len() == 0,
    {
        self.vect = Vec::new();
        self.registered = Vec::new();
        proof {
            assert(self.strings() =~= Seq::<Seq<char>>::empty());
        }
    }

    /// Takes over the contents of `other`.
    pub fn reset(&mut self, other: StrInterner)
        ensures
            final(self).wf() == other.wf(),
            final(self).strings() == other.strings(),
            final(self).registered() == other.registered(),
    {
        *self = other;
    }

    /// An interner holding the distinct texts of `init`, each registered,
    /// in the order of their first occurrence.
    pub fn prefill(init: &[&str]) -> (r: StrInterner)
        requires
            init@.len() < u32::MAX,
        ensures
            r.wf(),
            r.strings() == dedup(init@.map_values(|s: &str| s@)),
            forall|k: int| 0 <= k < r.spec_len() ==> #[trigger] r.registered()[k],
            forall|t: Seq<char>| #[trigger] r.lookup(t) is Some <==> init@.map_values(|s: &str| s@).contains(t),
    {
        let ghost texts = init@.map_values(|s: &str| s@);
        let mut rv = StrInterner::new();
        let mut i: usize = 0;
        proof {
            assert(texts.take(0) =~= Seq::<Seq<char>>::empty());
            assert(rv.strings() =~= Seq::<Seq<char>>::empty());
        }
        while i < init.len()
            invariant
                rv.wf(),
                i <= init@.len() < u32::MAX,
                texts == init@.map_values(|s: &str| s@),
                rv.strings() == dedup(texts.take(i as int)),
                forall|k: int| 0 <= k < rv.spec_len() ==> #[trigger] rv.registered()[k],
            decreases init@.len() - i,
        {
            let ghost before = rv;
            let s: &str = init[i];
            proof {
                lemma_dedup_len(texts.take(i as int));
                before.lemma_lookup_iff_contains(s@);
                lemma_dedup_contains(texts.take(i as int), s@);
                assert(texts.take(i as int + 1).drop_last() =~= texts.take(i as int));
                assert(texts.take(i as int + 1).last() == s@);
            }
            rv.intern(s);
            i = i + 1;
        }
        proof {
            assert(texts.take(init@.len() as int) =~= texts);
            assert forall|t: Seq<char>| #[trigger] rv.lookup(t) is Some <==> texts.contains(t) by {
                rv.lemma_lookup_iff_contains(t);
                lemma_dedup_contains(texts, t);
            }
        }
        rv
    }

    /// With every entry registered, a text is found exactly when some entry
    /// holds it.
    proof fn lemma_lookup_iff_contains(&self, t: Seq<char>)
        requires
            self.wf(),
            forall|k: int| 0 <= k < self.spec_len() ==> #[trigger] self.registered()[k],
        ensures
            self.lookup(t) is Some <==> self.strings().contains(t),
    {
        if self.strings().contains(t) {
            let k = choose|k: int| 0 <= k < self.strings().len() && self.strings()[k] == t;
            assert(self.maps(t, Name(k as u32)));
        }
        if self.lookup(t) is Some {
            self.lemma_lookup_some(t);
            let n = self.lookup(t).unwrap();
            assert(self.strings()[n.index() as int] == t);
        }
    }

    pub proof fn lemma_lookup_some(&self, s: Seq<char>)
        requires
            self.lookup(s) is Some,
        ensures
            self.maps(s, self.lookup(s).unwrap()),
    {
    }
}

/// A table of values of any type with an equality: `intern` gives equal
/// values one token, `gensym` always a fresh one that lookup never finds.
pub struct Interner<T> {
    vect: Vec<T>,
    registered: Vec<bool>,
}

impl<T: PartialEq + Clone> Interner<T> {
    pub closed spec fn items(&self) -> Seq<T> {
        self.vect@
    }

    pub closed spec fn registered(&self) -> Seq<bool> {
        self.registered@
    }

    pub open spec fn spec_len(&self) -> nat {
        self.items().len()
    }

    /// Entry `i` is registered and equal to `val`.
    pub open spec fn matches_at(&self, i: int, val: T) -> bool {
        0 <= i < self.spec_len() && self.registered()[i] && self.items()[i].eq_spec(&val)
    }

    /// Entry `i` is the earliest registered entry equal to `val`.
    pub open spec fn first_at(&self, i: int, val: T) -> bool {
        self.matches_at(i, val) && forall|j: int| 0 <= j < i ==> !self.matches_at(j, val)
    }

    /// The first registered entry equal to `val`, if any.
    pub open spec fn first_match(&self, val: T) -> Option<Name> {
        if exists|i: int| self.first_at(i, val) {
            Some(Name((choose|i: int| self.first_at(i, val)) as u32))
        } else {
            None
        }
    }

    /// Equality on `T` is executable by `==` and every value equals itself.
    pub open spec fn eq_ok() -> bool {
        &&& T::obeys_eq_spec()
        &&& forall|x: T| #[trigger] x.eq_spec(&x)
    }

    pub open spec fn wf(&self) -> bool {
        &&& Self::eq_ok()
        &&& self.registered().len() == self.items().len()
        &&& self.items().len() <= u32::MAX as nat + 1
    }

    /// `after` and `r` are what `intern` of `val` makes of `before`.
    pub open spec fn interned_value(before: Interner<T>, after: Interner<T>, val: T, r: Name) -> bool {
        &&& after.wf()
        &&& after.first_match(val) == Some(r)
        &&& forall|v: T| #[trigger] before.first_match(v) is Some ==> after.first_match(v) == before.first_match(v)
        &&& match before.first_match(val) {
            Some(n) => r == n && after.items() == before.items() && after.registered() == before.registered(),
            None => {
                &&& r.index() == before.spec_len()
                &&& after.items() == before.items().push(val)
                &&& after.registered() == before.registered().push(true)
            },
        }
    }

    /// `after` and `r` are what `gensym` of `val` makes of `before`.
    pub open spec fn gensymed_value(before: Interner<T>, after: Interner<T>, val: T, r: Name) -> bool {
        &&& after.wf()
        &&& r.index() == before.spec_len()
        &&& after.items() == before.items().push(val)
        &&& after.registered() == before.registered().push(false)
        &&& forall|v: T| #[trigger] after.first_match(v) == before.first_match(v)
    }

    /// A token that lookup returns is a registered entry equal to the value.
    pub proof fn lemma_first_match_some(&self, val: T)
        requires
            self.wf(),
            self.first_match(val) is Some,
        ensures
            self.matches_at(self.first_match(val).unwrap().index() as int, val),
    {
        let k = choose|k: int| self.first_at(k, val);
        assert(self.first_at(k, val));
    }

    /// Interning a value twice gives the same token and leaves the entries
    /// as the first call left them; the entry at that token equals the value.
    pub proof fn lemma_intern_canonical(i0: Interner<T>, i1: Interner<T>, i2: Interner<T>, v: T, n1: Name, n2: Name)
        requires
            i0.wf(),
            Self::interned_value(i0, i1, v, n1),
            Self::interned_value(i1, i2, v, n2),
        ensures
            n1 == n2,
            i2.items() == i1.items(),
            i2.registered() == i1.registered(),
            n1.index() < i2.spec_len(),
            i2.items()[n1.index() as int].eq_spec(&v),
    {
        i2.lemma_first_match_some(v);
    }

    /// After `intern` of a value, `gensym` of the same value gives a
    /// different token, lookup still gives the interned one, and lookup
    /// gives the gensym'd token for no value at all.
    pub proof fn lemma_gensym_after_intern(i0: Interner<T>, i1: Interner<T>, i2: Interner<T>, v: T, n: Name, g: Name)
        requires
            i0.wf(),
            Self::interned_value(i0, i1, v, n),
            Self::gensymed_value(i1, i2, v, g),
        ensures
            g != n,
            i2.first_match(v) == Some(n),
            forall|w: T| #[trigger] i2.first_match(w) != Some(g),
    {
        i1.lemma_first_match_some(v);
        assert forall|w: T| #[trigger] i2.first_match(w) != Some(g) by {
            if i2.first_match(w) == Some(g) {
                i2.lemma_first_match_some(w);
            }
        }
    }

    /// After `gensym` of a value, `intern` of the same value gives a
    /// different token, and lookup never gives the gensym'd one.
    pub proof fn lemma_intern_after_gensym(i0: Interner<T>, i1: Interner<T>, i2: Interner<T>, v: T, g: Name, n: Name)
        requires
            i0.wf(),
            Self::gensymed_value(i0, i1, v, g),
            Self::interned_value(i1, i2, v, n),
        ensures
            n != g,
            forall|w: T| #[trigger] i2.first_match(w) != Some(g),
    {
        if i1.first_match(v) is Some {
            i1.lemma_first_match_some(v);
            assert(i1.registered()[g.index() as int] == false);
        }
        assert forall|w: T| #[trigger] i2.first_match(w) != Some(g) by {
            if i2.first_match(w) == Some(g) {
                i2.lemma_first_match_some(w);
                assert(i2.registered()[g.index() as int] == i1.registered()[g.index() as int]);
            }
        }
    }

    /// `first_match` is the earliest matching entry.
    proof fn lemma_first_match_at(&self, val: T, i: int)
        requires
            self.matches_at(i, val),
            forall|j: int| 0 <= j < i ==> !self.matches_at(j, val),
            i <= u32::MAX,
        ensures
            self.first_match(val) == Some(Name(i as u32)),
    {
        assert(self.first_at(i, val));
        let k = choose|k: int| self.first_at(k, val);
        assert(self.first_at(k, val));
        if k < i {
        } else if i < k {
        }
    }

    /// Appending an entry leaves the first match of every value that already
    /// had one.
    proof fn lemma_first_match_kept(&self, after: &Interner<T>, v: T)
        requires
            self.wf(),
            after.spec_len() == self.spec_len() + 1,
            forall|i: int| 0 <= i < self.spec_len() ==> #[trigger] after.items()[i] == self.items()[i]
                && after.registered()[i] == self.registered()[i],
            self.first_match(v) is Some,
        ensures
            after.first_match(v) == self.first_match(v),
    {
        let k = choose|k: int| self.first_at(k, v);
        assert(self.first_at(k, v));
        assert(after.items()[k] == self.items()[k] && after.registered()[k] == self.registered()[k]);
        assert(after.matches_at(k, v));
        assert forall|j: int| 0 <= j < k implies !after.matches_at(j, v) by {
            assert(!self.matches_at(j, v));
            assert(after.items()[j] == self.items()[j] && after.registered()[j] == self.registered()[j]);
        }
        after.lemma_first_match_at(v, k);
    }

    pub fn new() -> (r: Interner<T>)
        requires
            Self::eq_ok(),
        ensures
            r.wf(),
            r.spec_len() == 0,
    {
        Interner { vect: Vec::new(), registered: Vec::new() }
    }

    pub fn len(&self) -> (r: usize)
        ensures
            r == self.spec_len(),
    {
        self.vect.len()
    }

    /// The token of the first registered entry equal to `val`.
    pub fn find(&self, val: &T) -> (r: Option<Name>)
        requires
            self.wf(),
        ensures
            r == self.first_match(*val),
            r is None ==> forall|k: int| !self.matches_at(k, *val),
    {
        let mut i: usize = 0;
        while i < self.vect.len()
            invariant
                self.wf(),
                i <= self.vect@.len(),
                forall|k: int| 0 <= k < i ==> !self.matches_at(k, *val),
            decreases self.vect@.len() - i,
        {
            if self.registered[i] && self.vect[i].eq(val) {
                proof {
                    self.lemma_first_match_at(*val, i as int);
                }
                return Some(Name(i as u32));
            }
            i = i + 1;
        }
        None
    }

    /// The token of `val`: that of the first registered equal entry, or a
    /// fresh registered one.
    pub fn intern(&mut self, val: T) -> (r: Name)
        requires
            old(self).wf(),
            old(self).spec_len() < u32::MAX,
        ensures
            Self::interned_value(*old(self), *final(self), val, r),
    {
        match self.find(&val) {
            Some(n) => n,
            None => {
                let n = Name(self.vect.len() as u32);
                let ghost before = *self;
                self.vect.push(val);
                self.registered.push(true);
                proof {
                    assert(self.items()[n.index() as int].eq_spec(&val));
                    assert forall|j: int| 0 <= j < n.index() implies !self.matches_at(j, val) by {
                        assert(self.items()[j] == before.items()[j]);
                        assert(!before.matches_at(j, val));
                    }
                    self.lemma_first_match_at(val, n.index() as int);
                    assert forall|v: T| #[trigger] before.first_match(v) is Some implies self.first_match(v)
                        == before.first_match(v) by {
                        before.lemma_first_match_kept(self, v);
                    }
                }
                n
            },
        }
    }

    /// A fresh token for `val`, never registered for lookup.
    pub fn gensym(&mut self, val: T) -> (r: Name)
        requires
            old(self).wf(),
            old(self).spec_len() < u32::MAX,
        ensures
            Self::gensymed_value(*old(self), *final(self), val, r),
    {
        let n = Name(self.vect.len() as u32);
        let ghost before = *self;
        self.vect.push(val);
        self.registered.push(false);
        proof {
            assert forall|v: T| #[trigger] self.first_match(v) == before.first_match(v) by {
                if before.first_match(v) is Some {
                    before.lemma_first_match_kept(self, v);
                } else {
                    assert forall|i: int| !self.first_at(i, v) by {
                        if self.first_at(i, v) && i < before.spec_len() {
                            assert(self.items()[i] == before.items()[i]);
                            assert forall|j: int| 0 <= j < i implies !before.matches_at(j, v) by {
                                assert(self.items()[j] == before.items()[j]);
                                assert(!self.matches_at(j, v));
                            }
                            assert(before.first_at(i, v));
                        }
                    }
                }
            }
        }
        n
    }

    /// The value stored for `idx`.
    pub fn get(&self, idx: Name) -> (r: &T)
        requires
            idx.index() < self.spec_len(),
        ensures
            *r == self.items()[idx.index() as int],
    {
        &self.vect[idx.usize()]
    }

    /// Forgets every token issued so far.
    pub fn clear(&mut self)
        requires
            old(self).wf(),
        ensures
            final(self).wf(),
            final(self).spec_len() == 0,
    {
        self.vect = Vec::new();
        self.registered = Vec::new();
    }

    /// An interner holding a copy of each of `init`, interned in order.
    pub fn prefill(init: &[T]) -> (r: Interner<T>)
        requires
            Self::eq_ok(),
            init@.len() < u32::MAX,
        ensures
            r.wf(),
            r.spec_len() <= init@.len(),
            forall|i: int| 0 <= i < r.spec_len() ==> #[trigger] r.registered()[i],
    {
        let mut rv = Interner::new();
        let mut i: usize = 0;
        while i < init.len()
            invariant
                rv.wf(),
                i <= init@.len() < u32::MAX,
                rv.spec_len() <= i,
                forall|k: int| 0 <= k < rv.spec_len() ==> #[trigger] rv.registered()[k],
            decreases init@.len() - i,
        {
            rv.intern(init[i].clone());
            i = i + 1;
        }
        rv
    }
}

} // verus!
