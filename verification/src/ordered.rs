//! Sets and maps of text, kept in the order of their keys.
use vstd::prelude::*;

use crate::text;
use crate::text::{chars_of, copy_text, text_eq};

verus! {

broadcast use crate::text::lemma_texts_push;

// ---------------------------------------------------------------------
// The order of texts
// ---------------------------------------------------------------------

/// Text order: by the first character that differs, a prefix first.
pub open spec fn before(a: Seq<char>, b: Seq<char>) -> bool
    decreases a.len(),
{
    b.len() > 0 && (a.len() == 0 || a[0] < b[0] || (a[0] == b[0] && before(a.skip(1), b.skip(1))))
}

pub proof fn lemma_before_irreflexive(a: Seq<char>)
    ensures
        !before(a, a),
    decreases a.len(),
{
    if a.len() > 0 {
        lemma_before_irreflexive(a.skip(1));
    }
}

pub proof fn lemma_before_transitive(a: Seq<char>, b: Seq<char>, c: Seq<char>)
    requires
        before(a, b),
        before(b, c),
    ensures
        before(a, c),
    decreases a.len(),
{
    if a.len() > 0 && a[0] == b[0] && b[0] == c[0] {
        lemma_before_transitive(a.skip(1), b.skip(1), c.skip(1));
    }
}

pub proof fn lemma_before_total(a: Seq<char>, b: Seq<char>)
    ensures
        a == b || before(a, b) || before(b, a),
    decreases a.len(),
{
    if a.len() > 0 && b.len() > 0 && a[0] == b[0] {
        lemma_before_total(a.skip(1), b.skip(1));
        if a.skip(1) == b.skip(1) {
            assert(a =~= seq![a[0]] + a.skip(1));
            assert(b =~= seq![b[0]] + b.skip(1));
        }
    } else if a.len() == 0 && b.len() == 0 {
        assert(a =~= b);
    }
}

pub fn text_before(a: &str, b: &str) -> (r: bool)
    ensures
        r == before(a@, b@),
{
    let x: Vec<char> = chars_of(a);
    let y: Vec<char> = chars_of(b);
    let mut i: usize = 0;
    assert(x@.skip(0) =~= x@);
    assert(y@.skip(0) =~= y@);
    while i < x.len() && i < y.len() && x[i] == y[i]
        invariant
            i <= x@.len(),
            i <= y@.len(),
            x@ == a@,
            y@ == b@,
            before(a@, b@) == before(x@.skip(i as int), y@.skip(i as int)),
        decreases x@.len() - i,
    {
        assert(x@.skip(i as int).skip(1) =~= x@.skip(i + 1));
        assert(y@.skip(i as int).skip(1) =~= y@.skip(i + 1));
        assert(x@.skip(i as int)[0] == x@[i as int]);
        assert(y@.skip(i as int)[0] == y@[i as int]);
        i = i + 1;
    }
    if i == y.len() {
        false
    } else if i == x.len() {
        true
    } else {
        assert(x@.skip(i as int)[0] == x@[i as int]);
        assert(y@.skip(i as int)[0] == y@[i as int]);
        x[i] < y[i]
    }
}

// ---------------------------------------------------------------------
// Sets
// ---------------------------------------------------------------------

/// Every text stands before the ones that follow it: in order, none twice.
pub open spec fn increasing(s: Seq<Seq<char>>) -> bool {
    forall|i: int, j: int| 0 <= i < j < s.len() ==> before(#[trigger] s[i], #[trigger] s[j])
}

/// `s` with `k` at its place.
pub open spec fn with_text(s: Seq<Seq<char>>, k: Seq<char>) -> Seq<Seq<char>>
    decreases s.len(),
{
    if s.len() == 0 {
        seq![k]
    } else if s[0] == k {
        s
    } else if before(k, s[0]) {
        seq![k] + s
    } else {
        seq![s[0]] + with_text(s.skip(1), k)
    }
}

/// The texts of a list in order, each once.
pub open spec fn sorted_unique(s: Seq<Seq<char>>) -> Seq<Seq<char>>
    decreases s.len(),
{
    if s.len() == 0 {
        seq![]
    } else {
        with_text(sorted_unique(s.drop_last()), s.last())
    }
}

pub proof fn lemma_with_text(s: Seq<Seq<char>>, k: Seq<char>)
    requires
        increasing(s),
    ensures
        increasing(with_text(s, k)),
        forall|t: Seq<char>| #[trigger] with_text(s, k).contains(t) <==> (s.contains(t) || t == k),
    decreases s.len(),
{
    let r = with_text(s, k);
    if s.len() == 0 {
        assert(r[0] == k);
    } else if s[0] == k {
        assert(s.contains(k));
    } else if before(k, s[0]) {
        assert forall|i: int, j: int| 0 <= i < j < r.len() implies before(
            #[trigger] r[i],
            #[trigger] r[j],
        ) by {
            if i == 0 {
                assert(r[j] == s[j - 1]);
                if j > 1 {
                    assert(before(s[0], s[j - 1]));
                    lemma_before_transitive(k, s[0], s[j - 1]);
                }
            } else {
                assert(r[i] == s[i - 1] && r[j] == s[j - 1]);
            }
        }
        assert forall|t: Seq<char>| #[trigger] r.contains(t) <==> (s.contains(t) || t == k) by {
            assert(r[0] == k);
            if s.contains(t) {
                let i = choose|i: int| 0 <= i < s.len() && s[i] == t;
                assert(r[i + 1] == t);
            }
            if r.contains(t) {
                let i = choose|i: int| 0 <= i < r.len() && r[i] == t;
                if i > 0 {
                    assert(s[i - 1] == t);
                }
            }
        }
    } else {
        let tail = s.skip(1);
        let rest = with_text(tail, k);
        assert forall|i: int, j: int| 0 <= i < j < tail.len() implies before(
            #[trigger] tail[i],
            #[trigger] tail[j],
        ) by {
            assert(tail[i] == s[i + 1] && tail[j] == s[j + 1]);
        }
        lemma_with_text(tail, k);
        lemma_before_total(s[0], k);
        assert forall|i: int, j: int| 0 <= i < j < r.len() implies before(
            #[trigger] r[i],
            #[trigger] r[j],
        ) by {
            if i == 0 {
                assert(r[j] == rest[j - 1]);
                assert(rest.contains(rest[j - 1]));
                if rest[j - 1] != k {
                    let m = choose|m: int| 0 <= m < tail.len() && tail[m] == rest[j - 1];
                    assert(s[m + 1] == rest[j - 1]);
                    assert(before(s[0], s[m + 1]));
                }
            } else {
                assert(r[i] == rest[i - 1] && r[j] == rest[j - 1]);
            }
        }
        assert forall|t: Seq<char>| #[trigger] r.contains(t) <==> (s.contains(t) || t == k) by {
            if r.contains(t) {
                let i = choose|i: int| 0 <= i < r.len() && r[i] == t;
                if i == 0 {
                    assert(s[0] == t);
                } else {
                    assert(rest[i - 1] == t);
                    assert(rest.contains(t));
                    if t != k {
                        let m = choose|m: int| 0 <= m < tail.len() && tail[m] == t;
                        assert(s[m + 1] == t);
                    }
                }
            }
            if s.contains(t) || t == k {
                if s.len() > 0 && s[0] == t {
                    assert(r[0] == t);
                } else {
                    if s.contains(t) {
                        let m = choose|m: int| 0 <= m < s.len() && s[m] == t;
                        assert(tail[m - 1] == t);
                    }
                    assert(rest.contains(t));
                    let m = choose|m: int| 0 <= m < rest.len() && rest[m] == t;
                    assert(r[m + 1] == t);
                }
            }
        }
    }
}

/// Sorting keeps exactly the texts of the list and puts them in order,
/// each once.
pub proof fn law_sorted_unique(s: Seq<Seq<char>>)
    ensures
        increasing(sorted_unique(s)),
        forall|t: Seq<char>| #[trigger] sorted_unique(s).contains(t) <==> s.contains(t),
    decreases s.len(),
{
    if s.len() > 0 {
        let init = s.drop_last();
        law_sorted_unique(init);
        lemma_with_text(sorted_unique(init), s.last());
        assert forall|t: Seq<char>| #[trigger] sorted_unique(s).contains(t) <==> s.contains(t) by {
            if s.contains(t) {
                let i = choose|i: int| 0 <= i < s.len() && s[i] == t;
                if i < s.len() - 1 {
                    assert(init[i] == t);
                    assert(init.contains(t));
                }
            }
            if init.contains(t) {
                let i = choose|i: int| 0 <= i < init.len() && init[i] == t;
                assert(s[i] == t);
            }
            assert(s[s.len() - 1] == s.last());
        }
    }
}

/// Puts a text at its place in an ordered list.
pub fn put_text(v: &mut Vec<String>, k: String)
    ensures
        text::texts(final(v)@) == with_text(text::texts(old(v)@), k@),
{
    let ghost s = text::texts(v@);
    let mut i: usize = 0;
    assert(s.skip(0) =~= s);
    while i < v.len()
        invariant
            i <= v@.len(),
            *v == *old(v),
            s == text::texts(v@),
            with_text(s, k@) =~= s.take(i as int) + with_text(s.skip(i as int), k@),
        decreases v@.len() - i,
    {
        let ghost rest = s.skip(i as int);
        assert(rest[0] == v@[i as int]@);
        if text_eq(v[i].as_str(), k.as_str()) {
            assert(s =~= s.take(i as int) + rest);
            return;
        }
        if text_before(k.as_str(), v[i].as_str()) {
            let ghost kv = k@;
            v.insert(i, k);
            assert(text::texts(v@) =~= s.take(i as int) + (seq![kv] + rest));
            return;
        }
        assert(rest.skip(1) =~= s.skip(i + 1));
        assert(s.take(i + 1) =~= s.take(i as int) + seq![s[i as int]]);
        i = i + 1;
    }
    assert(s.take(i as int) =~= s);
    v.push(k);
}

/// The texts of a list in order, each once.
pub fn sort_unique(v: &Vec<String>) -> (r: Vec<String>)
    ensures
        text::texts(r@) == sorted_unique(text::texts(v@)),
{
    let mut out: Vec<String> = Vec::new();
    let mut i: usize = 0;
    let ghost all = text::texts(v@);
    assert(text::texts(out@) =~= seq![]);
    while i < v.len()
        invariant
            i <= v@.len(),
            all == text::texts(v@),
            text::texts(out@) == sorted_unique(all.take(i as int)),
        decreases v@.len() - i,
    {
        assert(all.take(i + 1).drop_last() =~= all.take(i as int));
        put_text(&mut out, copy_text(v[i].as_str()));
        i = i + 1;
    }
    assert(all.take(all.len() as int) =~= all);
    out
}

/// A set of texts.
#[derive(Debug, PartialEq, Eq)]
pub struct TextSet {
    items: Vec<String>,
}

impl View for TextSet {
    type V = Seq<Seq<char>>;

    closed spec fn view(&self) -> Seq<Seq<char>> {
        text::texts(self.items@)
    }
}

impl TextSet {
    #[verifier::type_invariant]
    spec fn ordered(self) -> bool {
        increasing(text::texts(self.items@))
    }

    pub fn new() -> (r: TextSet)
        ensures
            r@ == Seq::<Seq<char>>::empty(),
    {
        let r: TextSet = TextSet { items: Vec::new() };
        assert(r@ =~= Seq::<Seq<char>>::empty());
        r
    }

    /// Adds a text, at its place.
    pub fn insert(&mut self, k: String)
        ensures
            final(self)@ == with_text(old(self)@, k@),
            increasing(final(self)@),
    {
        proof {
            use_type_invariant(&*self);
            lemma_with_text(text::texts(self.items@), k@);
        }
        let mut items: Vec<String> = Vec::new();
        std::mem::swap(&mut items, &mut self.items);
        put_text(&mut items, k);
        self.items = items;
    }

    pub fn contains(&self, k: &str) -> (r: bool)
        ensures
            r == self@.contains(k@),
    {
        text::list_contains(&self.items, k)
    }

    pub fn len(&self) -> (r: usize)
        ensures
            r == self@.len(),
    {
        self.items.len()
    }

    /// The `i`-th text in order.
    pub fn item(&self, i: usize) -> (r: &String)
        requires
            i < self@.len(),
        ensures
            r@ == self@[i as int],
    {
        &self.items[i]
    }
}

impl Clone for TextSet {
    fn clone(&self) -> (r: TextSet)
        ensures
            r@ == self@,
    {
        proof {
            use_type_invariant(self);
        }
        TextSet { items: text::copy_list(&self.items) }
    }
}

impl Default for TextSet {
    fn default() -> (r: TextSet)
        ensures
            r@ == Seq::<Seq<char>>::empty(),
    {
        TextSet::new()
    }
}

// ---------------------------------------------------------------------
// Maps
// ---------------------------------------------------------------------

/// The key and the value of each entry.
pub open spec fn entry_texts(v: Seq<(String, String)>) -> Seq<(Seq<char>, Seq<char>)> {
    Seq::new(v.len(), |i: int| (v[i].0@, v[i].1@))
}

/// The keys of entries.
pub open spec fn keys(m: Seq<(Seq<char>, Seq<char>)>) -> Seq<Seq<char>> {
    Seq::new(m.len(), |i: int| m[i].0)
}

/// The value of the first entry under `k`.
pub open spec fn lookup(m: Seq<(Seq<char>, Seq<char>)>, k: Seq<char>) -> Option<Seq<char>>
    decreases m.len(),
{
    if m.len() == 0 {
        None
    } else if m[0].0 == k {
        Some(m[0].1)
    } else {
        lookup(m.skip(1), k)
    }
}

/// `m` with `v` under `k`, at its place.
pub open spec fn with_entry(
    m: Seq<(Seq<char>, Seq<char>)>,
    k: Seq<char>,
    v: Seq<char>,
) -> Seq<(Seq<char>, Seq<char>)>
    decreases m.len(),
{
    if m.len() == 0 {
        seq![(k, v)]
    } else if m[0].0 == k {
        seq![(k, v)] + m.skip(1)
    } else if before(k, m[0].0) {
        seq![(k, v)] + m
    } else {
        seq![m[0]] + with_entry(m.skip(1), k, v)
    }
}

pub proof fn lemma_with_entry_keys(m: Seq<(Seq<char>, Seq<char>)>, k: Seq<char>, v: Seq<char>)
    ensures
        keys(with_entry(m, k, v)) == with_text(keys(m), k),
    decreases m.len(),
{
    let r = with_entry(m, k, v);
    if m.len() > 0 {
        lemma_with_entry_keys(m.skip(1), k, v);
        assert(keys(m)[0] == m[0].0);
        assert(keys(m.skip(1)) =~= keys(m).skip(1));
    }
    assert(keys(r) =~= with_text(keys(m), k));
}

/// A map gives back what was last put under a key and leaves every other
/// key alone.
pub proof fn law_lookup_with_entry(
    m: Seq<(Seq<char>, Seq<char>)>,
    k: Seq<char>,
    v: Seq<char>,
    other: Seq<char>,
)
    ensures
        lookup(with_entry(m, k, v), k) == Some(v),
        other != k ==> lookup(with_entry(m, k, v), other) == lookup(m, other),
    decreases m.len(),
{
    let r = with_entry(m, k, v);
    if m.len() == 0 {
        assert(r.skip(1) =~= m);
    } else if m[0].0 == k {
        assert(r.skip(1) =~= m.skip(1));
    } else if before(k, m[0].0) {
        assert(r.skip(1) =~= m);
    } else {
        law_lookup_with_entry(m.skip(1), k, v, other);
        assert(r.skip(1) =~= with_entry(m.skip(1), k, v));
    }
}

/// A map from text to text.
#[derive(Debug, PartialEq, Eq)]
pub struct TextMap {
    entries: Vec<(String, String)>,
}

impl View for TextMap {
    type V = Seq<(Seq<char>, Seq<char>)>;

    closed spec fn view(&self) -> Seq<(Seq<char>, Seq<char>)> {
        entry_texts(self.entries@)
    }
}

impl TextMap {
    #[verifier::type_invariant]
    spec fn ordered(self) -> bool {
        increasing(keys(entry_texts(self.entries@)))
    }

    pub fn new() -> (r: TextMap)
        ensures
            r@ == Seq::<(Seq<char>, Seq<char>)>::empty(),
    {
        let r: TextMap = TextMap { entries: Vec::new() };
        assert(r@ =~= Seq::<(Seq<char>, Seq<char>)>::empty());
        r
    }

    /// Puts `v` under `k`, in place of what was there.
    pub fn insert(&mut self, k: String, v: String)
        ensures
            final(self)@ == with_entry(old(self)@, k@, v@),
            increasing(keys(final(self)@)),
    {
        proof {
            use_type_invariant(&*self);
            lemma_with_text(keys(entry_texts(self.entries@)), k@);
            lemma_with_entry_keys(entry_texts(self.entries@), k@, v@);
        }
        let mut entries: Vec<(String, String)> = Vec::new();
        std::mem::swap(&mut entries, &mut self.entries);
        put_entry(&mut entries, k, v);
        self.entries = entries;
    }

    pub fn get(&self, k: &str) -> (r: Option<&String>)
        ensures
            match r {
                Some(v) => lookup(self@, k@) == Some(v@),
                None => lookup(self@, k@) is None,
            },
    {
        let mut i: usize = 0;
        assert(self@.skip(0) =~= self@);
        while i < self.entries.len()
            invariant
                i <= self.entries@.len(),
                self@ == entry_texts(self.entries@),
                lookup(self@, k@) == lookup(self@.skip(i as int), k@),
            decreases self.entries@.len() - i,
        {
            let ghost rest = self@.skip(i as int);
            assert(rest[0] == (self.entries@[i as int].0@, self.entries@[i as int].1@));
            assert(rest.skip(1) =~= self@.skip(i + 1));
            if text_eq(self.entries[i].0.as_str(), k) {
                return Some(&self.entries[i].1);
            }
            i = i + 1;
        }
        None
    }

    pub fn len(&self) -> (r: usize)
        ensures
            r == self@.len(),
    {
        self.entries.len()
    }

    /// The `i`-th entry in the order of the keys.
    pub fn entry(&self, i: usize) -> (r: (&String, &String))
        requires
            i < self@.len(),
        ensures
            r.0@ == self@[i as int].0,
            r.1@ == self@[i as int].1,
    {
        (&self.entries[i].0, &self.entries[i].1)
    }
}

/// Puts an entry at its place in an ordered list.
fn put_entry(m: &mut Vec<(String, String)>, k: String, v: String)
    ensures
        entry_texts(final(m)@) == with_entry(entry_texts(old(m)@), k@, v@),
{
    let ghost s = entry_texts(m@);
    let mut i: usize = 0;
    assert(s.skip(0) =~= s);
    while i < m.len()
        invariant
            i <= m@.len(),
            *m == *old(m),
            s == entry_texts(m@),
            with_entry(s, k@, v@) =~= s.take(i as int) + with_entry(s.skip(i as int), k@, v@),
        decreases m@.len() - i,
    {
        let ghost rest = s.skip(i as int);
        let ghost pair = (k@, v@);
        assert(rest[0] == (m@[i as int].0@, m@[i as int].1@));
        assert(rest.skip(1) =~= s.skip(i + 1));
        if text_eq(m[i].0.as_str(), k.as_str()) {
            m.set(i, (k, v));
            assert(entry_texts(m@) =~= s.take(i as int) + (seq![pair] + rest.skip(1)));
            return;
        }
        if text_before(k.as_str(), m[i].0.as_str()) {
            m.insert(i, (k, v));
            assert(entry_texts(m@) =~= s.take(i as int) + (seq![pair] + rest));
            return;
        }
        assert(s.take(i + 1) =~= s.take(i as int) + seq![s[i as int]]);
        i = i + 1;
    }
    let ghost pair = (k@, v@);
    m.push((k, v));
    assert(entry_texts(m@) =~= s + seq![pair]);
    assert(s.take(i as int) =~= s);
}

impl Clone for TextMap {
    fn clone(&self) -> (r: TextMap)
        ensures
            r@ == self@,
    {
        proof {
            use_type_invariant(self);
        }
        let mut entries: Vec<(String, String)> = Vec::new();
        let mut i: usize = 0;
        while i < self.entries.len()
            invariant
                i <= self.entries@.len(),
                entry_texts(entries@) =~= entry_texts(self.entries@).take(i as int),
            decreases self.entries@.len() - i,
        {
            let ghost done = entry_texts(entries@);
            let k: String = copy_text(self.entries[i].0.as_str());
            let v: String = copy_text(self.entries[i].1.as_str());
            entries.push((k, v));
            assert(entry_texts(entries@) =~= done.push(entry_texts(self.entries@)[i as int]));
            i = i + 1;
        }
        assert(entry_texts(entries@) =~= entry_texts(self.entries@));
        TextMap { entries }
    }
}

impl Default for TextMap {
    fn default() -> (r: TextMap)
        ensures
            r@ == Seq::<(Seq<char>, Seq<char>)>::empty(),
    {
        TextMap::new()
    }
}

} // verus!
