//! A map from names to values that keeps its names in order.
use vstd::prelude::*;

use crate::text;

verus! {

/// Whether `a` comes before `b` in the order of their characters.
pub open spec fn precedes(a: Seq<char>, b: Seq<char>) -> bool
    decreases a.len(),
{
    if b.len() == 0 {
        false
    } else if a.len() == 0 {
        true
    } else if a[0] == b[0] {
        precedes(a.skip(1), b.skip(1))
    } else {
        a[0] < b[0]
    }
}

/// A text does not come before itself.
proof fn lemma_irreflexive(a: Seq<char>)
    ensures
        !precedes(a, a),
    decreases a.len(),
{
    if a.len() > 0 {
        lemma_irreflexive(a.skip(1));
    }
}

/// What comes before a text comes before all that this one comes before.
proof fn lemma_transitive(a: Seq<char>, b: Seq<char>, c: Seq<char>)
    requires
        precedes(a, b),
        precedes(b, c),
    ensures
        precedes(a, c),
    decreases a.len(),
{
    if a.len() > 0 && a[0] == b[0] && b[0] == c[0] {
        lemma_transitive(a.skip(1), b.skip(1), c.skip(1));
    }
}

/// Of two different texts one comes before the other.
proof fn lemma_total(a: Seq<char>, b: Seq<char>)
    ensures
        precedes(a, b) || precedes(b, a) || a == b,
    decreases a.len(),
{
    if a.len() > 0 && b.len() > 0 && a[0] == b[0] {
        lemma_total(a.skip(1), b.skip(1));
        if a.skip(1) == b.skip(1) {
            assert(a =~= seq![a[0]] + a.skip(1));
            assert(b =~= seq![b[0]] + b.skip(1));
        }
    } else if a.len() == 0 && b.len() == 0 {
        assert(a =~= b);
    }
}

/// Whether `a` comes before `b`.
pub fn comes_before(a: &str, b: &str) -> (r: bool)
    ensures
        r == precedes(a@, b@),
{
    let x = text::chars_of(a);
    let y = text::chars_of(b);
    let mut i: usize = 0;
    assert(x@.skip(0) =~= a@);
    assert(y@.skip(0) =~= b@);
    while i < x.len() && i < y.len()
        invariant
            i <= x@.len(),
            i <= y@.len(),
            precedes(a@, b@) == precedes(x@.skip(i as int), y@.skip(i as int)),
        decreases x@.len() - i,
    {
        assert(x@.skip(i as int).skip(1) =~= x@.skip(i + 1));
        assert(y@.skip(i as int).skip(1) =~= y@.skip(i + 1));
        if x[i] != y[i] {
            return x[i] < y[i];
        }
        i += 1;
    }
    i < y.len()
}

/// Whether names stand in order, each once.
pub open spec fn ordered(names: Seq<Seq<char>>) -> bool {
    forall|i: int, j: int|
        0 <= i < j < names.len() ==> precedes(#[trigger] names[i], #[trigger] names[j])
}

/// Two lists of the same names in order are the same list.
proof fn lemma_ordered_unique(a: Seq<Seq<char>>, b: Seq<Seq<char>>)
    requires
        ordered(a),
        ordered(b),
        forall|name: Seq<char>| a.contains(name) <==> b.contains(name),
    ensures
        a == b,
    decreases a.len(),
{
    if a.len() == 0 {
        if b.len() > 0 {
            assert(b.contains(b[0]));
        }
        assert(a =~= b);
    } else {
        assert(a.contains(a[0]));
        assert(b.contains(a[0]));
        assert(b.contains(b[0]));
        assert(a.contains(b[0]));
        let i = choose|i: int| 0 <= i < a.len() && a[i] == b[0];
        let j = choose|j: int| 0 <= j < b.len() && b[j] == a[0];
        if i > 0 && j > 0 {
            assert(precedes(a[0], a[i]));
            assert(precedes(b[0], b[j]));
            lemma_transitive(a[0], b[0], a[0]);
            lemma_irreflexive(a[0]);
        }
        assert(a[0] == b[0]);
        let x = a.skip(1);
        let y = b.skip(1);
        assert forall|name: Seq<char>| x.contains(name) <==> y.contains(name) by {
            if x.contains(name) {
                let k = choose|k: int| 0 <= k < x.len() && x[k] == name;
                assert(a[k + 1] == name);
                assert(precedes(a[0], a[k + 1]));
                lemma_irreflexive(name);
                assert(a.contains(name));
                let m = choose|m: int| 0 <= m < b.len() && b[m] == name;
                assert(y[m - 1] == name);
            }
            if y.contains(name) {
                let k = choose|k: int| 0 <= k < y.len() && y[k] == name;
                assert(b[k + 1] == name);
                assert(precedes(b[0], b[k + 1]));
                lemma_irreflexive(name);
                assert(b.contains(name));
                let m = choose|m: int| 0 <= m < a.len() && a[m] == name;
                assert(x[m - 1] == name);
            }
        }
        assert(ordered(x)) by {
            assert forall|i: int, j: int| 0 <= i < j < x.len() implies precedes(
                #[trigger] x[i],
                #[trigger] x[j],
            ) by {
                assert(precedes(a[i + 1], a[j + 1]));
            }
        }
        assert(ordered(y)) by {
            assert forall|i: int, j: int| 0 <= i < j < y.len() implies precedes(
                #[trigger] y[i],
                #[trigger] y[j],
            ) by {
                assert(precedes(b[i + 1], b[j + 1]));
            }
        }
        lemma_ordered_unique(x, y);
        assert(a =~= seq![a[0]] + x);
        assert(b =~= seq![b[0]] + y);
    }
}

/// Whether `names` are the names in `dom`, in order.
pub open spec fn enumerates(names: Seq<Seq<char>>, dom: Set<Seq<char>>) -> bool {
    &&& ordered(names)
    &&& forall|name: Seq<char>| names.contains(name) <==> dom.contains(name)
}

/// The names in `dom`, in order.
pub open spec fn in_order(dom: Set<Seq<char>>) -> Seq<Seq<char>> {
    choose|names: Seq<Seq<char>>| enumerates(names, dom)
}

/// What the pairs of a name and a value map.
pub open spec fn table<V>(entries: Seq<(String, V)>) -> Map<Seq<char>, V>
    decreases entries.len(),
{
    if entries.len() == 0 {
        Map::empty()
    } else {
        table(entries.drop_last()).insert(entries.last().0@, entries.last().1)
    }
}

/// The names of the pairs.
pub open spec fn entry_names<V>(entries: Seq<(String, V)>) -> Seq<Seq<char>> {
    entries.map_values(|e: (String, V)| e.0@)
}

/// A map from names to values.
pub struct NameMap<V> {
    entries: Vec<(String, V)>,
}

impl<V> View for NameMap<V> {
    type V = Map<Seq<char>, V>;

    closed spec fn view(&self) -> Map<Seq<char>, V> {
        table(self.entries@)
    }
}

/// A table maps the names of its pairs, each to its value.
proof fn lemma_table<V>(entries: Seq<(String, V)>)
    requires
        ordered(entry_names(entries)),
    ensures
        forall|name: Seq<char>|
            table(entries).contains_key(name) <==> #[trigger] entry_names(entries).contains(name),
        forall|i: int|
            0 <= i < entries.len() ==> table(entries)[#[trigger] entry_names(entries)[i]]
                == entries[i].1,
    decreases entries.len(),
{
    let names = entry_names(entries);
    if entries.len() > 0 {
        let before = entries.drop_last();
        let before_names = entry_names(before);
        assert(before_names =~= names.drop_last());
        assert(ordered(before_names)) by {
            assert forall|i: int, j: int| 0 <= i < j < before_names.len() implies precedes(
                #[trigger] before_names[i],
                #[trigger] before_names[j],
            ) by {
                assert(precedes(names[i], names[j]));
            }
        }
        lemma_table(before);
        assert forall|name: Seq<char>|
            table(entries).contains_key(name) <==> #[trigger] names.contains(name) by {
            if names.contains(name) {
                let i = choose|i: int| 0 <= i < names.len() && names[i] == name;
                if i < before_names.len() {
                    assert(before_names[i] == name);
                    assert(before_names.contains(name));
                }
            }
            if table(entries).contains_key(name) {
                if name == entries.last().0@ {
                    assert(names[names.len() - 1] == name);
                } else {
                    assert(before_names.contains(name));
                    let i = choose|i: int| 0 <= i < before_names.len() && before_names[i] == name;
                    assert(names[i] == name);
                }
            }
        }
        assert forall|i: int| 0 <= i < entries.len() implies table(entries)[#[trigger] names[i]]
            == entries[i].1 by {
            if i < before.len() {
                assert(before_names[i] == names[i]);
                assert(precedes(names[i], names[entries.len() - 1]));
                lemma_irreflexive(names[i]);
            }
        }
    }
}

impl<V> NameMap<V> {
    /// Names stand in order, each once.
    #[verifier::type_invariant]
    spec fn in_name_order(self) -> bool {
        ordered(entry_names(self.entries@))
    }

    /// A map without names.
    pub fn new() -> (r: Self)
        ensures
            r@ == Map::<Seq<char>, V>::empty(),
    {
        NameMap { entries: Vec::new() }
    }

    /// Whether there is no name.
    pub fn is_empty(&self) -> (r: bool)
        ensures
            r == (self@ == Map::<Seq<char>, V>::empty()),
    {
        proof {
            use_type_invariant(self);
            lemma_table(self.entries@);
            if self.entries@.len() > 0 {
                assert(entry_names(self.entries@).contains(entry_names(self.entries@)[0]));
                assert(self@.contains_key(entry_names(self.entries@)[0]));
            }
        }
        self.entries.len() == 0
    }

    /// The position of a name, or of the first name behind it.
    fn position(&self, name: &str) -> (k: usize)
        ensures
            k <= self.entries@.len(),
            forall|i: int| 0 <= i < k ==> precedes(#[trigger] entry_names(self.entries@)[i], name@),
            k < self.entries@.len() ==> entry_names(self.entries@)[k as int] == name@ || precedes(
                name@,
                entry_names(self.entries@)[k as int],
            ),
            entry_names(self.entries@).contains(name@) ==> k < self.entries@.len() && entry_names(
                self.entries@,
            )[k as int] == name@,
    {
        proof {
            use_type_invariant(self);
        }
        let ghost names = entry_names(self.entries@);
        let mut k: usize = 0;
        while k < self.entries.len() && comes_before(self.entries[k].0.as_str(), name)
            invariant
                k <= self.entries@.len(),
                names == entry_names(self.entries@),
                forall|i: int| 0 <= i < k ==> precedes(#[trigger] names[i], name@),
            decreases self.entries@.len() - k,
        {
            assert(names[k as int] == self.entries@[k as int].0@);
            k += 1;
        }
        proof {
            if k < self.entries@.len() {
                assert(names[k as int] == self.entries@[k as int].0@);
                lemma_total(names[k as int], name@);
            }
            if names.contains(name@) {
                let i = choose|i: int| 0 <= i < names.len() && names[i] == name@;
                lemma_irreflexive(name@);
                if i > k {
                    assert(precedes(names[k as int], names[i]));
                    if precedes(name@, names[k as int]) {
                        lemma_transitive(name@, names[k as int], name@);
                    }
                }
            }
        }
        k
    }

    /// The value of a name.
    pub fn get(&self, name: &str) -> (r: Option<&V>)
        ensures
            match r {
                Some(v) => self@.contains_key(name@) && self@[name@] == *v,
                None => !self@.contains_key(name@),
            },
    {
        let k = self.position(name);
        proof {
            use_type_invariant(self);
            lemma_table(self.entries@);
        }
        if k < self.entries.len() && text::same(self.entries[k].0.as_str(), name) {
            assert(entry_names(self.entries@)[k as int] == name@);
            assert(entry_names(self.entries@).contains(name@));
            Some(&self.entries[k].1)
        } else {
            assert(!entry_names(self.entries@).contains(name@)) by {
                if entry_names(self.entries@).contains(name@) {
                    assert(entry_names(self.entries@)[k as int] == self.entries@[k as int].0@);
                }
            }
            None
        }
    }

    /// Whether a name has a value.
    pub fn contains_key(&self, name: &str) -> (r: bool)
        ensures
            r == self@.contains_key(name@),
    {
        self.get(name).is_some()
    }

    /// How many names there are. They can be put in order, each once.
    pub fn len(&self) -> (r: usize)
        ensures
            r == in_order(self@.dom()).len(),
            enumerates(in_order(self@.dom()), self@.dom()),
    {
        proof {
            use_type_invariant(self);
            lemma_in_order(self.entries@);
        }
        self.entries.len()
    }

    /// The name at a place in the order, with its value.
    pub fn at(&self, i: usize) -> (r: (&String, &V))
        requires
            i < in_order(self@.dom()).len(),
        ensures
            r.0@ == in_order(self@.dom())[i as int],
            self@.contains_key(r.0@),
            *r.1 == self@[r.0@],
    {
        proof {
            use_type_invariant(self);
            lemma_in_order(self.entries@);
            lemma_table(self.entries@);
            let names = entry_names(self.entries@);
            assert(names[i as int] == self.entries@[i as int].0@);
            assert(names.contains(names[i as int]));
        }
        let entry = &self.entries[i];
        (&entry.0, &entry.1)
    }

    /// Gives a name a value, in place of the one it had, if it had one.
    pub fn insert(&mut self, name: String, value: V)
        ensures
            final(self)@ == old(self)@.insert(name@, value),
    {
        let k = self.position(name.as_str());
        proof {
            use_type_invariant(&*self);
        }
        let ghost was = self.entries@;
        let ghost names = entry_names(was);
        let ghost new_name = name@;
        let mut entries: Vec<(String, V)> = Vec::new();
        std::mem::swap(&mut entries, &mut self.entries);
        let known = k < entries.len() && text::same(entries[k].0.as_str(), name.as_str());
        if known {
            assert(names[k as int] == was[k as int].0@);
            entries.set(k, (name, value));
            assert(entry_names(entries@) =~= names);
        } else {
            entries.insert(k, (name, value));
            proof {
                let after = entry_names(entries@);
                assert(after =~= names.insert(k as int, new_name));
                if k < was.len() {
                    assert(names[k as int] == was[k as int].0@);
                }
                assert forall|i: int, j: int| 0 <= i < j < after.len() implies precedes(
                    #[trigger] after[i],
                    #[trigger] after[j],
                ) by {
                    let a = if i < k {
                        i
                    } else {
                        i - 1
                    };
                    let b = if j < k {
                        j
                    } else {
                        j - 1
                    };
                    if i != k && j != k {
                        assert(precedes(names[a], names[b]));
                    } else if i == k {
                        if b > k {
                            assert(precedes(names[k as int], names[b]));
                            lemma_transitive(new_name, names[k as int], names[b]);
                        }
                    } else {
                        assert(precedes(names[i], new_name));
                    }
                }
            }
        }
        proof {
            lemma_inserted(was, entries@, k as int, known, new_name, value);
        }
        self.entries = entries;
    }

    /// Takes a name out, and says whether it was there.
    pub fn remove(&mut self, name: &str) -> (r: bool)
        ensures
            r == old(self)@.contains_key(name@),
            final(self)@ == old(self)@.remove(name@),
    {
        let k = self.position(name);
        proof {
            use_type_invariant(&*self);
            lemma_table(self.entries@);
        }
        let ghost was = self.entries@;
        let ghost names = entry_names(was);
        let known = k < self.entries.len() && text::same(self.entries[k].0.as_str(), name);
        if !known {
            proof {
                if names.contains(name@) {
                    assert(names[k as int] == was[k as int].0@);
                }
                assert(!self@.contains_key(name@));
                assert(self@.remove(name@) =~= self@);
            }
            return false;
        }
        let mut entries: Vec<(String, V)> = Vec::new();
        std::mem::swap(&mut entries, &mut self.entries);
        entries.remove(k);
        proof {
            assert(names[k as int] == was[k as int].0@);
            assert(names.contains(name@));
            let after = entry_names(entries@);
            assert(after =~= names.remove(k as int));
            assert forall|i: int, j: int| 0 <= i < j < after.len() implies precedes(
                #[trigger] after[i],
                #[trigger] after[j],
            ) by {
                let a = if i < k {
                    i
                } else {
                    i + 1
                };
                let b = if j < k {
                    j
                } else {
                    j + 1
                };
                assert(precedes(names[a], names[b]));
            }
            lemma_removed(was, entries@, k as int);
        }
        self.entries = entries;
        true
    }
}

/// The names of a table, in order, are those of its pairs.
proof fn lemma_in_order<V>(entries: Seq<(String, V)>)
    requires
        ordered(entry_names(entries)),
    ensures
        in_order(table(entries).dom()) == entry_names(entries),
        enumerates(in_order(table(entries).dom()), table(entries).dom()),
{
    lemma_table(entries);
    let names = entry_names(entries);
    let dom = table(entries).dom();
    assert forall|name: Seq<char>| names.contains(name) <==> dom.contains(name) by {
        assert(table(entries).contains_key(name) <==> names.contains(name));
    }
    assert(enumerates(names, dom));
    lemma_ordered_unique(in_order(dom), names);
}

/// A pair put in its place maps its name to its value and changes nothing else.
proof fn lemma_inserted<V>(
    was: Seq<(String, V)>,
    now: Seq<(String, V)>,
    k: int,
    known: bool,
    name: Seq<char>,
    value: V,
)
    requires
        ordered(entry_names(was)),
        ordered(entry_names(now)),
        0 <= k < now.len(),
        now[k].0@ == name,
        now[k].1 == value,
        known ==> k < was.len() && was[k].0@ == name && now == was.update(k, now[k]),
        !known ==> k <= was.len() && now == was.insert(k, now[k]),
    ensures
        table(now) == table(was).insert(name, value),
{
    lemma_table(was);
    lemma_table(now);
    let a = entry_names(was);
    let b = entry_names(now);
    assert(b[k] == name);
    assert forall|x: Seq<char>| #[trigger]
        table(now).contains_key(x) <==> table(was).insert(name, value).contains_key(x) by {
        assert(table(now).contains_key(x) <==> b.contains(x));
        assert(table(was).contains_key(x) <==> a.contains(x));
        if x != name && a.contains(x) {
            let i = choose|i: int| 0 <= i < a.len() && a[i] == x;
            let j = if known || i < k {
                i
            } else {
                i + 1
            };
            assert(b[j] == x);
        }
        if x != name && b.contains(x) {
            let j = choose|j: int| 0 <= j < b.len() && b[j] == x;
            let i = if known || j < k {
                j
            } else {
                j - 1
            };
            assert(a[i] == x);
        }
        assert(b.contains(name));
    }
    assert forall|x: Seq<char>| #[trigger] table(now).contains_key(x) implies table(now)[x] == table(
        was,
    ).insert(name, value)[x] by {
        assert(b.contains(x));
        let j = choose|j: int| 0 <= j < b.len() && b[j] == x;
        assert(table(now)[b[j]] == now[j].1);
        if x == name {
            assert(table(now)[b[k]] == now[k].1);
        } else {
            let i = if known || j < k {
                j
            } else {
                j - 1
            };
            assert(a[i] == x);
            assert(table(was)[a[i]] == was[i].1);
        }
    }
    assert(table(now) =~= table(was).insert(name, value));
}

/// A pair taken out takes its name out and changes nothing else.
proof fn lemma_removed<V>(was: Seq<(String, V)>, now: Seq<(String, V)>, k: int)
    requires
        ordered(entry_names(was)),
        ordered(entry_names(now)),
        0 <= k < was.len(),
        now == was.remove(k),
    ensures
        table(now) == table(was).remove(was[k].0@),
{
    lemma_table(was);
    lemma_table(now);
    let a = entry_names(was);
    let b = entry_names(now);
    let name = was[k].0@;
    assert(a[k] == name);
    assert forall|x: Seq<char>| #[trigger]
        table(now).contains_key(x) <==> table(was).remove(name).contains_key(x) by {
        assert(table(now).contains_key(x) <==> b.contains(x));
        assert(table(was).contains_key(x) <==> a.contains(x));
        if x != name && a.contains(x) {
            let i = choose|i: int| 0 <= i < a.len() && a[i] == x;
            let j = if i < k {
                i
            } else {
                i - 1
            };
            assert(b[j] == x);
        }
        if b.contains(x) {
            let j = choose|j: int| 0 <= j < b.len() && b[j] == x;
            let i = if j < k {
                j
            } else {
                j + 1
            };
            assert(a[i] == x);
            if i < k {
                assert(precedes(a[i], a[k]));
            } else {
                assert(precedes(a[k], a[i]));
            }
            lemma_irreflexive(x);
        }
    }
    assert forall|x: Seq<char>| #[trigger] table(now).contains_key(x) implies table(now)[x] == table(
        was,
    ).remove(name)[x] by {
        assert(b.contains(x));
        let j = choose|j: int| 0 <= j < b.len() && b[j] == x;
        assert(table(now)[b[j]] == now[j].1);
        let i = if j < k {
            j
        } else {
            j + 1
        };
        assert(a[i] == x);
        assert(table(was)[a[i]] == was[i].1);
    }
    assert(table(now) =~= table(was).remove(name));
}

/// A name comes before another exactly if, at the first place where they differ,
/// it has the lower character, or ends there.
pub proof fn law_names_are_ordered_by_character(a: Seq<char>, b: Seq<char>)
    ensures
        precedes(a, b) <==> exists|k: int|
            0 <= k <= a.len() && k < b.len() && (k == a.len() || a[k] < b[k]) && #[trigger] a.take(k)
                == b.take(k),
    decreases a.len(),
{
    if b.len() > 0 && a.len() > 0 && a[0] == b[0] {
        let x = a.skip(1);
        let y = b.skip(1);
        law_names_are_ordered_by_character(x, y);
        if precedes(x, y) {
            let k = choose|k: int|
                0 <= k <= x.len() && k < y.len() && (k == x.len() || x[k] < y[k]) && #[trigger] x.take(
                    k,
                ) == y.take(k);
            assert(a.take(k + 1) =~= seq![a[0]] + x.take(k));
            assert(b.take(k + 1) =~= seq![b[0]] + y.take(k));
            assert(a.take(k + 1) == b.take(k + 1));
        }
        if exists|k: int|
            0 <= k <= a.len() && k < b.len() && (k == a.len() || a[k] < b[k]) && #[trigger] a.take(k)
                == b.take(k) {
            let k = choose|k: int|
                0 <= k <= a.len() && k < b.len() && (k == a.len() || a[k] < b[k]) && #[trigger] a.take(
                    k,
                ) == b.take(k);
            assert(x.take(k - 1) =~= a.take(k).skip(1));
            assert(y.take(k - 1) =~= b.take(k).skip(1));
            assert(x.take(k - 1) == y.take(k - 1));
        }
    } else if b.len() > 0 {
        assert(a.take(0) =~= b.take(0));
        if exists|k: int|
            0 <= k <= a.len() && k < b.len() && (k == a.len() || a[k] < b[k]) && #[trigger] a.take(k)
                == b.take(k) {
            let k = choose|k: int|
                0 <= k <= a.len() && k < b.len() && (k == a.len() || a[k] < b[k]) && #[trigger] a.take(
                    k,
                ) == b.take(k);
            if k > 0 {
                assert(a.take(k)[0] == b.take(k)[0]);
            }
        }
    }
}

/// Names in order are each there once, before all that come after them, and they
/// are all the names and no others; there is only one such list.
pub proof fn law_names_in_order(names: Seq<Seq<char>>, dom: Set<Seq<char>>)
    requires
        enumerates(names, dom),
    ensures
        in_order(dom) == names,
        forall|i: int, j: int|
            0 <= i < j < names.len() ==> precedes(#[trigger] names[i], #[trigger] names[j])
                && names[i] != names[j],
        forall|name: Seq<char>| #[trigger] names.contains(name) <==> dom.contains(name),
{
    lemma_ordered_unique(names, in_order(dom));
    assert forall|i: int, j: int| 0 <= i < j < names.len() implies precedes(
        #[trigger] names[i],
        #[trigger] names[j],
    ) && names[i] != names[j] by {
        lemma_irreflexive(names[i]);
    }
}

}
