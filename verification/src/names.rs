//! Sets of names, kept in ascending order.

use crate::text::{chars_of, views};
use vstd::prelude::*;

verus! {

/// Lexicographic order by code point, which is also the byte order of the
/// UTF-8 encodings.
pub open spec fn text_less(a: Seq<char>, b: Seq<char>) -> bool
    decreases a.len(),
{
    if b.len() == 0 {
        false
    } else if a.len() == 0 {
        true
    } else if a[0] == b[0] {
        text_less(a.drop_first(), b.drop_first())
    } else {
        (a[0] as u32) < (b[0] as u32)
    }
}

/// Every text is smaller than all that follow it.
pub open spec fn ascending(list: Seq<Seq<char>>) -> bool {
    forall|i: int, j: int| 0 <= i < j < list.len() ==> #[trigger] text_less(list[i], list[j])
}

pub proof fn lemma_less_irreflexive(a: Seq<char>)
    ensures
        !text_less(a, a),
    decreases a.len(),
{
    if a.len() > 0 {
        lemma_less_irreflexive(a.drop_first());
    }
}

pub proof fn lemma_less_transitive(a: Seq<char>, b: Seq<char>, c: Seq<char>)
    requires
        text_less(a, b),
        text_less(b, c),
    ensures
        text_less(a, c),
    decreases a.len(),
{
    if a.len() > 0 && b.len() > 0 && c.len() > 0 && a[0] == b[0] && b[0] == c[0] {
        lemma_less_transitive(a.drop_first(), b.drop_first(), c.drop_first());
    }
}

proof fn lemma_code_determines(a: char, b: char)
    ensures
        (a as u32) == (b as u32) ==> a == b,
{
    assert((a as u32) as char == a);
    assert((b as u32) as char == b);
}

pub proof fn lemma_less_total(a: Seq<char>, b: Seq<char>)
    ensures
        a == b || text_less(a, b) || text_less(b, a),
    decreases a.len(),
{
    if a.len() == 0 || b.len() == 0 {
        if a.len() == 0 && b.len() == 0 {
            assert(a =~= b);
        }
    } else if a[0] == b[0] {
        lemma_less_total(a.drop_first(), b.drop_first());
        if a.drop_first() == b.drop_first() {
            assert(a =~= seq![a[0]] + a.drop_first());
            assert(b =~= seq![b[0]] + b.drop_first());
        }
    } else {
        lemma_code_determines(a[0], b[0]);
    }
}

/// Two ascending lists with the same members are the same list.
pub proof fn ascending_list_is_determined(a: Seq<Seq<char>>, b: Seq<Seq<char>>)
    requires
        ascending(a),
        ascending(b),
        forall|name: Seq<char>| a.contains(name) <==> b.contains(name),
    ensures
        a == b,
    decreases a.len(),
{
    if a.len() == 0 {
        if b.len() > 0 {
            assert(b.contains(b[0]));
        }
        assert(a =~= b);
    } else if b.len() == 0 {
        assert(a.contains(a[0]));
    } else {
        let x = a.last();
        let y = b.last();
        assert(a.contains(x) && b.contains(y));
        let i = choose|i: int| 0 <= i < b.len() && b[i] == x;
        let j = choose|j: int| 0 <= j < a.len() && a[j] == y;
        assert(x == y) by {
            if x != y {
                assert(text_less(b[i], b[b.len() - 1]));
                assert(text_less(a[j], a[a.len() - 1]));
                lemma_less_transitive(x, y, x);
                lemma_less_irreflexive(x);
            }
        }
        let a1 = a.drop_last();
        let b1 = b.drop_last();
        assert forall|name: Seq<char>| a1.contains(name) <==> b1.contains(name) by {
            lemma_less_irreflexive(x);
            if a1.contains(name) {
                let k = choose|k: int| 0 <= k < a1.len() && a1[k] == name;
                assert(text_less(a[k], a[a.len() - 1]));
                assert(a[k] == name);
                assert(a.contains(name));
                let m = choose|m: int| 0 <= m < b.len() && b[m] == name;
                assert(b1[m] == name);
            }
            if b1.contains(name) {
                let k = choose|k: int| 0 <= k < b1.len() && b1[k] == name;
                assert(text_less(b[k], b[b.len() - 1]));
                assert(b[k] == name);
                assert(b.contains(name));
                let m = choose|m: int| 0 <= m < a.len() && a[m] == name;
                assert(a1[m] == name);
            }
        }
        assert forall|p: int, q: int| 0 <= p < q < a1.len() implies #[trigger] text_less(
            a1[p],
            a1[q],
        ) by {
            assert(text_less(a[p], a[q]));
        }
        assert forall|p: int, q: int| 0 <= p < q < b1.len() implies #[trigger] text_less(
            b1[p],
            b1[q],
        ) by {
            assert(text_less(b[p], b[q]));
        }
        ascending_list_is_determined(a1, b1);
        assert(a =~= a1.push(x));
        assert(b =~= b1.push(y));
    }
}

/// Whether `a` stands before `b`.
pub fn precedes(a: &str, b: &str) -> (less: bool)
    ensures
        less == text_less(a@, b@),
{
    let left = chars_of(a);
    let right = chars_of(b);
    let ghost s = left@;
    let ghost t = right@;
    let mut i: usize = 0;
    proof {
        assert(s.skip(0) =~= s);
        assert(t.skip(0) =~= t);
    }
    while i < left.len() && i < right.len() && left[i] == right[i]
        invariant
            left@ == s,
            right@ == t,
            s == a@,
            t == b@,
            i <= left.len(),
            i <= right.len(),
            text_less(s, t) == text_less(s.skip(i as int), t.skip(i as int)),
        decreases left.len() - i,
    {
        proof {
            assert(s.skip(i as int).drop_first() =~= s.skip(i as int + 1));
            assert(t.skip(i as int).drop_first() =~= t.skip(i as int + 1));
        }
        i += 1;
    }
    if i >= right.len() {
        false
    } else if i >= left.len() {
        true
    } else {
        (left[i] as u32) < (right[i] as u32)
    }
}

/// A set of names; its view lists them in ascending order.
#[derive(Debug, PartialEq, Eq)]
pub struct NameSet {
    names: Vec<String>,
}

impl View for NameSet {
    type V = Seq<Seq<char>>;

    closed spec fn view(&self) -> Seq<Seq<char>> {
        views(self.names@)
    }
}

impl NameSet {
    #[verifier::type_invariant]
    spec fn is_ordered(self) -> bool {
        ascending(views(self.names@))
    }

    /// The empty set.
    pub fn new() -> (set: NameSet)
        ensures
            set@ == Seq::<Seq<char>>::empty(),
    {
        let set = NameSet { names: Vec::new() };
        proof {
            assert(set@ =~= Seq::<Seq<char>>::empty());
        }
        set
    }

    /// The names in ascending order.
    pub fn as_list(&self) -> (list: &Vec<String>)
        ensures
            views(list@) == self@,
            ascending(self@),
    {
        proof {
            use_type_invariant(self);
        }
        &self.names
    }

    pub fn len(&self) -> (count: usize)
        ensures
            count == self@.len(),
    {
        self.names.len()
    }

    pub fn is_empty(&self) -> (empty: bool)
        ensures
            empty == (self@.len() == 0),
    {
        self.names.len() == 0
    }

    /// Whether `name` is in the set.
    pub fn contains(&self, name: &str) -> (found: bool)
        ensures
            found == self@.contains(name@),
    {
        let mut i: usize = 0;
        while i < self.names.len()
            invariant
                i <= self.names.len(),
                forall|k: int| 0 <= k < i ==> self@[k] != name@,
            decreases self.names.len() - i,
        {
            if *self.names[i].as_str() == *name {
                proof {
                    assert(self@[i as int] == name@);
                }
                return true;
            }
            proof {
                assert(self@[i as int] == self.names@[i as int]@);
            }
            i += 1;
        }
        false
    }

    /// Adds a name. Adding one that is present changes nothing.
    pub fn insert(&mut self, name: &str)
        ensures
            forall|other: Seq<char>|
                final(self)@.contains(other) <==> old(self)@.contains(other) || other == name@,
            ascending(final(self)@),
    {
        proof {
            use_type_invariant(&*self);
        }
        let ghost before = self@;
        let mut i: usize = 0;
        while i < self.names.len() && precedes(self.names[i].as_str(), name)
            invariant
                self@ == before,
                i <= self.names.len(),
                ascending(before),
                forall|k: int| 0 <= k < i ==> text_less(before[k], name@),
            decreases self.names.len() - i,
        {
            proof {
                assert(before[i as int] == self.names@[i as int]@);
            }
            i += 1;
        }
        if i < self.names.len() && *self.names[i].as_str() == *name {
            proof {
                assert(before[i as int] == name@);
                assert(before.contains(name@));
            }
            return;
        }
        let mut grown: Vec<String> = Vec::new();
        let mut k: usize = 0;
        while k < self.names.len()
            invariant
                self@ == before,
                k <= self.names.len(),
                views(grown@) == before.take(k as int),
            decreases self.names.len() - k,
        {
            let copy = self.names[k].clone();
            proof {
                assert(copy@ == before[k as int]);
                assert(views(grown@.push(copy)) =~= views(grown@).push(copy@));
                assert(before.take(k as int + 1) =~= before.take(k as int).push(before[k as int]));
            }
            grown.push(copy);
            k += 1;
        }
        grown.insert(i, name.to_owned());
        proof {
            let after = before.insert(i as int, name@);
            assert(before.take(k as int) =~= before);
            assert(views(grown@) =~= after);
            assert forall|p: int, q: int| 0 <= p < q < after.len() implies #[trigger] text_less(
                after[p],
                after[q],
            ) by {
                if i < before.len() {
                    lemma_less_total(before[i as int], name@);
                    assert(before[i as int] == self.names@[i as int]@);
                    assert(text_less(name@, before[i as int]));
                }
                let p0 = if p < i { p } else { p - 1 };
                let q0 = if q < i { q } else { q - 1 };
                if p != i && q != i {
                    assert(text_less(before[p0], before[q0]));
                } else if p == i {
                    if q0 > i {
                        assert(text_less(before[i as int], before[q0]));
                        lemma_less_transitive(name@, before[i as int], before[q0]);
                    }
                }
            }
            assert forall|other: Seq<char>|
                after.contains(other) <==> before.contains(other) || other == name@ by {
                if before.contains(other) {
                    let m = choose|m: int| 0 <= m < before.len() && before[m] == other;
                    if m < i {
                        assert(after[m] == other);
                    } else {
                        assert(after[m + 1] == other);
                    }
                }
                if other == name@ {
                    assert(after[i as int] == other);
                }
                if after.contains(other) {
                    let m = choose|m: int| 0 <= m < after.len() && after[m] == other;
                    if m < i {
                        assert(before[m] == other);
                    } else if m > i {
                        assert(before[m - 1] == other);
                    }
                }
            }
        }
        *self = NameSet { names: grown };
    }

    /// The set of the names of a list.
    pub fn from_names(list: &Vec<String>) -> (set: NameSet)
        ensures
            forall|name: Seq<char>| set@.contains(name) <==> views(list@).contains(name),
            ascending(set@),
    {
        let mut set = NameSet::new();
        let ghost all = views(list@);
        let mut i: usize = 0;
        while i < list.len()
            invariant
                i <= list.len(),
                all == views(list@),
                ascending(set@),
                forall|name: Seq<char>| set@.contains(name) <==> all.take(i as int).contains(name),
            decreases list.len() - i,
        {
            set.insert(list[i].as_str());
            proof {
                let next = all.take(i as int + 1);
                assert(next =~= all.take(i as int).push(all[i as int]));
                assert forall|name: Seq<char>|
                    next.contains(name) <==> all.take(i as int).contains(name) || name
                        == all[i as int] by {
                    if all.take(i as int).contains(name) {
                        let m = choose|m: int|
                            0 <= m < all.take(i as int).len() && all.take(i as int)[m] == name;
                        assert(next[m] == name);
                    }
                    assert(next[i as int] == all[i as int]);
                }
            }
            i += 1;
        }
        proof {
            assert(all.take(i as int) =~= all);
        }
        set
    }

    /// The names that are in both sets.
    pub fn intersection(&self, other: &NameSet) -> (set: NameSet)
        ensures
            forall|name: Seq<char>|
                set@.contains(name) <==> self@.contains(name) && other@.contains(name),
            ascending(set@),
    {
        let mut set = NameSet::new();
        let ghost all = self@;
        let mut i: usize = 0;
        while i < self.names.len()
            invariant
                i <= self.names.len(),
                all == self@,
                ascending(set@),
                forall|name: Seq<char>|
                    set@.contains(name) <==> all.take(i as int).contains(name) && other@.contains(
                        name,
                    ),
            decreases self.names.len() - i,
        {
            let ghost item = all[i as int];
            if other.contains(self.names[i].as_str()) {
                set.insert(self.names[i].as_str());
            }
            proof {
                let seen = all.take(i as int);
                let next = all.take(i as int + 1);
                assert(next =~= seen.push(item));
                assert forall|name: Seq<char>|
                    next.contains(name) <==> seen.contains(name) || name == item by {
                    if seen.contains(name) {
                        let m = choose|m: int| 0 <= m < seen.len() && seen[m] == name;
                        assert(next[m] == name);
                    }
                    assert(next[i as int] == item);
                }
            }
            i += 1;
        }
        proof {
            assert(all.take(i as int) =~= all);
        }
        set
    }
}

impl Clone for NameSet {
    fn clone(&self) -> (set: NameSet)
        ensures
            set@ == self@,
            ascending(set@),
    {
        proof {
            use_type_invariant(self);
        }
        let set = NameSet::from_names(&self.names);
        proof {
            ascending_list_is_determined(set@, self@);
        }
        set
    }
}

} // verus!
