//! The order of names, and sets of names kept in that order.

use vstd::prelude::*;
use vstd::slice::slice_to_vec;

verus! {

/// `k` is the first place at which `a` and `b` differ.
pub open spec fn first_difference(a: Seq<u8>, b: Seq<u8>, k: int) -> bool {
    &&& 0 <= k < a.len()
    &&& k < b.len()
    &&& a[k] != b[k]
    &&& forall|j: int| 0 <= j < k ==> a[j] == b[j]
}

/// `a` comes before `b` byte by byte: at the first place where they differ,
/// `a` holds the smaller byte.
pub open spec fn lex_lt(a: Seq<u8>, b: Seq<u8>) -> bool {
    exists|k: int| first_difference(a, b, k) && a[k] < b[k]
}

/// The order of names: a shorter name comes before a longer one, and names
/// of one length are ordered byte by byte.
pub open spec fn name_lt(a: Seq<u8>, b: Seq<u8>) -> bool {
    a.len() < b.len() || (a.len() == b.len() && lex_lt(a, b))
}

/// Each name comes before every later one, so none occurs twice.
pub open spec fn strictly_sorted(names: Seq<Seq<u8>>) -> bool {
    forall|i: int, j: int|
        0 <= i < j < names.len() ==> name_lt(#[trigger] names[i], #[trigger] names[j])
}

/// The order of names is transitive.
pub proof fn lemma_name_lt_transitive(a: Seq<u8>, b: Seq<u8>, c: Seq<u8>)
    requires
        name_lt(a, b),
        name_lt(b, c),
    ensures
        name_lt(a, c),
{
    if a.len() == b.len() && b.len() == c.len() {
        let k1 = choose|k: int| first_difference(a, b, k) && a[k] < b[k];
        let k2 = choose|k: int| first_difference(b, c, k) && b[k] < c[k];
        let k = if k1 <= k2 {
            k1
        } else {
            k2
        };
        assert(first_difference(a, c, k) && a[k] < c[k]);
    }
}

/// How one name stands to another in the order of names.
#[derive(Debug, Clone, Copy, PartialEq, Eq, Structural)]
pub enum NameOrder {
    Before,
    Same,
    After,
}

/// Tells how `a` stands to `b` in the order of names.
pub fn compare_names(a: &[u8], b: &[u8]) -> (r: NameOrder)
    ensures
        match r {
            NameOrder::Before => name_lt(a@, b@),
            NameOrder::Same => a@ == b@,
            NameOrder::After => name_lt(b@, a@),
        },
{
    if a.len() < b.len() {
        return NameOrder::Before;
    }
    if a.len() > b.len() {
        return NameOrder::After;
    }
    let mut i: usize = 0;
    while i < a.len()
        invariant
            a@.len() == b@.len(),
            i <= a@.len(),
            forall|j: int| 0 <= j < i ==> a@[j] == b@[j],
        decreases a@.len() - i,
    {
        if a[i] < b[i] {
            assert(first_difference(a@, b@, i as int));
            return NameOrder::Before;
        }
        if a[i] > b[i] {
            assert(first_difference(b@, a@, i as int));
            return NameOrder::After;
        }
        i = i + 1;
    }
    assert(a@ =~= b@);
    NameOrder::Same
}

/// The names that a vector of byte strings holds.
pub open spec fn names_view(names: Seq<Vec<u8>>) -> Seq<Seq<u8>> {
    Seq::new(names.len(), |i: int| names[i]@)
}

/// Putting `x` at place `i` of a sorted sequence, between the names that come
/// before it and those that come after it, gives a sorted sequence that holds
/// `x` besides the names it held.
pub proof fn lemma_insert_sorted(names: Seq<Seq<u8>>, i: int, x: Seq<u8>)
    requires
        strictly_sorted(names),
        0 <= i <= names.len(),
        forall|j: int| 0 <= j < i ==> name_lt(#[trigger] names[j], x),
        forall|j: int| i <= j < names.len() ==> name_lt(x, #[trigger] names[j]),
    ensures
        strictly_sorted(names.insert(i, x)),
        names.insert(i, x).to_set() == names.to_set().insert(x),
{
    let out = names.insert(i, x);
    assert forall|y: Seq<u8>| out.to_set().contains(y) <==> names.to_set().insert(x).contains(
        y,
    ) by {
        if out.contains(y) {
            let k = choose|k: int| 0 <= k < out.len() && out[k] == y;
            if k < i {
                assert(names[k] == y);
            } else if k > i {
                assert(names[k - 1] == y);
            }
        }
        if names.contains(y) {
            let k = choose|k: int| 0 <= k < names.len() && names[k] == y;
            if k < i {
                assert(out[k] == y);
            } else {
                assert(out[k + 1] == y);
            }
        }
        if y == x {
            assert(out[i] == y);
        }
    }
    assert(out.to_set() =~= names.to_set().insert(x));
}

/// Taking the name at place `i` out of a sorted sequence gives a sorted
/// sequence that holds the other names and no longer that one.
pub proof fn lemma_remove_sorted(names: Seq<Seq<u8>>, i: int)
    requires
        strictly_sorted(names),
        0 <= i < names.len(),
    ensures
        strictly_sorted(names.remove(i)),
        names.remove(i).to_set() == names.to_set().remove(names[i]),
{
    let out = names.remove(i);
    let x = names[i];
    assert forall|y: Seq<u8>| out.to_set().contains(y) <==> names.to_set().remove(x).contains(
        y,
    ) by {
        if out.contains(y) {
            let k = choose|k: int| 0 <= k < out.len() && out[k] == y;
            if k < i {
                assert(names[k] == y);
                assert(name_lt(names[k], names[i]));
            } else {
                assert(names[k + 1] == y);
                assert(name_lt(names[i], names[k + 1]));
            }
        }
        if names.contains(y) && y != x {
            let k = choose|k: int| 0 <= k < names.len() && names[k] == y;
            if k < i {
                assert(out[k] == y);
            } else {
                assert(out[k - 1] == y);
            }
        }
    }
    assert(out.to_set() =~= names.to_set().remove(x));
}

/// A sorted sequence holds no name that stands between its first `i` names
/// and the rest.
pub proof fn lemma_absent(names: Seq<Seq<u8>>, i: int, x: Seq<u8>)
    requires
        0 <= i <= names.len(),
        forall|j: int| 0 <= j < i ==> name_lt(#[trigger] names[j], x),
        forall|j: int| i <= j < names.len() ==> name_lt(x, #[trigger] names[j]),
    ensures
        !names.to_set().contains(x),
{
    if names.contains(x) {
        let k = choose|k: int| 0 <= k < names.len() && names[k] == x;
        assert(name_lt(names[k], x) || name_lt(x, names[k]));
    }
}

/// Two sorted sequences that hold the same names are the same sequence.
pub proof fn lemma_sorted_unique(a: Seq<Seq<u8>>, b: Seq<Seq<u8>>)
    requires
        strictly_sorted(a),
        strictly_sorted(b),
        a.to_set() == b.to_set(),
    ensures
        a == b,
    decreases a.len(),
{
    if a.len() == 0 {
        if b.len() > 0 {
            assert(b.contains(b[0]));
            assert(b.to_set().contains(b[0]));
            assert(a.contains(b[0]));
        }
        assert(a =~= b);
    } else if b.len() == 0 {
        assert(a.contains(a[0]));
        assert(a.to_set().contains(a[0]));
        assert(b.contains(a[0]));
    } else {
        // The two least names are the same name.
        assert(a.contains(a[0]));
        assert(a.to_set().contains(a[0]));
        assert(b.contains(a[0]));
        let ka = choose|k: int| 0 <= k < b.len() && b[k] == a[0];
        assert(b.contains(b[0]));
        assert(b.to_set().contains(b[0]));
        assert(a.contains(b[0]));
        let kb = choose|k: int| 0 <= k < a.len() && a[k] == b[0];
        if ka > 0 && kb > 0 {
            assert(name_lt(b[0], b[ka]));
            assert(name_lt(a[0], a[kb]));
            lemma_name_lt_transitive(a[0], b[0], a[0]);
        }
        assert(a[0] == b[0]);
        lemma_remove_sorted(a, 0);
        lemma_remove_sorted(b, 0);
        lemma_sorted_unique(a.remove(0), b.remove(0));
        assert(a =~= seq![a[0]] + a.remove(0));
        assert(b =~= seq![b[0]] + b.remove(0));
    }
}

/// A set of names, kept in the order of names.
#[derive(Debug, Clone, PartialEq, Eq)]
pub struct NameSet {
    names: Vec<Vec<u8>>,
}

impl View for NameSet {
    type V = Seq<Seq<u8>>;

    closed spec fn view(&self) -> Seq<Seq<u8>> {
        names_view(self.names@)
    }
}

impl NameSet {
    /// The names stand in their order, each once.
    pub open spec fn wf(&self) -> bool {
        strictly_sorted(self@)
    }

    /// The empty set.
    pub fn new() -> (s: NameSet)
        ensures
            s.wf(),
            s@ == Seq::<Seq<u8>>::empty(),
    {
        let s = NameSet { names: Vec::new() };
        assert(s@ =~= Seq::<Seq<u8>>::empty());
        s
    }

    /// The place of the first name that does not come before `name`, and
    /// whether that name is `name` itself.
    fn find(&self, name: &[u8]) -> (r: (usize, bool))
        requires
            self.wf(),
        ensures
            r.0 <= self@.len(),
            forall|j: int| 0 <= j < r.0 ==> name_lt(#[trigger] self@[j], name@),
            r.1 ==> r.0 < self@.len() && self@[r.0 as int] == name@,
            !r.1 ==> forall|j: int| r.0 <= j < self@.len() ==> name_lt(name@, #[trigger] self@[j]),
    {
        let mut i: usize = 0;
        while i < self.names.len()
            invariant
                self.wf(),
                i <= self@.len(),
                self@.len() == self.names@.len(),
                forall|j: int| 0 <= j < i ==> name_lt(#[trigger] self@[j], name@),
            decreases self@.len() - i,
        {
            assert(self@[i as int] == self.names@[i as int]@);
            match compare_names(self.names[i].as_slice(), name) {
                NameOrder::Before => {
                    i = i + 1;
                },
                NameOrder::Same => {
                    return (i, true);
                },
                NameOrder::After => {
                    assert forall|j: int| i <= j < self@.len() implies name_lt(
                        name@,
                        #[trigger] self@[j],
                    ) by {
                        if j > i {
                            lemma_name_lt_transitive(name@, self@[i as int], self@[j]);
                        }
                    }
                    return (i, false);
                },
            }
        }
        (i, false)
    }

    /// Adds `name` to the set.
    pub fn insert(&mut self, name: &[u8])
        requires
            old(self).wf(),
        ensures
            final(self).wf(),
            final(self)@.to_set() == old(self)@.to_set().insert(name@),
    {
        let (i, found) = self.find(name);
        if found {
            assert(self@.contains(name@));
            assert(self@.to_set().insert(name@) =~= self@.to_set());
        } else {
            self.names.insert(i, slice_to_vec(name));
            assert(self@ =~= old(self)@.insert(i as int, name@));
            proof {
                lemma_insert_sorted(old(self)@, i as int, name@);
            }
        }
    }

    /// Takes `name` out of the set, if it is there.
    pub fn remove(&mut self, name: &[u8])
        requires
            old(self).wf(),
        ensures
            final(self).wf(),
            final(self)@.to_set() == old(self)@.to_set().remove(name@),
    {
        let (i, found) = self.find(name);
        if found {
            let _gone = self.names.remove(i);
            assert(self@ =~= old(self)@.remove(i as int));
            proof {
                lemma_remove_sorted(old(self)@, i as int);
            }
        } else {
            proof {
                lemma_absent(self@, i as int, name@);
            }
            assert(self@.to_set().remove(name@) =~= self@.to_set());
        }
    }

    /// The names of the set, in their order.
    pub fn into_names(self) -> (names: Vec<Vec<u8>>)
        ensures
            names_view(names@) == self@,
    {
        self.names
    }
}

} // verus!
