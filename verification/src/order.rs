use vstd::prelude::*;

use crate::text::views;

verus! {

/// Lexicographic order of character sequences by code point: the order of
/// `String`'s `Ord`, since UTF-8 preserves code-point order bytewise.
pub open spec fn lex_lt(a: Seq<char>, b: Seq<char>) -> bool
    decreases a.len(),
{
    if a.len() == 0 {
        b.len() > 0
    } else if b.len() == 0 {
        false
    } else if a[0] != b[0] {
        a[0] < b[0]
    } else {
        lex_lt(a.drop_first(), b.drop_first())
    }
}

pub open spec fn lex_le(a: Seq<char>, b: Seq<char>) -> bool {
    a == b || lex_lt(a, b)
}

pub proof fn lemma_lex_irreflexive(a: Seq<char>)
    ensures
        !lex_lt(a, a),
    decreases a.len(),
{
    if a.len() > 0 {
        lemma_lex_irreflexive(a.drop_first());
    }
}

pub proof fn lemma_lex_trans(a: Seq<char>, b: Seq<char>, c: Seq<char>)
    requires
        lex_lt(a, b),
        lex_lt(b, c),
    ensures
        lex_lt(a, c),
    decreases a.len(),
{
    if a.len() > 0 && b.len() > 0 && c.len() > 0 {
        if a[0] == b[0] && b[0] == c[0] {
            lemma_lex_trans(a.drop_first(), b.drop_first(), c.drop_first());
        }
    }
}

pub proof fn lemma_lex_total(a: Seq<char>, b: Seq<char>)
    ensures
        a == b || lex_lt(a, b) || lex_lt(b, a),
    decreases a.len(),
{
    if a.len() > 0 && b.len() > 0 && a[0] == b[0] {
        lemma_lex_total(a.drop_first(), b.drop_first());
        if a.drop_first() == b.drop_first() {
            assert(a =~= seq![a[0]] + a.drop_first());
            assert(b =~= seq![b[0]] + b.drop_first());
        }
    } else if a.len() == 0 && b.len() == 0 {
        assert(a =~= b);
    } else if a.len() > 0 && b.len() > 0 {
        assert(a[0] != b[0]);
    }
}

pub proof fn lemma_lex_asym(a: Seq<char>, b: Seq<char>)
    requires
        lex_lt(a, b),
    ensures
        !lex_lt(b, a),
        a != b,
{
    lemma_lex_irreflexive(a);
    if lex_lt(b, a) {
        lemma_lex_trans(a, b, a);
    }
}

pub proof fn lemma_lex_skip_common(a: Seq<char>, b: Seq<char>, k: int)
    requires
        0 <= k <= a.len(),
        k <= b.len(),
        a.take(k) == b.take(k),
    ensures
        lex_lt(a, b) == lex_lt(a.skip(k), b.skip(k)),
    decreases k,
{
    if k > 0 {
        assert(a[0] == a.take(k)[0]);
        assert(b[0] == b.take(k)[0]);
        assert(a.drop_first().take(k - 1) =~= a.take(k).drop_first());
        assert(b.drop_first().take(k - 1) =~= b.take(k).drop_first());
        lemma_lex_skip_common(a.drop_first(), b.drop_first(), k - 1);
        assert(a.drop_first().skip(k - 1) =~= a.skip(k));
        assert(b.drop_first().skip(k - 1) =~= b.skip(k));
    } else {
        assert(a.skip(0) =~= a);
        assert(b.skip(0) =~= b);
    }
}

/// Result of comparing two values.
#[derive(Clone, Copy, Debug, PartialEq, Eq, Structural)]
pub enum Order {
    Less,
    Equal,
    Greater,
}

pub open spec fn order_of(a: Seq<char>, b: Seq<char>) -> Order {
    if a == b {
        Order::Equal
    } else if lex_lt(a, b) {
        Order::Less
    } else {
        Order::Greater
    }
}

pub fn compare_chars(a: &[char], b: &[char]) -> (r: Order)
    ensures
        r == order_of(a@, b@),
        r is Greater ==> lex_lt(b@, a@),
{
    let mut i: usize = 0;
    while i < a.len() && i < b.len()
        invariant
            i <= a@.len(),
            i <= b@.len(),
            a@.take(i as int) == b@.take(i as int),
        decreases a@.len() - i,
    {
        if a[i] != b[i] {
            proof {
                lemma_lex_skip_common(a@, b@, i as int);
                lemma_lex_skip_common(b@, a@, i as int);
                assert(a@.skip(i as int)[0] == a@[i as int]);
                assert(b@.skip(i as int)[0] == b@[i as int]);
                assert(a@ != b@) by {
                    if a@ == b@ {
                        assert(a@[i as int] == b@[i as int]);
                    }
                }
            }
            if a[i] < b[i] {
                return Order::Less;
            } else {
                return Order::Greater;
            }
        }
        assert(a@.take(i + 1) =~= a@.take(i as int).push(a@[i as int]));
        assert(b@.take(i + 1) =~= b@.take(i as int).push(b@[i as int]));
        i = i + 1;
    }
    proof {
        lemma_lex_skip_common(a@, b@, i as int);
        lemma_lex_skip_common(b@, a@, i as int);
    }
    if a.len() == b.len() {
        assert(a@ =~= a@.take(i as int));
        assert(b@ =~= b@.take(i as int));
        Order::Equal
    } else if a.len() < b.len() {
        assert(a@.skip(i as int).len() == 0);
        assert(a@ != b@);
        Order::Less
    } else {
        assert(b@.skip(i as int).len() == 0);
        assert(a@ != b@);
        Order::Greater
    }
}

/// Strictly increasing in `lex_lt`.
pub open spec fn sorted_strict(s: Seq<Seq<char>>) -> bool {
    forall|i: int, j: int| 0 <= i < j < s.len() ==> lex_lt(s[i], s[j])
}

pub proof fn lemma_sorted_strict_no_dup(s: Seq<Seq<char>>)
    requires
        sorted_strict(s),
    ensures
        s.no_duplicates(),
{
    assert forall|i: int, j: int| 0 <= i < s.len() && 0 <= j < s.len() && i != j implies s[i] != s[j] by {
        if i < j {
            lemma_lex_asym(s[i], s[j]);
        } else {
            lemma_lex_asym(s[j], s[i]);
        }
    }
}

/// Two strictly sorted sequences with the same elements are equal.
pub proof fn lemma_sorted_strict_unique(a: Seq<Seq<char>>, b: Seq<Seq<char>>)
    requires
        sorted_strict(a),
        sorted_strict(b),
        a.to_set() == b.to_set(),
    ensures
        a == b,
    decreases a.len(),
{
    if a.len() == 0 {
        if b.len() > 0 {
            assert(b.to_set().contains(b[0]));
        }
        assert(b.len() == 0);
        assert(a =~= b);
    } else {
        assert(a.to_set().contains(a[0]));
        assert(b.len() > 0) by {
            assert(b.to_set().contains(a[0]));
        }
        // The least elements agree.
        assert(a[0] == b[0]) by {
            assert(b.to_set().contains(a[0]));
            let j = choose|j: int| 0 <= j < b.len() && b[j] == a[0];
            assert(a.to_set().contains(b[0]));
            let i = choose|i: int| 0 <= i < a.len() && a[i] == b[0];
            if j > 0 {
                assert(lex_lt(b[0], b[j]));
                if i > 0 {
                    assert(lex_lt(a[0], a[i]));
                    lemma_lex_asym(b[0], a[0]);
                } else {
                    lemma_lex_irreflexive(b[0]);
                }
            }
        }
        let ra = a.drop_first();
        let rb = b.drop_first();
        assert(ra.to_set() == rb.to_set()) by {
            assert forall|x: Seq<char>| ra.to_set().contains(x) implies rb.to_set().contains(x) by {
                let i = choose|i: int| 0 <= i < ra.len() && ra[i] == x;
                assert(lex_lt(a[0], a[i + 1]));
                assert(b.to_set().contains(x));
                let j = choose|j: int| 0 <= j < b.len() && b[j] == x;
                if j == 0 {
                    lemma_lex_irreflexive(x);
                }
                assert(rb[j - 1] == x);
            }
            assert forall|x: Seq<char>| rb.to_set().contains(x) implies ra.to_set().contains(x) by {
                let j = choose|j: int| 0 <= j < rb.len() && rb[j] == x;
                assert(lex_lt(b[0], b[j + 1]));
                assert(a.to_set().contains(x));
                let i = choose|i: int| 0 <= i < a.len() && a[i] == x;
                if i == 0 {
                    lemma_lex_irreflexive(x);
                }
                assert(ra[i - 1] == x);
            }
            assert(ra.to_set() =~= rb.to_set());
        }
        lemma_sorted_strict_unique(ra, rb);
        assert(a =~= seq![a[0]] + ra);
        assert(b =~= seq![b[0]] + rb);
    }
}

/// A set of strings kept in ascending order without duplicates, the
/// behaviour of a `BTreeSet<String>`.
pub struct StrSet {
    items: Vec<String>,
}

impl View for StrSet {
    type V = Seq<Seq<char>>;

    closed spec fn view(&self) -> Seq<Seq<char>> {
        self.items@.map_values(|s: String| s@)
    }
}

impl StrSet {
    #[verifier::type_invariant]
    spec fn wf(self) -> bool {
        sorted_strict(self.items@.map_values(|s: String| s@))
    }

    pub fn new() -> (r: StrSet)
        ensures
            r@ == Seq::<Seq<char>>::empty(),
    {
        let r = StrSet { items: Vec::new() };
        assert(r@ =~= Seq::<Seq<char>>::empty());
        r
    }

    pub fn len(&self) -> (r: usize)
        ensures
            r == self@.len(),
    {
        self.items.len()
    }

    /// The items are strictly ascending.
    pub fn ascending_items(&self)
        ensures
            sorted_strict(self@),
    {
        proof {
            use_type_invariant(self);
        }
    }

    /// Position of the first element not below `x`.
    fn lower_bound(&self, x: &[char]) -> (r: (usize, bool))
        ensures
            r.0 <= self@.len(),
            forall|i: int| 0 <= i < r.0 ==> lex_lt(#[trigger] self@[i], x@),
            r.0 < self@.len() ==> lex_le(x@, self@[r.0 as int]),
            r.1 == (r.0 < self@.len() && self@[r.0 as int] == x@),
    {
        proof {
            use_type_invariant(self);
        }
        let mut i: usize = 0;
        while i < self.items.len()
            invariant
                i <= self@.len(),
                self@.len() == self.items@.len(),
                forall|k: int| 0 <= k < self@.len() ==> #[trigger] self@[k] == self.items@[k]@,
                forall|k: int| 0 <= k < i ==> lex_lt(#[trigger] self@[k], x@),
            decreases self@.len() - i,
        {
            let item = crate::text::chars_of(self.items[i].as_str());
            match compare_chars(item.as_slice(), x) {
                Order::Less => {},
                Order::Equal => {
                    return (i, true);
                },
                Order::Greater => {
                    return (i, false);
                },
            }
            i = i + 1;
        }
        (i, false)
    }

    pub fn contains(&self, x: &str) -> (r: bool)
        ensures
            r == self@.contains(x@),
    {
        proof {
            use_type_invariant(self);
        }
        let cx = crate::text::chars_of(x);
        let (i, found) = self.lower_bound(cx.as_slice());
        proof {
            if !found && self@.contains(x@) {
                let k = choose|k: int| 0 <= k < self@.len() && self@[k] == x@;
                if k < i {
                    lemma_lex_irreflexive(x@);
                } else if k > i {
                    assert(lex_lt(self@[i as int], self@[k]));
                    lemma_lex_asym(x@, self@[i as int]);
                    if lex_lt(x@, self@[i as int]) {
                        lemma_lex_trans(x@, self@[i as int], x@);
                        lemma_lex_irreflexive(x@);
                    }
                }
            }
        }
        found
    }

    /// Adds `x`; true when it was not there before.
    pub fn insert(&mut self, x: String) -> (r: bool)
        ensures
            r == !old(self)@.contains(x@),
            final(self)@.to_set() == old(self)@.to_set().insert(x@),
            sorted_strict(final(self)@),
    {
        proof {
            use_type_invariant(&*self);
        }
        let cx = crate::text::chars_of(x.as_str());
        let (i, found) = self.lower_bound(cx.as_slice());
        let ghost old_view = self@;
        if found {
            proof {
                assert(old_view.to_set().insert(x@) =~= old_view.to_set());
                lemma_sorted_strict_no_dup(old_view);
            }
            return false;
        }
        proof {
            if old_view.contains(x@) {
                let k = choose|k: int| 0 <= k < old_view.len() && old_view[k] == x@;
                if k < i {
                    lemma_lex_irreflexive(x@);
                } else if k > i {
                    assert(lex_lt(old_view[i as int], old_view[k]));
                    lemma_lex_trans(x@, old_view[i as int], x@);
                    lemma_lex_irreflexive(x@);
                }
            }
        }
        let ghost new_view = old_view.insert(i as int, x@);
        proof {
            assert forall|a: int, b: int| 0 <= a < b < new_view.len() implies lex_lt(new_view[a], new_view[b]) by {
                if a < i && b < i {
                } else if a < i && b == i {
                } else if a < i && b > i {
                    assert(new_view[b] == old_view[b - 1]);
                } else if a == i {
                    assert(new_view[b] == old_view[b - 1]);
                    if b - 1 > i {
                        assert(lex_lt(old_view[i as int], old_view[b - 1]));
                        lemma_lex_trans(x@, old_view[i as int], old_view[b - 1]);
                    }
                } else {
                    assert(new_view[a] == old_view[a - 1]);
                    assert(new_view[b] == old_view[b - 1]);
                }
            }
        }
        let mut items: Vec<String> = Vec::new();
        std::mem::swap(&mut items, &mut self.items);
        items.insert(i, x);
        assert(items@.map_values(|s: String| s@) =~= new_view);
        self.items = items;
        assert(self@ =~= new_view);
        assert(new_view.to_set() =~= old_view.to_set().insert(x@)) by {
            assert forall|y: Seq<char>| new_view.to_set().contains(y) implies old_view.to_set().insert(x@).contains(y) by {
                let k = choose|k: int| 0 <= k < new_view.len() && new_view[k] == y;
                if k < i {
                    assert(old_view[k] == y);
                } else if k > i {
                    assert(old_view[k - 1] == y);
                }
            }
            assert forall|y: Seq<char>| old_view.to_set().insert(x@).contains(y) implies new_view.to_set().contains(y) by {
                if y == x@ {
                    assert(new_view[i as int] == y);
                } else {
                    let k = choose|k: int| 0 <= k < old_view.len() && old_view[k] == y;
                    if k < i {
                        assert(new_view[k] == y);
                    } else {
                        assert(new_view[k + 1] == y);
                    }
                }
            }
        }
        true
    }


    /// Inserts every string of `items`.
    pub fn insert_strings(&mut self, items: &[String])
        ensures
            final(self)@.to_set() == old(self)@.to_set().union(views_of(items@).to_set()),
            sorted_strict(final(self)@),
    {
        proof {
            use_type_invariant(&*self);
        }
        let ghost start = self@.to_set();
        let ghost v = views_of(items@);
        let mut i: usize = 0;
        assert(v.take(0).to_set() =~= Set::<Seq<char>>::empty());
        assert(start.union(Set::<Seq<char>>::empty()) =~= start);
        while i < items.len()
            invariant
                i <= items@.len(),
                v == views_of(items@),
                self@.to_set() == start.union(v.take(i as int).to_set()),
                sorted_strict(self@),
            decreases items@.len() - i,
        {
            assert(v.take(i + 1) =~= v.take(i as int).push(v[i as int]));
            proof {
                v.take(i as int).lemma_push_to_set_commute(v[i as int]);
            }
            self.insert(items[i].clone());
            assert(self@.to_set() =~= start.union(v.take(i + 1).to_set()));
            i = i + 1;
        }
        assert(v.take(i as int) =~= v);
    }

    /// Inserts every element of `other`.
    pub fn insert_all(&mut self, other: &StrSet)
        ensures
            final(self)@.to_set() == old(self)@.to_set().union(other@.to_set()),
            sorted_strict(final(self)@),
    {
        let items = other.to_vec();
        self.insert_strings(items.as_slice());
    }

    /// A set of the strings of `items`.
    pub fn from_strings(items: &[String]) -> (r: StrSet)
        ensures
            r@.to_set() == views_of(items@).to_set(),
            sorted_strict(r@),
    {
        let mut r = StrSet::new();
        assert(r@.to_set() =~= Set::<Seq<char>>::empty());
        r.insert_strings(items);
        assert(Set::<Seq<char>>::empty().union(views_of(items@).to_set()) =~= views_of(items@).to_set());
        r
    }

    /// The elements in ascending order.
    pub fn to_vec(&self) -> (r: Vec<String>)
        ensures
            views_of(r@) == self@,
            sorted_strict(self@),
            self@.no_duplicates(),
    {
        proof {
            use_type_invariant(self);
            lemma_sorted_strict_no_dup(self@);
        }
        let r = self.items.clone();
        assert(views_of(r@) =~= self@);
        r
    }
}

/// The character sequences held by a vector of strings.
pub open spec fn views_of(v: Seq<String>) -> Seq<Seq<char>> {
    v.map_values(|s: String| s@)
}

} // verus!
