//! The set of keys that are held down, kept as an ascending list of tokens.

use vstd::prelude::*;
use crate::lex::{lemma_asymmetric, lemma_irreflexive, lemma_total, lemma_transitive, precedes, token_lt};

verus! {

/// The text of each token of `v`, in the order of `v`.
pub open spec fn texts(v: Seq<String>) -> Seq<Seq<char>> {
    Seq::new(v.len(), |i: int| v[i]@)
}

/// Each token comes strictly before every later one.
pub open spec fn ascending(q: Seq<Seq<char>>) -> bool {
    forall|i: int, j: int| 0 <= i < j < q.len() ==> precedes(#[trigger] q[i], #[trigger] q[j])
}

/// `q` lists the members of `s` in ascending order.
pub open spec fn lists(q: Seq<Seq<char>>, s: Set<Seq<char>>) -> bool {
    ascending(q) && q.to_set() == s
}

/// The members of `s` in ascending order.
pub open spec fn sorted_tokens(s: Set<Seq<char>>) -> Seq<Seq<char>> {
    choose|q: Seq<Seq<char>>| lists(q, s)
}

/// The tokens of `q` joined by `+`.
pub open spec fn join_tokens(q: Seq<Seq<char>>) -> Seq<char>
    decreases q.len(),
{
    if q.len() == 0 {
        Seq::<char>::empty()
    } else if q.len() == 1 {
        q[0]
    } else {
        join_tokens(q.drop_last()) + seq!['+'] + q.last()
    }
}

/// The canonical combo string of a key set: its tokens in ascending order, joined by `+`.
pub open spec fn canonical_text(s: Set<Seq<char>>) -> Seq<char> {
    join_tokens(sorted_tokens(s))
}

/// An ascending list holds no token twice.
pub proof fn lemma_ascending_no_duplicates(q: Seq<Seq<char>>)
    requires
        ascending(q),
    ensures
        q.no_duplicates(),
        q.to_set().len() == q.len(),
        q.to_set().finite(),
{
    assert forall|i: int, j: int| 0 <= i < q.len() && 0 <= j < q.len() && i != j implies q[i]
        != q[j] by {
        lemma_irreflexive(q[i]);
        if i < j {
            assert(precedes(q[i], q[j]));
        } else {
            assert(precedes(q[j], q[i]));
        }
    }
    q.unique_seq_to_set();
    vstd::seq_lib::seq_to_set_is_finite(q);
}

/// Each member of `q` stands before every later one by `before`.
pub open spec fn strictly_ordered<A>(q: Seq<A>, before: spec_fn(A, A) -> bool) -> bool {
    forall|i: int, j: int| 0 <= i < j < q.len() ==> before(#[trigger] q[i], #[trigger] q[j])
}

/// Two lists with the same members, both strictly ordered by a relation that
/// never holds in both directions, are the same list.
pub proof fn lemma_strictly_ordered_unique<A>(p: Seq<A>, q: Seq<A>, before: spec_fn(A, A) -> bool)
    requires
        forall|x: A, y: A| #[trigger] before(x, y) ==> !before(y, x),
        strictly_ordered(p, before),
        strictly_ordered(q, before),
        forall|x: A| p.contains(x) <==> q.contains(x),
    ensures
        p == q,
    decreases p.len(),
{
    if p.len() == 0 {
        if q.len() > 0 {
            assert(q.contains(q[0]));
            assert(p.contains(q[0]));
        }
        assert(p =~= q);
    } else {
        assert(p.contains(p[0]));
        assert(q.contains(p[0]));
        let j = choose|j: int| 0 <= j < q.len() && q[j] == p[0];
        assert(q.contains(q[0]));
        assert(p.contains(q[0]));
        let k = choose|k: int| 0 <= k < p.len() && p[k] == q[0];
        if j > 0 && k > 0 {
            assert(before(q[0], q[j]));
            assert(before(p[0], p[k]));
        }
        assert(p[0] == q[0]);
        let pt = p.drop_first();
        let qt = q.drop_first();
        assert forall|x: A| pt.contains(x) <==> qt.contains(x) by {
            if pt.contains(x) {
                let i = choose|i: int| 0 <= i < pt.len() && pt[i] == x;
                assert(p[i + 1] == x);
                assert(before(p[0], p[i + 1]));
                assert(p.contains(x));
                let m = choose|m: int| 0 <= m < q.len() && q[m] == x;
                assert(m != 0);
                assert(qt[m - 1] == x);
            }
            if qt.contains(x) {
                let i = choose|i: int| 0 <= i < qt.len() && qt[i] == x;
                assert(q[i + 1] == x);
                assert(before(q[0], q[i + 1]));
                assert(q.contains(x));
                let m = choose|m: int| 0 <= m < p.len() && p[m] == x;
                assert(m != 0);
                assert(pt[m - 1] == x);
            }
        }
        assert(strictly_ordered(pt, before)) by {
            assert forall|a: int, b: int| 0 <= a < b < pt.len() implies before(
                #[trigger] pt[a],
                #[trigger] pt[b],
            ) by {
                assert(before(p[a + 1], p[b + 1]));
            }
        }
        assert(strictly_ordered(qt, before)) by {
            assert forall|a: int, b: int| 0 <= a < b < qt.len() implies before(
                #[trigger] qt[a],
                #[trigger] qt[b],
            ) by {
                assert(before(q[a + 1], q[b + 1]));
            }
        }
        lemma_strictly_ordered_unique(pt, qt, before);
        assert(p =~= seq![p[0]] + pt);
        assert(q =~= seq![q[0]] + qt);
    }
}

/// Two ascending lists with the same members are the same list.
pub proof fn lemma_ascending_unique(p: Seq<Seq<char>>, q: Seq<Seq<char>>)
    requires
        ascending(p),
        ascending(q),
        forall|x: Seq<char>| p.contains(x) <==> q.contains(x),
    ensures
        p == q,
{
    let before = |x: Seq<char>, y: Seq<char>| precedes(x, y);
    assert forall|x: Seq<char>, y: Seq<char>| #[trigger] before(x, y) implies !before(y, x) by {
        lemma_asymmetric(x, y);
    }
    assert(strictly_ordered(p, before)) by {
        assert forall|i: int, j: int| 0 <= i < j < p.len() implies before(
            #[trigger] p[i],
            #[trigger] p[j],
        ) by {
            assert(precedes(p[i], p[j]));
        }
    }
    assert(strictly_ordered(q, before)) by {
        assert forall|i: int, j: int| 0 <= i < j < q.len() implies before(
            #[trigger] q[i],
            #[trigger] q[j],
        ) by {
            assert(precedes(q[i], q[j]));
        }
    }
    lemma_strictly_ordered_unique(p, q, before);
}

/// An ascending list of a set's members is the set's sorted list.
pub proof fn lemma_sorted_tokens_is(q: Seq<Seq<char>>, s: Set<Seq<char>>)
    requires
        lists(q, s),
    ensures
        sorted_tokens(s) == q,
{
    let p = sorted_tokens(s);
    assert(lists(p, s));
    assert forall|x: Seq<char>| p.contains(x) <==> q.contains(x) by {
        assert(p.to_set().contains(x) <==> q.to_set().contains(x));
    }
    lemma_ascending_unique(p, q);
}

/// The keys that are held down. No token occurs twice.
pub struct HeldSet {
    tokens: Vec<String>,
}

impl View for HeldSet {
    type V = Set<Seq<char>>;

    closed spec fn view(&self) -> Set<Seq<char>> {
        texts(self.tokens@).to_set()
    }
}

impl HeldSet {
    /// The tokens are kept in ascending order.
    pub closed spec fn wf(&self) -> bool {
        ascending(texts(self.tokens@))
    }

    /// The members in ascending order.
    pub closed spec fn listing(&self) -> Seq<Seq<char>> {
        texts(self.tokens@)
    }

    /// The listing is the sorted list of the members, and the set is finite.
    pub proof fn lemma_listing(&self)
        requires
            self.wf(),
        ensures
            self.listing() == sorted_tokens(self@),
            lists(self.listing(), self@),
            self@.finite(),
            self@.len() == self.listing().len(),
    {
        lemma_sorted_tokens_is(texts(self.tokens@), self@);
        lemma_ascending_no_duplicates(texts(self.tokens@));
    }

    /// The empty set.
    pub fn new() -> (r: Self)
        ensures
            r.wf(),
            r@ == Set::<Seq<char>>::empty(),
    {
        let r = HeldSet { tokens: Vec::new() };
        assert(texts(r.tokens@).to_set() =~= Set::<Seq<char>>::empty());
        r
    }

    /// The number of members.
    pub fn len(&self) -> (n: usize)
        requires
            self.wf(),
        ensures
            n == self@.len(),
    {
        proof {
            self.lemma_listing();
        }
        self.tokens.len()
    }

    /// Whether no key is held.
    pub fn is_empty(&self) -> (r: bool)
        requires
            self.wf(),
        ensures
            r == self@.is_empty(),
            r == (self@.len() == 0),
    {
        proof {
            self.lemma_listing();
            if self.tokens@.len() > 0 {
                assert(texts(self.tokens@)[0] == self.tokens@[0]@);
                assert(texts(self.tokens@).contains(self.tokens@[0]@));
                assert(self@.contains(self.tokens@[0]@));
            } else {
                assert(self@ =~= Set::<Seq<char>>::empty());
            }
        }
        self.tokens.len() == 0
    }

    /// A copy of the members, in ascending order.
    pub fn members(&self) -> (r: Vec<String>)
        requires
            self.wf(),
        ensures
            texts(r@) == self.listing(),
            lists(texts(r@), self@),
            r@.len() == self@.len(),
    {
        proof {
            self.lemma_listing();
        }
        let mut r: Vec<String> = Vec::new();
        let mut i: usize = 0;
        while i < self.tokens.len()
            invariant
                i <= self.tokens@.len(),
                r@.len() == i,
                forall|j: int| 0 <= j < i ==> (#[trigger] r@[j])@ == self.tokens@[j]@,
            decreases self.tokens@.len() - i,
        {
            r.push(self.tokens[i].clone());
            i = i + 1;
        }
        assert(texts(r@) =~= texts(self.tokens@));
        r
    }

    /// The position of the first token that does not come before `token`.
    fn position(&self, token: &str) -> (i: usize)
        requires
            self.wf(),
        ensures
            i <= self.listing().len(),
            forall|j: int| 0 <= j < i ==> precedes(#[trigger] self.listing()[j], token@),
            i < self.listing().len() ==> !precedes(self.listing()[i as int], token@),
    {
        let mut i: usize = 0;
        while i < self.tokens.len()
            invariant
                i <= self.tokens@.len(),
                forall|j: int| 0 <= j < i ==> precedes(#[trigger] texts(self.tokens@)[j], token@),
            decreases self.tokens@.len() - i,
        {
            if !token_lt(self.tokens[i].as_str(), token) {
                return i;
            }
            i = i + 1;
        }
        i
    }

    /// Whether `token` is a member.
    pub fn contains(&self, token: &str) -> (r: bool)
        requires
            self.wf(),
        ensures
            r == self@.contains(token@),
    {
        let i = self.position(token);
        let ghost q = texts(self.tokens@);
        if i < self.tokens.len() && !token_lt(token, self.tokens[i].as_str()) {
            proof {
                if q[i as int] != token@ {
                    lemma_total(q[i as int], token@);
                }
                assert(q.contains(token@));
            }
            true
        } else {
            proof {
                lemma_absent(q, token@, i as int);
            }
            false
        }
    }

    /// Adds `token`; a token that is already a member changes nothing.
    pub fn insert(&mut self, token: String)
        requires
            old(self).wf(),
        ensures
            final(self).wf(),
            final(self)@ == old(self)@.insert(token@),
    {
        let i = self.position(token.as_str());
        let ghost q = texts(self.tokens@);
        if i < self.tokens.len() && !token_lt(token.as_str(), self.tokens[i].as_str()) {
            proof {
                if q[i as int] != token@ {
                    lemma_total(q[i as int], token@);
                }
                assert(q.contains(token@));
                assert(q.to_set() =~= q.to_set().insert(token@));
            }
        } else {
            self.tokens.insert(i, token);
            proof {
                let r = texts(self.tokens@);
                assert(r =~= q.insert(i as int, token@));
                lemma_insert_ascending(q, token@, i as int);
            }
        }
    }

    /// Removes `token`; a token that is no member changes nothing.
    pub fn remove(&mut self, token: &str)
        requires
            old(self).wf(),
        ensures
            final(self).wf(),
            final(self)@ == old(self)@.remove(token@),
    {
        let i = self.position(token);
        let ghost q = texts(self.tokens@);
        if i < self.tokens.len() && !token_lt(token, self.tokens[i].as_str()) {
            proof {
                if q[i as int] != token@ {
                    lemma_total(q[i as int], token@);
                }
            }
            let _ = self.tokens.remove(i);
            proof {
                let r = texts(self.tokens@);
                assert(r =~= q.remove(i as int));
                lemma_remove_ascending(q, i as int);
            }
        } else {
            proof {
                lemma_absent(q, token@, i as int);
                assert(q.to_set() =~= q.to_set().remove(token@));
            }
        }
    }
}

/// A token that neither stands at `i` nor fits before or after it is no member.
pub proof fn lemma_absent(q: Seq<Seq<char>>, t: Seq<char>, i: int)
    requires
        ascending(q),
        0 <= i <= q.len(),
        forall|j: int| 0 <= j < i ==> precedes(#[trigger] q[j], t),
        i < q.len() ==> precedes(t, q[i]),
    ensures
        !q.contains(t),
        !q.to_set().contains(t),
{
    if q.contains(t) {
        let k = choose|k: int| 0 <= k < q.len() && q[k] == t;
        lemma_irreflexive(t);
        if k < i {
            assert(precedes(q[k], t));
        } else if k > i {
            assert(precedes(q[i], q[k]));
            lemma_asymmetric(t, q[i]);
        }
    }
}

/// Inserting a token at its place keeps the list ascending and adds it to the members.
pub proof fn lemma_insert_ascending(q: Seq<Seq<char>>, t: Seq<char>, i: int)
    requires
        ascending(q),
        0 <= i <= q.len(),
        forall|j: int| 0 <= j < i ==> precedes(#[trigger] q[j], t),
        i < q.len() ==> precedes(t, q[i]),
    ensures
        ascending(q.insert(i, t)),
        q.insert(i, t).to_set() == q.to_set().insert(t),
{
    let r = q.insert(i, t);
    assert forall|a: int, b: int| 0 <= a < b < r.len() implies precedes(
        #[trigger] r[a],
        #[trigger] r[b],
    ) by {
        if b < i {
            assert(precedes(q[a], q[b]));
        } else if b == i {
            assert(precedes(q[a], t));
        } else if a == i {
            if b - 1 > i {
                assert(precedes(q[i], q[b - 1]));
                lemma_transitive(t, q[i], q[b - 1]);
            }
        } else if a < i {
            assert(precedes(q[a], q[b - 1]));
        } else {
            assert(precedes(q[a - 1], q[b - 1]));
        }
    }
    assert forall|x: Seq<char>| r.to_set().contains(x) <==> q.to_set().insert(t).contains(
        x,
    ) by {
        if r.contains(x) {
            let k = choose|k: int| 0 <= k < r.len() && r[k] == x;
            if k < i {
                assert(q[k] == x);
            } else if k > i {
                assert(q[k - 1] == x);
            }
        }
        if q.contains(x) {
            let k = choose|k: int| 0 <= k < q.len() && q[k] == x;
            if k < i {
                assert(r[k] == x);
            } else {
                assert(r[k + 1] == x);
            }
        }
        assert(r[i] == t);
    }
    assert(r.to_set() =~= q.to_set().insert(t));
}

/// Removing a position keeps the list ascending and takes its token from the members.
pub proof fn lemma_remove_ascending(q: Seq<Seq<char>>, i: int)
    requires
        ascending(q),
        0 <= i < q.len(),
    ensures
        ascending(q.remove(i)),
        q.remove(i).to_set() == q.to_set().remove(q[i]),
{
    let r = q.remove(i);
    lemma_ascending_no_duplicates(q);
    assert forall|a: int, b: int| 0 <= a < b < r.len() implies precedes(
        #[trigger] r[a],
        #[trigger] r[b],
    ) by {
        let a2 = if a < i { a } else { a + 1 };
        let b2 = if b < i { b } else { b + 1 };
        assert(precedes(q[a2], q[b2]));
    }
    assert forall|x: Seq<char>| r.to_set().contains(x) <==> q.to_set().remove(q[i]).contains(
        x,
    ) by {
        if r.contains(x) {
            let k = choose|k: int| 0 <= k < r.len() && r[k] == x;
            let k2 = if k < i { k } else { k + 1 };
            assert(q[k2] == x);
        }
        if q.contains(x) && x != q[i] {
            let k = choose|k: int| 0 <= k < q.len() && q[k] == x;
            if k < i {
                assert(r[k] == x);
            } else {
                assert(r[k - 1] == x);
            }
        }
    }
    assert(r.to_set() =~= q.to_set().remove(q[i]));
}

} // verus!
