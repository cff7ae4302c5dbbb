//! The combo aggregator: from key-down and key-up events to combo snapshots.

use vstd::prelude::*;
use crate::held::{canonical_text, join_tokens, lists, sorted_tokens, texts, HeldSet};
use crate::held::{lemma_ascending_no_duplicates, lemma_sorted_tokens_is};

verus! {

/// The keys that were down together when a hold-and-release gesture ended.
pub struct ComboSnapshot {
    tokens: Vec<String>,
}

impl View for ComboSnapshot {
    type V = Set<Seq<char>>;

    closed spec fn view(&self) -> Set<Seq<char>> {
        texts(self.tokens@).to_set()
    }
}

impl ComboSnapshot {
    /// The tokens stand in ascending order and there is at least one.
    pub closed spec fn wf(&self) -> bool {
        &&& lists(texts(self.tokens@), self@)
        &&& self.tokens@.len() > 0
    }

    /// The snapshot of the keys in `held`, if any is held.
    pub fn capture(held: &HeldSet) -> (r: Option<ComboSnapshot>)
        requires
            held.wf(),
        ensures
            r.is_some() <==> !held@.is_empty(),
            r.is_some() ==> r.unwrap().wf() && r.unwrap()@ == held@,
    {
        if held.is_empty() {
            None
        } else {
            Some(ComboSnapshot { tokens: held.members() })
        }
    }

    /// The snapshot of the keys named in `tokens`, in whatever order and however
    /// often each is named; none for an empty list.
    pub fn from_tokens(tokens: &Vec<String>) -> (r: Option<ComboSnapshot>)
        ensures
            r.is_some() <==> tokens@.len() > 0,
            r.is_some() ==> r.unwrap().wf() && r.unwrap()@ == texts(tokens@).to_set(),
    {
        let mut held = HeldSet::new();
        let mut i: usize = 0;
        while i < tokens.len()
            invariant
                i <= tokens@.len(),
                held.wf(),
                held@ == texts(tokens@).take(i as int).to_set(),
            decreases tokens@.len() - i,
        {
            proof {
                let q = texts(tokens@);
                assert(q.take(i as int + 1) =~= q.take(i as int).push(tokens@[i as int]@));
                q.take(i as int).lemma_push_to_set_commute(tokens@[i as int]@);
            }
            held.insert(tokens[i].clone());
            i = i + 1;
        }
        proof {
            let q = texts(tokens@);
            assert(q.take(i as int) =~= q);
            if tokens@.len() > 0 {
                assert(q.contains(q[0]));
                assert(held@.contains(q[0]));
            }
        }
        ComboSnapshot::capture(&held)
    }

    /// A copy of the tokens, in ascending order.
    pub fn tokens(&self) -> (r: Vec<String>)
        requires
            self.wf(),
        ensures
            texts(r@) == sorted_tokens(self@),
    {
        let mut r: Vec<String> = Vec::new();
        let mut i: usize = 0;
        while i < self.tokens.len()
            invariant
                i <= self.tokens@.len(),
                r@.len() == i,
                forall|j: int| 0 <= j < i ==> (#[trigger] r@[j])@ == self.tokens@[j]@,
            decreases self.tokens@.len() - i,
        {
            r.push(self.tokens[i].clone());
            i = i + 1;
        }
        proof {
            assert(texts(r@) =~= texts(self.tokens@));
            lemma_sorted_tokens_is(texts(self.tokens@), self@);
        }
        r
    }

    /// The canonical combo string: the tokens in ascending order, joined by `+`.
    pub fn keys(&self) -> (r: String)
        requires
            self.wf(),
        ensures
            r@ == canonical_text(self@),
    {
        let mut out = String::new();
        let mut i: usize = 0;
        let ghost q = texts(self.tokens@);
        while i < self.tokens.len()
            invariant
                i <= self.tokens@.len(),
                q == texts(self.tokens@),
                out@ == join_tokens(q.take(i as int)),
            decreases self.tokens@.len() - i,
        {
            proof {
                reveal_strlit("+");
                assert("+"@ =~= seq!['+']);
                let next = q.take(i as int + 1);
                assert(next.drop_last() =~= q.take(i as int));
                assert(next.last() == self.tokens@[i as int]@);
            }
            if i > 0 {
                out.append("+");
            }
            out.append(self.tokens[i].as_str());
            proof {
                if i == 0 {
                    assert(out@ =~= q.take(1)[0]);
                }
            }
            i = i + 1;
        }
        proof {
            assert(q.take(i as int) =~= q);
            lemma_sorted_tokens_is(q, self@);
        }
        out
    }

    /// Whether the combo is a single key.
    pub fn single(&self) -> (r: bool)
        requires
            self.wf(),
        ensures
            r == (self@.len() == 1),
    {
        proof {
            lemma_ascending_no_duplicates(texts(self.tokens@));
        }
        self.tokens.len() == 1
    }

    /// The number of keys in the combo.
    pub fn arity(&self) -> (n: usize)
        requires
            self.wf(),
        ensures
            n == self@.len(),
            n >= 1,
    {
        proof {
            lemma_ascending_no_duplicates(texts(self.tokens@));
        }
        self.tokens.len()
    }
}

/// What the aggregator knows between two events.
pub ghost struct AggregatorState {
    /// The keys that are down.
    pub held: Set<Seq<char>>,
    /// Whether the last event was a key-down.
    pub last_event_was_press: bool,
}

/// One transition of one key.
pub ghost enum Transition {
    /// The key went down.
    Down(Seq<char>),
    /// The key went up.
    Up(Seq<char>),
}

/// The state at the start: no key held, no press seen.
pub open spec fn initial_state() -> AggregatorState {
    AggregatorState { held: Set::<Seq<char>>::empty(), last_event_was_press: false }
}

/// The state after `token` went down.
pub open spec fn pressed(s: AggregatorState, token: Seq<char>) -> AggregatorState {
    AggregatorState { held: s.held.insert(token), last_event_was_press: true }
}

/// The state after `token` went up.
pub open spec fn released(s: AggregatorState, token: Seq<char>) -> AggregatorState {
    AggregatorState { held: s.held.remove(token), last_event_was_press: false }
}

/// The key set that a release in state `s` hands on: the held keys, if the last
/// event was a press and a key is held.
pub open spec fn emitted(s: AggregatorState) -> Option<Set<Seq<char>>> {
    if s.last_event_was_press && !s.held.is_empty() {
        Some(s.held)
    } else {
        None
    }
}

/// The state after one transition.
pub open spec fn step(s: AggregatorState, t: Transition) -> AggregatorState {
    match t {
        Transition::Down(token) => pressed(s, token),
        Transition::Up(token) => released(s, token),
    }
}

/// The key sets that one transition hands on: none, or one.
pub open spec fn step_snapshots(s: AggregatorState, t: Transition) -> Seq<Set<Seq<char>>> {
    match t {
        Transition::Down(_) => Seq::empty(),
        Transition::Up(_) => match emitted(s) {
            Some(keys) => seq![keys],
            None => Seq::empty(),
        },
    }
}

/// The state after the transitions of `trace`, in order.
pub open spec fn after(s: AggregatorState, trace: Seq<Transition>) -> AggregatorState
    decreases trace.len(),
{
    if trace.len() == 0 {
        s
    } else {
        step(after(s, trace.drop_last()), trace.last())
    }
}

/// The key sets handed on while the transitions of `trace` are taken, in order.
pub open spec fn snapshots(s: AggregatorState, trace: Seq<Transition>) -> Seq<Set<Seq<char>>>
    decreases trace.len(),
{
    if trace.len() == 0 {
        Seq::empty()
    } else {
        snapshots(s, trace.drop_last()) + step_snapshots(
            after(s, trace.drop_last()),
            trace.last(),
        )
    }
}

/// The token of the key that ends the recording when it is released.
pub open spec fn terminator_text() -> Seq<char> {
    "Escape"@
}

/// Whether releasing `token` ends the recording.
pub fn is_terminator(token: &str) -> (r: bool)
    ensures
        r == (token@ == terminator_text()),
{
    let stop = "Escape";
    let n: usize = token.unicode_len();
    if n != stop.unicode_len() {
        return false;
    }
    let mut i: usize = 0;
    while i < n
        invariant
            n == token@.len(),
            n == stop@.len(),
            stop@ == terminator_text(),
            i <= n,
            forall|j: int| 0 <= j < i ==> token@[j] == stop@[j],
        decreases n - i,
    {
        if token.get_char(i) != stop.get_char(i) {
            return false;
        }
        i = i + 1;
    }
    assert(token@ =~= stop@);
    true
}

/// The combo aggregator: the held keys, and whether the last event was a press.
pub struct Aggregator {
    held: HeldSet,
    last_event_was_press: bool,
}

impl View for Aggregator {
    type V = AggregatorState;

    closed spec fn view(&self) -> AggregatorState {
        AggregatorState { held: self.held@, last_event_was_press: self.last_event_was_press }
    }
}

/// A key event as the keyboard hook delivers it.
pub enum KeyEvent {
    /// The key with this token went down.
    Down(String),
    /// The key with this token went up.
    Up(String),
}

impl View for KeyEvent {
    type V = Transition;

    open spec fn view(&self) -> Transition {
        match self {
            KeyEvent::Down(token) => Transition::Down(token@),
            KeyEvent::Up(token) => Transition::Up(token@),
        }
    }
}

/// The aggregator at the start of a recording: no key held, no press seen.
pub fn init_handler() -> (r: Aggregator)
    ensures
        r.wf(),
        r@ == initial_state(),
{
    Aggregator::new()
}

impl Aggregator {
    /// The held keys are well formed.
    pub closed spec fn wf(&self) -> bool {
        self.held.wf()
    }

    /// The aggregator at the start: no key held, no press seen.
    pub fn new() -> (r: Self)
        ensures
            r.wf(),
            r@ == initial_state(),
    {
        Aggregator { held: HeldSet::new(), last_event_was_press: false }
    }

    /// Whether the last event was a key-down.
    pub fn last_event_was_press(&self) -> (r: bool)
        ensures
            r == self@.last_event_was_press,
    {
        self.last_event_was_press
    }

    /// The number of keys that are held.
    pub fn held_count(&self) -> (n: usize)
        requires
            self.wf(),
        ensures
            n == self@.held.len(),
    {
        self.held.len()
    }

    /// Whether the key with this token is held.
    pub fn is_held(&self, token: &str) -> (r: bool)
        requires
            self.wf(),
        ensures
            r == self@.held.contains(token@),
    {
        self.held.contains(token)
    }

    /// A key went down: it joins the held keys, and the last event is a press.
    pub fn on_key_down(&mut self, token: String)
        requires
            old(self).wf(),
        ensures
            final(self).wf(),
            final(self)@ == pressed(old(self)@, token@),
    {
        self.held.insert(token);
        self.last_event_was_press = true;
    }

    /// The snapshot that a release would hand on now: the held keys, if the last
    /// event was a press and a key is held.
    pub fn pending(&self) -> (r: Option<ComboSnapshot>)
        requires
            self.wf(),
        ensures
            r.is_some() <==> emitted(self@).is_some(),
            r.is_some() ==> r.unwrap().wf() && r.unwrap()@ == self@.held,
    {
        if self.last_event_was_press {
            ComboSnapshot::capture(&self.held)
        } else {
            None
        }
    }

    /// A key went up, and its snapshot, if any, was taken before: the key leaves
    /// the held keys, and the last event is no press.
    pub fn release(&mut self, token: &str)
        requires
            old(self).wf(),
        ensures
            final(self).wf(),
            final(self)@ == released(old(self)@, token@),
    {
        self.held.remove(token);
        self.last_event_was_press = false;
    }

    /// A key went up: hands on the snapshot of the held keys, if the last event
    /// was a press and a key is held; then the key leaves the held keys.
    pub fn on_key_up(&mut self, token: &str) -> (r: Option<ComboSnapshot>)
        requires
            old(self).wf(),
        ensures
            final(self).wf(),
            final(self)@ == released(old(self)@, token@),
            r.is_some() <==> emitted(old(self)@).is_some(),
            r.is_some() ==> r.unwrap().wf() && Some(r.unwrap()@) == emitted(old(self)@),
    {
        let snapshot = self.pending();
        self.release(token);
        snapshot
    }

    /// Takes one event: a key-down hands on nothing, a key-up what `on_key_up` does.
    pub fn on_event(&mut self, event: KeyEvent) -> (r: Option<ComboSnapshot>)
        requires
            old(self).wf(),
        ensures
            final(self).wf(),
            final(self)@ == step(old(self)@, event@),
            r.is_some() ==> r.unwrap().wf(),
            match r {
                Some(snapshot) => step_snapshots(old(self)@, event@) == seq![snapshot@],
                None => step_snapshots(old(self)@, event@) == Seq::<Set<Seq<char>>>::empty(),
            },
    {
        match event {
            KeyEvent::Down(token) => {
                self.on_key_down(token);
                None
            },
            KeyEvent::Up(token) => self.on_key_up(token.as_str()),
        }
    }
}

/// A release that follows a release hands on nothing: one gesture, one snapshot.
pub proof fn lemma_release_after_release_is_silent(s: AggregatorState, token: Seq<char>)
    ensures
        emitted(released(s, token)) is None,
{
}

/// Pressing two keys and releasing them one after the other hands on exactly one
/// snapshot: the keys that were held at the first release.
pub proof fn lemma_partial_release_counts_once(s: AggregatorState, a: Seq<char>, b: Seq<char>)
    ensures
        snapshots(
            s,
            seq![Transition::Down(a), Transition::Down(b), Transition::Up(a), Transition::Up(b)],
        ) == seq![s.held.insert(a).insert(b)],
{
    let trace = seq![
        Transition::Down(a),
        Transition::Down(b),
        Transition::Up(a),
        Transition::Up(b),
    ];
    let t3 = trace.drop_last();
    let t2 = t3.drop_last();
    let t1 = t2.drop_last();
    let t0 = t1.drop_last();
    assert(t0.len() == 0);
    assert(after(s, t0) == s);
    assert(after(s, t1) == pressed(s, a));
    assert(after(s, t2) == pressed(pressed(s, a), b));
    assert(after(s, t3) == released(pressed(pressed(s, a), b), a));
    assert(snapshots(s, t0) =~= Seq::<Set<Seq<char>>>::empty());
    assert(snapshots(s, t1) =~= Seq::<Set<Seq<char>>>::empty());
    assert(snapshots(s, t2) =~= Seq::<Set<Seq<char>>>::empty());
    assert(s.held.insert(a).insert(b).contains(b));
    assert(emitted(after(s, t2)) == Some(s.held.insert(a).insert(b)));
    assert(snapshots(s, t3) =~= seq![s.held.insert(a).insert(b)]);
    assert(emitted(after(s, t3)) is None);
    assert(snapshots(s, trace) =~= seq![s.held.insert(a).insert(b)]);
}

/// Key-downs alone hand on nothing, however many there are.
pub proof fn lemma_presses_alone_are_silent(s: AggregatorState, trace: Seq<Transition>)
    requires
        forall|i: int| 0 <= i < trace.len() ==> trace[i] is Down,
    ensures
        snapshots(s, trace) == Seq::<Set<Seq<char>>>::empty(),
    decreases trace.len(),
{
    if trace.len() > 0 {
        let head = trace.drop_last();
        assert forall|i: int| 0 <= i < head.len() implies head[i] is Down by {
            assert(head[i] == trace[i]);
        }
        lemma_presses_alone_are_silent(s, head);
        assert(trace.last() is Down);
        assert(snapshots(s, trace) =~= Seq::<Set<Seq<char>>>::empty());
    }
}

/// The key `token` went down in `trace` at `i` and did not go up after that.
pub open spec fn down_since_at(trace: Seq<Transition>, token: Seq<char>, i: int) -> bool {
    &&& 0 <= i < trace.len()
    &&& trace[i] == Transition::Down(token)
    &&& forall|j: int| i < j < trace.len() ==> #[trigger] trace[j] != Transition::Up(token)
}

/// The key `token` went down in `trace` and did not go up after that.
pub open spec fn down_since(trace: Seq<Transition>, token: Seq<char>) -> bool {
    exists|i: int| down_since_at(trace, token, i)
}

/// From the start a key is held exactly if it went down and did not go up
/// after that.
pub proof fn lemma_held_keys(trace: Seq<Transition>, token: Seq<char>)
    ensures
        after(initial_state(), trace).held.contains(token) <==> down_since(trace, token),
    decreases trace.len(),
{
    if trace.len() == 0 {
        assert forall|i: int| !down_since_at(trace, token, i) by {}
    } else {
        let head = trace.drop_last();
        let last = trace.last();
        lemma_held_keys(head, token);
        if last == Transition::Down(token) {
            assert(down_since_at(trace, token, trace.len() - 1));
        } else if last == Transition::Up(token) {
            assert forall|i: int| !down_since_at(trace, token, i) by {
                if 0 <= i < trace.len() - 1 {
                    assert(trace[trace.len() - 1] == Transition::Up(token));
                }
            }
        } else {
            if down_since(head, token) {
                let i = choose|i: int| down_since_at(head, token, i);
                assert(trace[i] == head[i]);
                assert forall|j: int| i < j < trace.len() implies #[trigger] trace[j]
                    != Transition::Up(token) by {
                    if j < head.len() {
                        assert(head[j] == trace[j]);
                    }
                }
                assert(down_since_at(trace, token, i));
            }
            if down_since(trace, token) {
                let i = choose|i: int| down_since_at(trace, token, i);
                assert(i < head.len());
                assert forall|j: int| i < j < head.len() implies #[trigger] head[j]
                    != Transition::Up(token) by {
                    assert(head[j] == trace[j]);
                }
                assert(head[i] == trace[i]);
                assert(down_since_at(head, token, i));
            }
        }
    }
}

/// After at least one transition the last event is a press exactly if the last
/// transition is a key-down.
pub proof fn lemma_last_event(s: AggregatorState, trace: Seq<Transition>)
    requires
        trace.len() > 0,
    ensures
        after(s, trace).last_event_was_press == (trace.last() is Down),
{
}

/// The number of key-downs in `trace`.
pub open spec fn presses(trace: Seq<Transition>) -> nat
    decreases trace.len(),
{
    if trace.len() == 0 {
        0
    } else {
        presses(trace.drop_last()) + (if trace.last() is Down {
            1nat
        } else {
            0nat
        })
    }
}

/// From the start no more snapshots are handed on than keys went down, and one
/// fewer while the last event is a press: each snapshot uses up a press.
pub proof fn lemma_snapshots_need_presses(trace: Seq<Transition>)
    ensures
        snapshots(initial_state(), trace).len() <= presses(trace),
        after(initial_state(), trace).last_event_was_press ==> snapshots(
            initial_state(),
            trace,
        ).len() < presses(trace),
    decreases trace.len(),
{
    if trace.len() > 0 {
        lemma_snapshots_need_presses(trace.drop_last());
    }
}

/// Two lists that name the same keys, in whatever order and however often
/// each, have the same canonical combo string.
pub proof fn lemma_canonical_order_independent(a: Seq<Seq<char>>, b: Seq<Seq<char>>)
    requires
        forall|x: Seq<char>| a.contains(x) <==> b.contains(x),
    ensures
        canonical_text(a.to_set()) == canonical_text(b.to_set()),
{
    assert(a.to_set() =~= b.to_set());
}

/// Every rearrangement of a list of keys has the canonical combo string of the list.
pub proof fn lemma_canonical_of_permutation(a: Seq<Seq<char>>, b: Seq<Seq<char>>)
    requires
        a.to_multiset() == b.to_multiset(),
    ensures
        canonical_text(a.to_set()) == canonical_text(b.to_set()),
{
    assert forall|x: Seq<char>| a.to_set().contains(x) <==> b.to_set().contains(x) by {
        a.to_multiset_ensures();
        b.to_multiset_ensures();
        assert(a.contains(x) <==> a.to_multiset().count(x) > 0);
        assert(b.contains(x) <==> b.to_multiset().count(x) > 0);
    }
    assert(a.to_set() =~= b.to_set());
}

} // verus!
