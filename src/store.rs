use vstd::prelude::*;
use crate::timestamp::{lemma_seconds_since_within_a_second, Timestamp, NANOS_PER_SEC};
use crate::clock::{format_timestamp, parse_timestamp, rfc3339_instant, rfc3339_text, spec_parse_timestamp};
use crate::humanize::{precise_text, time_since_text};
use crate::json::{json_object_of, json_object_text, read_object, text_map, write_object};

verus! {

/// Whether no two entries carry the same name.
pub open spec fn names_unique<V>(s: Seq<(String, V)>) -> bool {
    forall|i: int, j: int|
        0 <= i < s.len() && 0 <= j < s.len() && i != j ==> #[trigger] s[i].0@ != #[trigger] s[j].0@
}

/// Whether some entry carries the name `k`.
pub open spec fn has_name<V>(s: Seq<(String, V)>, k: Seq<char>) -> bool {
    exists|i: int| 0 <= i < s.len() && #[trigger] s[i].0@ == k
}

/// The mapping from name to value that a list of entries stands for.
pub open spec fn pairs_map<V>(s: Seq<(String, V)>) -> Map<Seq<char>, V> {
    Map::new(
        |k: Seq<char>| has_name(s, k),
        |k: Seq<char>| s[choose|i: int| 0 <= i < s.len() && #[trigger] s[i].0@ == k].1,
    )
}

/// With unique names, entry `i` is what the mapping holds for its name.
pub proof fn lemma_pairs_map_at<V>(s: Seq<(String, V)>, i: int)
    requires
        names_unique(s),
        0 <= i < s.len(),
    ensures
        pairs_map(s).contains_key(s[i].0@),
        pairs_map(s)[s[i].0@] == s[i].1,
{
    let k = s[i].0@;
    assert(has_name(s, k));
    let j = choose|j: int| 0 <= j < s.len() && #[trigger] s[j].0@ == k;
    if j != i {
        assert(s[i].0@ != s[j].0@);
    }
}

/// Two lists with the same names, entry by entry, whose values agree under
/// `g` and `f`, stand for mappings that agree under them.
pub proof fn lemma_pairs_map_related<A, B, C>(
    a: Seq<(String, A)>,
    b: Seq<(String, B)>,
    f: spec_fn(A) -> C,
    g: spec_fn(B) -> C,
)
    requires
        names_unique(a),
        a.len() == b.len(),
        forall|i: int| 0 <= i < a.len() ==> (#[trigger] b[i]).0@ == a[i].0@ && g(b[i].1) == f(a[i].1),
    ensures
        names_unique(b),
        pairs_map(b).map_values(g) == pairs_map(a).map_values(f),
{
    assert forall|i: int, j: int|
        0 <= i < b.len() && 0 <= j < b.len() && i != j implies #[trigger] b[i].0@ != #[trigger] b[j].0@ by {
        assert(a[i].0@ != a[j].0@);
    }
    let mb = pairs_map(b).map_values(g);
    let ma = pairs_map(a).map_values(f);
    assert forall|k: Seq<char>| #[trigger] mb.contains_key(k) <==> ma.contains_key(k) by {
        if mb.contains_key(k) {
            let i = choose|i: int| 0 <= i < b.len() && #[trigger] b[i].0@ == k;
            assert(a[i].0@ == k);
        }
        if ma.contains_key(k) {
            let i = choose|i: int| 0 <= i < a.len() && #[trigger] a[i].0@ == k;
            assert(b[i].0@ == k);
        }
    }
    assert forall|k: Seq<char>| #[trigger] mb.contains_key(k) implies mb[k] == ma[k] by {
        let i = choose|i: int| 0 <= i < b.len() && #[trigger] b[i].0@ == k;
        lemma_pairs_map_at(b, i);
        lemma_pairs_map_at(a, i);
    }
    assert(mb =~= ma);
}

/// The text of each instant of a mapping, as RFC 3339.
pub open spec fn stored_text(m: Map<Seq<char>, Timestamp>) -> Map<Seq<char>, Seq<char>> {
    m.map_values(|t: Timestamp| rfc3339_text(t.secs as int, t.nanos as int))
}

/// Whether every value of `m` reads as an instant within range.
pub open spec fn all_instants(m: Map<Seq<char>, Seq<char>>) -> bool {
    forall|k: Seq<char>| m.contains_key(k) ==> (#[trigger] spec_parse_timestamp(m[k])) is Some
}

/// The mapping a store's file text stands for: a flat JSON object whose
/// values are all RFC 3339 instants within range; `None` for any other text.
pub open spec fn decoded_store(text: Seq<char>) -> Option<Map<Seq<char>, Timestamp>> {
    match json_object_of(text) {
        Some(m) => if all_instants(m) {
            Some(m.map_values(|v: Seq<char>| spec_parse_timestamp(v).unwrap()))
        } else {
            None
        },
        None => None,
    }
}

/// The phrase for how long before `now` each event of `m` last happened.
pub open spec fn elapsed_texts(m: Map<Seq<char>, Timestamp>, now: Timestamp) -> Map<Seq<char>, Seq<char>> {
    m.map_values(|t: Timestamp| precise_text(now.spec_seconds_since(t)))
}

/// Reading a store's file text recovers the store, wherever serde_json reads
/// back the object it wrote and chrono reads back each instant it wrote.
pub proof fn lemma_round_trip_given_readers(m: Map<Seq<char>, Timestamp>)
    requires
        json_object_of(json_object_text(stored_text(m))) == Some(stored_text(m)),
        forall|k: Seq<char>| #[trigger] m.contains_key(k) ==>
            m[k].wf() && rfc3339_instant(rfc3339_text(m[k].secs as int, m[k].nanos as int))
                == Some((m[k].secs as int, m[k].nanos as int)),
    ensures
        decoded_store(json_object_text(stored_text(m))) == Some(m),
{
    let t = stored_text(m);
    assert forall|k: Seq<char>| t.contains_key(k) implies (#[trigger] spec_parse_timestamp(t[k])) is Some by {
        assert(m.contains_key(k));
    }
    let back = t.map_values(|v: Seq<char>| spec_parse_timestamp(v).unwrap());
    assert forall|k: Seq<char>| #[trigger] back.contains_key(k) implies back[k] == m[k] by {
        assert(m.contains_key(k));
    }
    assert(back =~= m);
}

/// Reading the same file text twice gives the same store.
pub proof fn lemma_load_repeatable(text: Seq<char>, m1: Map<Seq<char>, Timestamp>, m2: Map<Seq<char>, Timestamp>)
    requires
        decoded_store(text) == Some(m1),
        decoded_store(text) == Some(m2),
    ensures
        m1 == m2,
{
}

/// An event added at `at` that is not yet tracked, queried less than a
/// second later, is zero whole seconds old.
pub proof fn lemma_add_then_query(m: Map<Seq<char>, Timestamp>, name: Seq<char>, at: Timestamp, now: Timestamp)
    requires
        !m.contains_key(name),
        at.total_nanos() <= now.total_nanos() < at.total_nanos() + NANOS_PER_SEC,
    ensures
        m.insert(name, at).get(name) == Some(at),
        now.spec_seconds_since(m.insert(name, at)[name]) == 0,
{
    lemma_seconds_since_within_a_second(at, now);
}

/// Outcome of recording a new event.
#[derive(Clone, Copy, Debug, PartialEq, Eq, Structural)]
pub enum AddOutcome {
    /// The event was recorded.
    Added,
    /// An event of that name was already recorded; nothing changed.
    AlreadyExists,
}

/// The events that are tracked: for each name, the instant it last happened.
pub struct EventStore {
    entries: Vec<(String, Timestamp)>,
}

impl View for EventStore {
    type V = Map<Seq<char>, Timestamp>;

    closed spec fn view(&self) -> Map<Seq<char>, Timestamp> {
        pairs_map(self.entries@)
    }
}

impl EventStore {
    /// Names are unique and every instant is within range.
    pub closed spec fn wf(&self) -> bool {
        &&& names_unique(self.entries@)
        &&& forall|i: int| 0 <= i < self.entries@.len() ==> (#[trigger] self.entries@[i]).1.wf()
    }

    /// An empty store.
    pub fn new() -> (r: EventStore)
        ensures
            r.wf(),
            r@ == Map::<Seq<char>, Timestamp>::empty(),
    {
        let r = EventStore { entries: Vec::new() };
        assert(r@ =~= Map::<Seq<char>, Timestamp>::empty());
        r
    }

    /// Number of events tracked.
    pub fn len(&self) -> (r: usize)
        requires
            self.wf(),
        ensures
            r as nat == self@.len(),
    {
        proof {
            self.lemma_dom_len();
        }
        self.entries.len()
    }

    /// Whether no event is tracked.
    pub fn is_empty(&self) -> (r: bool)
        requires
            self.wf(),
        ensures
            r == (self@.len() == 0),
    {
        proof {
            self.lemma_dom_len();
        }
        self.entries.len() == 0
    }

    proof fn lemma_dom_len(&self)
        requires
            self.wf(),
        ensures
            self@.len() == self.entries@.len(),
            self@.dom().finite(),
    {
        let s = self.entries@;
        let names = Seq::new(s.len(), |i: int| s[i].0@);
        assert forall|i: int, j: int| 0 <= i < j < names.len() implies names[i] != names[j] by {
            assert(s[i].0@ != s[j].0@);
        }
        assert(names.no_duplicates());
        names.unique_seq_to_set();
        assert forall|k: Seq<char>| #[trigger] self@.dom().contains(k) <==> names.to_set().contains(k) by {
            if self@.dom().contains(k) {
                let i = choose|i: int| 0 <= i < s.len() && #[trigger] s[i].0@ == k;
                assert(names[i] == k);
            }
            if names.to_set().contains(k) {
                let i = choose|i: int| 0 <= i < names.len() && names[i] == k;
                assert(s[i].0@ == k);
            }
        }
        assert(self@.dom() =~= names.to_set());
    }

    /// Index of the entry named `name`, if there is one.
    fn find(&self, name: &String) -> (r: Option<usize>)
        requires
            self.wf(),
        ensures
            r is Some <==> self@.contains_key(name@),
            r matches Some(i) ==> i < self.entries@.len() && self.entries@[i as int].0@ == name@,
    {
        let mut i: usize = 0;
        while i < self.entries.len()
            invariant
                i <= self.entries@.len(),
                forall|j: int| 0 <= j < i ==> (#[trigger] self.entries@[j]).0@ != name@,
            decreases self.entries@.len() - i,
        {
            if self.entries[i].0 == *name {
                return Some(i);
            }
            i += 1;
        }
        None
    }

    /// The instant the event `name` last happened, if it is tracked.
    pub fn get(&self, name: &String) -> (r: Option<Timestamp>)
        requires
            self.wf(),
        ensures
            r == self@.get(name@),
    {
        match self.find(name) {
            Some(i) => {
                proof {
                    lemma_pairs_map_at(self.entries@, i as int);
                }
                Some(self.entries[i].1)
            },
            None => None,
        }
    }

    /// Whether the event `name` is tracked.
    pub fn contains(&self, name: &String) -> (r: bool)
        requires
            self.wf(),
        ensures
            r == self@.contains_key(name@),
    {
        self.find(name).is_some()
    }

    /// Records a new event that happened at `at`. An event already tracked
    /// keeps its instant, and the store is left unchanged.
    pub fn add_event(&mut self, name: &String, at: Timestamp) -> (r: AddOutcome)
        requires
            old(self).wf(),
            at.wf(),
        ensures
            final(self).wf(),
            old(self)@.contains_key(name@) ==> r == AddOutcome::AlreadyExists && final(self)@ == old(self)@,
            !old(self)@.contains_key(name@) ==> r == AddOutcome::Added && final(self)@ == old(self)@.insert(name@, at),
    {
        if self.contains(name) {
            return AddOutcome::AlreadyExists;
        }
        let ghost s0 = self.entries@;
        let entry_name = name.clone();
        self.entries.push((entry_name, at));
        proof {
            let s = self.entries@;
            assert(s[s0.len() as int] == (entry_name, at));
            assert forall|i: int, j: int|
                0 <= i < s.len() && 0 <= j < s.len() && i != j implies #[trigger] s[i].0@ != #[trigger] s[j].0@ by {
                if i < s0.len() && j < s0.len() {
                    assert(s0[i] == s[i] && s0[j] == s[j]);
                } else if i < s0.len() {
                    assert(s0[i] == s[i]);
                    if s[i].0@ == name@ { assert(has_name(s0, name@)); }
                } else if j < s0.len() {
                    assert(s0[j] == s[j]);
                    if s[j].0@ == name@ { assert(has_name(s0, name@)); }
                }
            }
            self.lemma_view_push(s0, name@, at);
        }
        AddOutcome::Added
    }

    proof fn lemma_view_push(&self, s0: Seq<(String, Timestamp)>, k: Seq<char>, at: Timestamp)
        requires
            self.wf(),
            names_unique(s0),
            self.entries@.len() == s0.len() + 1,
            forall|i: int| 0 <= i < s0.len() ==> self.entries@[i] == s0[i],
            self.entries@[s0.len() as int].0@ == k,
            self.entries@[s0.len() as int].1 == at,
        ensures
            self@ == pairs_map(s0).insert(k, at),
    {
        let s = self.entries@;
        let m0 = pairs_map(s0);
        assert forall|key: Seq<char>| #[trigger] self@.contains_key(key) <==> m0.insert(k, at).contains_key(key) by {
            if self@.contains_key(key) && key != k {
                let i = choose|i: int| 0 <= i < s.len() && #[trigger] s[i].0@ == key;
                assert(s0[i].0@ == key);
            }
            if m0.contains_key(key) {
                let i = choose|i: int| 0 <= i < s0.len() && #[trigger] s0[i].0@ == key;
                assert(s[i].0@ == key);
            }
            if key == k {
                assert(s[s0.len() as int].0@ == k);
            }
        }
        assert forall|key: Seq<char>| #[trigger] self@.contains_key(key) implies self@[key] == m0.insert(k, at)[key] by {
            let i = choose|i: int| 0 <= i < s.len() && #[trigger] s[i].0@ == key;
            lemma_pairs_map_at(s, i);
            if i < s0.len() {
                assert(s0[i] == s[i]);
                lemma_pairs_map_at(s0, i);
            }
        }
        assert(self@ =~= m0.insert(k, at));
    }

    /// Sets the instant of the tracked event `name` to `at`. Returns whether
    /// the event was tracked; an untracked name leaves the store unchanged.
    pub fn mark_event(&mut self, name: &String, at: Timestamp) -> (r: bool)
        requires
            old(self).wf(),
            at.wf(),
        ensures
            final(self).wf(),
            r == old(self)@.contains_key(name@),
            r ==> final(self)@ == old(self)@.insert(name@, at),
            !r ==> final(self)@ == old(self)@,
    {
        match self.find(name) {
            None => false,
            Some(i) => {
                let ghost s0 = self.entries@;
                let entry_name = self.entries[i].0.clone();
                self.entries.set(i, (entry_name, at));
                proof {
                    let s = self.entries@;
                    assert(s[i as int].0@ == name@);
                    assert forall|a: int, b: int|
                        0 <= a < s.len() && 0 <= b < s.len() && a != b implies #[trigger] s[a].0@ != #[trigger] s[b].0@ by {
                        assert(s0[a].0@ == s[a].0@);
                        assert(s0[b].0@ == s[b].0@);
                    }
                    assert forall|a: int| 0 <= a < s.len() implies (#[trigger] s[a]).1.wf() by {
                        if a != i { assert(s[a] == s0[a]); }
                    }
                    let m0 = pairs_map(s0);
                    assert forall|key: Seq<char>| #[trigger] self@.contains_key(key) <==> m0.insert(name@, at).contains_key(key) by {
                        if self@.contains_key(key) {
                            let j = choose|j: int| 0 <= j < s.len() && #[trigger] s[j].0@ == key;
                            assert(s0[j].0@ == key);
                        }
                        if m0.contains_key(key) {
                            let j = choose|j: int| 0 <= j < s0.len() && #[trigger] s0[j].0@ == key;
                            assert(s[j].0@ == key);
                        }
                        if key == name@ {
                            assert(s[i as int].0@ == key);
                        }
                    }
                    assert forall|key: Seq<char>| #[trigger] self@.contains_key(key) implies self@[key] == m0.insert(name@, at)[key] by {
                        let j = choose|j: int| 0 <= j < s.len() && #[trigger] s[j].0@ == key;
                        lemma_pairs_map_at(s, j);
                        if j != i {
                            assert(s0[j] == s[j]);
                            lemma_pairs_map_at(s0, j);
                        }
                    }
                    assert(self@ =~= m0.insert(name@, at));
                }
                true
            },
        }
    }

    /// Stops tracking the event `name`. Returns whether it was tracked; an
    /// untracked name leaves the store unchanged.
    pub fn remove_event(&mut self, name: &String) -> (r: bool)
        requires
            old(self).wf(),
        ensures
            final(self).wf(),
            r == old(self)@.contains_key(name@),
            final(self)@ == old(self)@.remove(name@),
    {
        match self.find(name) {
            None => {
                assert(self@ =~= self@.remove(name@));
                false
            },
            Some(i) => {
                let ghost s0 = self.entries@;
                let _ = self.entries.remove(i);
                proof {
                    let s = self.entries@;
                    assert forall|j: int| 0 <= j < s.len() implies #[trigger] s[j] == s0[if j < i { j } else { j + 1 }] by {}
                    assert forall|a: int, b: int|
                        0 <= a < s.len() && 0 <= b < s.len() && a != b implies #[trigger] s[a].0@ != #[trigger] s[b].0@ by {
                        assert(s[a] == s0[if a < i { a } else { a + 1 }]);
                        assert(s[b] == s0[if b < i { b } else { b + 1 }]);
                    }
                    assert forall|a: int| 0 <= a < s.len() implies (#[trigger] s[a]).1.wf() by {
                        assert(s[a] == s0[if a < i { a } else { a + 1 }]);
                    }
                    let m0 = pairs_map(s0);
                    assert forall|key: Seq<char>| #[trigger] self@.contains_key(key) <==> m0.remove(name@).contains_key(key) by {
                        if self@.contains_key(key) {
                            let j = choose|j: int| 0 <= j < s.len() && #[trigger] s[j].0@ == key;
                            let j0 = if j < i { j } else { j + 1 };
                            assert(s[j] == s0[j0]);
                            assert(s0[j0].0@ == key);
                            assert(j0 != i);
                            assert(s0[i as int].0@ != s0[j0].0@);
                        }
                        if m0.remove(name@).contains_key(key) {
                            let j0 = choose|j: int| 0 <= j < s0.len() && #[trigger] s0[j].0@ == key;
                            assert(j0 != i);
                            let j = if j0 < i { j0 } else { j0 - 1 };
                            assert(s[j] == s0[j0]);
                            assert(s[j].0@ == key);
                        }
                    }
                    assert forall|key: Seq<char>| #[trigger] self@.contains_key(key) implies self@[key] == m0.remove(name@)[key] by {
                        let j = choose|j: int| 0 <= j < s.len() && #[trigger] s[j].0@ == key;
                        let j0 = if j < i { j } else { j + 1 };
                        assert(s[j] == s0[j0]);
                        lemma_pairs_map_at(s, j);
                        lemma_pairs_map_at(s0, j0);
                    }
                    assert(self@ =~= m0.remove(name@));
                }
                true
            },
        }
    }

    /// Reads a store from the text of its file: a flat JSON object from
    /// event name to RFC 3339 instant. `None` for any other text.
    pub fn from_json_text(text: &str) -> (r: Option<EventStore>)
        ensures
            r is Some <==> decoded_store(text@) is Some,
            r matches Some(st) ==> st.wf() && decoded_store(text@) == Some(st@),
    {
        let pairs = match read_object(text) {
            Some(p) => p,
            None => return None,
        };
        let ghost m = text_map(pairs@);
        let mut entries: Vec<(String, Timestamp)> = Vec::new();
        let mut i: usize = 0;
        while i < pairs.len()
            invariant
                i <= pairs@.len(),
                entries@.len() == i,
                names_unique(pairs@),
                json_object_of(text@) == Some(m),
                m == text_map(pairs@),
                forall|j: int| 0 <= j < i ==> (#[trigger] entries@[j]).0@ == pairs@[j].0@
                    && spec_parse_timestamp(pairs@[j].1@) == Some(entries@[j].1)
                    && entries@[j].1.wf(),
            decreases pairs@.len() - i,
        {
            match parse_timestamp(&pairs[i].1) {
                Some(t) => {
                    let name = pairs[i].0.clone();
                    entries.push((name, t));
                },
                None => {
                    proof {
                        lemma_pairs_map_at(pairs@, i as int);
                        let k = pairs@[i as int].0@;
                        assert(m.contains_key(k) && m[k] == pairs@[i as int].1@);
                        assert(spec_parse_timestamp(m[k]) is None);
                    }
                    return None;
                },
            }
            i += 1;
        }
        let st = EventStore { entries };
        proof {
            let f = |v: String| spec_parse_timestamp(v@).unwrap();
            let g = |t: Timestamp| t;
            lemma_pairs_map_related(pairs@, entries@, f, g);
            assert(st@ =~= pairs_map(entries@).map_values(g));
            assert forall|k: Seq<char>| m.contains_key(k) implies (#[trigger] spec_parse_timestamp(m[k])) is Some by {
                let j = choose|j: int| 0 <= j < pairs@.len() && #[trigger] pairs@[j].0@ == k;
                lemma_pairs_map_at(pairs@, j);
                assert(entries@[j].0@ == k);
            }
            assert(all_instants(m));
            assert(st@ =~= m.map_values(|v: Seq<char>| spec_parse_timestamp(v).unwrap()));
        }
        Some(st)
    }

    /// Writes the store as the text of its file: a flat JSON object from
    /// event name to RFC 3339 instant.
    pub fn to_json_text(&self) -> (r: String)
        requires
            self.wf(),
        ensures
            r@ == json_object_text(stored_text(self@)),
    {
        let mut pairs: Vec<(String, String)> = Vec::new();
        let mut i: usize = 0;
        while i < self.entries.len()
            invariant
                self.wf(),
                i <= self.entries@.len(),
                pairs@.len() == i,
                forall|j: int| 0 <= j < i ==> (#[trigger] pairs@[j]).0@ == self.entries@[j].0@
                    && pairs@[j].1@ == rfc3339_text(self.entries@[j].1.secs as int, self.entries@[j].1.nanos as int),
            decreases self.entries@.len() - i,
        {
            let text = format_timestamp(&self.entries[i].1).unwrap();
            let name = self.entries[i].0.clone();
            pairs.push((name, text));
            i += 1;
        }
        proof {
            let f = |t: Timestamp| rfc3339_text(t.secs as int, t.nanos as int);
            let g = |v: String| v@;
            lemma_pairs_map_related(self.entries@, pairs@, f, g);
            assert(text_map(pairs@) =~= stored_text(self@));
        }
        write_object(&pairs).unwrap()
    }

    /// The phrase for how long before `now` the event `name` last happened,
    /// if it is tracked.
    pub fn time_since(&self, name: &String, now: &Timestamp) -> (r: Option<String>)
        requires
            self.wf(),
            now.wf(),
        ensures
            match self@.get(name@) {
                Some(t) => r matches Some(s) && s@ == precise_text(now.spec_seconds_since(t)),
                None => r is None,
            },
    {
        match self.find(name) {
            Some(i) => {
                proof {
                    lemma_pairs_map_at(self.entries@, i as int);
                }
                Some(time_since_text(now, &self.entries[i].1))
            },
            None => None,
        }
    }

    /// For each tracked event, its name and the phrase for how long before
    /// `now` it last happened.
    pub fn listing(&self, now: &Timestamp) -> (r: Vec<(String, String)>)
        requires
            self.wf(),
            now.wf(),
        ensures
            names_unique(r@),
            text_map(r@) == elapsed_texts(self@, *now),
    {
        let mut rows: Vec<(String, String)> = Vec::new();
        let mut i: usize = 0;
        while i < self.entries.len()
            invariant
                self.wf(),
                now.wf(),
                i <= self.entries@.len(),
                rows@.len() == i,
                forall|j: int| 0 <= j < i ==> (#[trigger] rows@[j]).0@ == self.entries@[j].0@
                    && rows@[j].1@ == precise_text(now.spec_seconds_since(self.entries@[j].1)),
            decreases self.entries@.len() - i,
        {
            let name = self.entries[i].0.clone();
            let text = time_since_text(now, &self.entries[i].1);
            rows.push((name, text));
            i += 1;
        }
        proof {
            let f = |t: Timestamp| precise_text(now.spec_seconds_since(t));
            let g = |v: String| v@;
            lemma_pairs_map_related(self.entries@, rows@, f, g);
            assert(text_map(rows@) =~= elapsed_texts(self@, *now));
        }
        rows
    }
}

} // verus!
