//! The session store and the envelope that is sealed for the client.

use vstd::prelude::*;
use crate::primitives::pairs_view;

pub use crate::codec::{ChaCha20Poly1305SessionManager, SessionManager};

verus! {

/// What a sequence of entries means as a map: later entries win.
pub open spec fn map_of_entries(es: Seq<(Seq<char>, Seq<u8>)>) -> Map<Seq<char>, Seq<u8>>
    decreases es.len(),
{
    if es.len() == 0 {
        Map::empty()
    } else {
        map_of_entries(es.drop_last()).insert(es.last().0, es.last().1)
    }
}

/// No two entries share a key.
pub open spec fn keys_unique(es: Seq<(Seq<char>, Seq<u8>)>) -> bool {
    forall|i: int, j: int| 0 <= i < j < es.len() ==> es[i].0 != es[j].0
}

proof fn lemma_map_of_entries_domain(es: Seq<(Seq<char>, Seq<u8>)>, k: Seq<char>)
    ensures
        map_of_entries(es).contains_key(k) <==> exists|i: int| 0 <= i < es.len() && es[i].0 == k,
    decreases es.len(),
{
    if es.len() > 0 {
        lemma_map_of_entries_domain(es.drop_last(), k);
        if map_of_entries(es).contains_key(k) && k != es.last().0 {
            let i = choose|i: int| 0 <= i < es.len() - 1 && es.drop_last()[i].0 == k;
            assert(es[i].0 == k);
        }
        if exists|i: int| 0 <= i < es.len() && es[i].0 == k {
            let i = choose|i: int| 0 <= i < es.len() && es[i].0 == k;
            if i < es.len() - 1 {
                assert(es.drop_last()[i].0 == k);
            }
        }
    }
}

proof fn lemma_map_of_entries_value(es: Seq<(Seq<char>, Seq<u8>)>, i: int)
    requires
        keys_unique(es),
        0 <= i < es.len(),
    ensures
        map_of_entries(es).contains_key(es[i].0),
        map_of_entries(es)[es[i].0] == es[i].1,
    decreases es.len(),
{
    if i < es.len() - 1 {
        assert(es.drop_last()[i] == es[i]);
        lemma_map_of_entries_value(es.drop_last(), i);
    }
}

proof fn lemma_map_of_entries_last(es: Seq<(Seq<char>, Seq<u8>)>, i: int)
    requires
        0 <= i < es.len(),
        forall|j: int| i < j < es.len() ==> es[j].0 != es[i].0,
    ensures
        map_of_entries(es).contains_key(es[i].0),
        map_of_entries(es)[es[i].0] == es[i].1,
    decreases es.len(),
{
    if i < es.len() - 1 {
        assert(es.drop_last()[i] == es[i]);
        lemma_map_of_entries_last(es.drop_last(), i);
    }
}

/// Key/value byte store carried inside a session.
#[derive(Debug)]
pub struct Session {
    entries: Vec<(String, Vec<u8>)>,
}

impl View for Session {
    type V = Map<Seq<char>, Seq<u8>>;

    open spec fn view(&self) -> Map<Seq<char>, Seq<u8>> {
        map_of_entries(self.entries_spec())
    }
}

impl Session {
    /// The entries, in the order in which their keys were first stored.
    pub closed spec fn entries_spec(&self) -> Seq<(Seq<char>, Seq<u8>)> {
        pairs_view(self.entries@)
    }

    /// No key is stored twice.
    pub closed spec fn wf(&self) -> bool {
        keys_unique(self.entries_spec())
    }

    proof fn lemma_lookup(&self, i: int)
        requires
            0 <= i < self.entries@.len(),
            self.wf() || forall|j: int|
                i < j < self.entries@.len() ==> self.entries@[j].0@ != self.entries@[i].0@,
        ensures
            self@.contains_key(self.entries@[i].0@),
            self@[self.entries@[i].0@] == self.entries@[i].1@,
    {
        if self.wf() {
            lemma_map_of_entries_value(self.entries_spec(), i);
        } else {
            lemma_map_of_entries_last(self.entries_spec(), i);
        }
    }

    proof fn lemma_absent(&self, k: Seq<char>)
        requires
            forall|i: int| 0 <= i < self.entries@.len() ==> self.entries@[i].0@ != k,
        ensures
            !self@.contains_key(k),
    {
        lemma_map_of_entries_domain(self.entries_spec(), k);
    }

    /// A copy of the entries, in order.
    pub(crate) fn entries_to_vec(&self) -> (r: Vec<(String, Vec<u8>)>)
        ensures
            pairs_view(r@) == self.entries_spec(),
    {
        let mut out: Vec<(String, Vec<u8>)> = Vec::new();
        let mut i: usize = 0;
        while i < self.entries.len()
            invariant
                i <= self.entries@.len(),
                pairs_view(out@) == pairs_view(self.entries@.take(i as int)),
            decreases self.entries@.len() - i,
        {
            let k = self.entries[i].0.clone();
            let v = self.entries[i].1.clone();
            assert(v@ =~= self.entries@[i as int].1@);
            let ghost prev = out@;
            out.push((k, v));
            proof {
                let cur = pairs_view(out@);
                let want = pairs_view(self.entries@.take(i + 1));
                assert(pairs_view(prev).len() == i);
                assert forall|j: int| 0 <= j < i + 1 implies cur[j] == want[j] by {
                    if j < i {
                        assert(out@[j] == prev[j]);
                        assert(pairs_view(prev)[j] == pairs_view(self.entries@.take(i as int))[j]);
                    }
                }
                assert(cur =~= want);
            }
            i = i + 1;
        }
        assert(self.entries@.take(i as int) =~= self.entries@);
        out
    }

    /// A session holding the given entries, where a later entry replaces an
    /// earlier one with the same key.
    pub(crate) fn from_entries(es: &Vec<(String, Vec<u8>)>) -> (r: Session)
        ensures
            r.wf(),
            r@ == map_of_entries(pairs_view(es@)),
    {
        let mut s = Session::new();
        let mut i: usize = 0;
        while i < es.len()
            invariant
                i <= es@.len(),
                s.wf(),
                s@ == map_of_entries(pairs_view(es@.take(i as int))),
            decreases es@.len() - i,
        {
            let v = es[i].1.clone();
            assert(v@ =~= es@[i as int].1@);
            let _ = s.insert_bytes(es[i].0.as_str(), v);
            proof {
                let pv = pairs_view(es@.take(i + 1));
                assert(pv.drop_last() =~= pairs_view(es@.take(i as int)));
            }
            i = i + 1;
        }
        assert(es@.take(i as int) =~= es@);
        s
    }

    /// Every key of `self` is in `other` with the same bytes.
    fn included_in(&self, other: &Session) -> (r: bool)
        ensures
            r == (forall|k: Seq<char>| #[trigger]
                self@.contains_key(k) ==> other@.contains_key(k) && other@[k] == self@[k]),
    {
        let mut i: usize = self.entries.len();
        while i > 0
            invariant
                i <= self.entries@.len(),
                forall|j: int|
                    #![trigger self.entries@[j]]
                    i <= j < self.entries@.len() ==> other@.contains_key(self.entries@[j].0@)
                        && other@[self.entries@[j].0@] == self@[self.entries@[j].0@],
            decreases i,
        {
            let k = self.entries[i - 1].0.as_str();
            let ghost kv = self.entries@[i - 1].0@;
            match self.find(&self.entries[i - 1].0) {
                Some(last) => {
                    proof { self.lemma_lookup(last as int); }
                    match other.get_bytes(k) {
                        Some(v) => {
                            if !vec_eq(v, &self.entries[last].1) {
                                return false;
                            }
                        },
                        None => {
                            return false;
                        },
                    }
                },
                None => {
                    proof { assert(false); }
                },
            }
            i = i - 1;
        }
        proof {
            assert forall|k: Seq<char>| #[trigger]
                self@.contains_key(k) implies other@.contains_key(k) && other@[k] == self@[k] by {
                lemma_map_of_entries_domain(self.entries_spec(), k);
                let j = choose|j: int| 0 <= j < self.entries_spec().len() && self.entries_spec()[j].0 == k;
                assert(self.entries@[j].0@ == k);
            }
        }
        true
    }

    /// Create an empty session.
    pub fn new() -> (r: Session)
        ensures
            r.wf(),
            r@ == Map::<Seq<char>, Seq<u8>>::empty(),
    {
        let r = Session { entries: Vec::new() };
        assert(r.entries_spec() =~= Seq::empty());
        r
    }

    /// The position of the last entry with `key`.
    fn find(&self, key: &String) -> (r: Option<usize>)
        ensures
            r matches Some(i) ==> i < self.entries@.len() && self.entries@[i as int].0@ == key@
                && forall|j: int| i < j < self.entries@.len() ==> self.entries@[j].0@ != key@,
            r is None ==> forall|i: int|
                0 <= i < self.entries@.len() ==> self.entries@[i].0@ != key@,
    {
        let mut i: usize = self.entries.len();
        while i > 0
            invariant
                i <= self.entries@.len(),
                forall|j: int| i <= j < self.entries@.len() ==> self.entries@[j].0@ != key@,
            decreases i,
        {
            if self.entries[i - 1].0 == *key {
                return Some(i - 1);
            }
            i = i - 1;
        }
        None
    }

    /// The bytes stored at `key`, if any.
    pub fn get_bytes(&self, key: &str) -> (r: Option<&Vec<u8>>)
        ensures
            r is Some <==> self@.contains_key(key@),
            r matches Some(v) ==> v@ == self@[key@],
    {
        let k = key.to_owned();
        match self.find(&k) {
            Some(i) => {
                proof { self.lemma_lookup(i as int); }
                Some(&self.entries[i].1)
            },
            None => {
                proof { self.lemma_absent(key@); }
                None
            },
        }
    }

    /// Whether bytes are stored at `key`.
    pub fn contains_key(&self, key: &str) -> (r: bool)
        ensures
            r == self@.contains_key(key@),
    {
        let k = key.to_owned();
        match self.find(&k) {
            Some(i) => {
                proof { self.lemma_lookup(i as int); }
                true
            },
            None => {
                proof { self.lemma_absent(key@); }
                false
            },
        }
    }

    /// Store `bytes` at `key`, returning the bytes that were there before.
    pub fn insert_bytes(&mut self, key: &str, bytes: Vec<u8>) -> (r: Option<Vec<u8>>)
        requires
            old(self).wf(),
        ensures
            final(self).wf(),
            final(self)@ == old(self)@.insert(key@, bytes@),
            r is Some <==> old(self)@.contains_key(key@),
            r matches Some(v) ==> v@ == old(self)@[key@],
    {
        let k = key.to_owned();
        let ghost before = self.entries_spec();
        let ghost new_bytes = bytes@;
        match self.find(&k) {
            Some(i) => {
                proof { self.lemma_lookup(i as int); }
                let mut slot: (String, Vec<u8>) = (k, bytes);
                std::mem::swap(&mut self.entries[i], &mut slot);
                proof {
                    let after = self.entries_spec();
                    assert(before[i as int].0 == key@);
                    assert(after =~= before.update(i as int, (key@, new_bytes)));
                    assert(keys_unique(after)) by {
                        assert forall|a: int, b: int| 0 <= a < b < after.len() implies after[a].0
                            != after[b].0 by {
                            assert(after[a].0 == before[a].0);
                            assert(after[b].0 == before[b].0);
                        }
                    }
                    assert forall|q: Seq<char>|
                        #![trigger map_of_entries(after).contains_key(q)]
                        map_of_entries(after).contains_key(q) == map_of_entries(
                            before,
                        ).insert(key@, new_bytes).contains_key(q) by {
                        lemma_map_of_entries_domain(after, q);
                        lemma_map_of_entries_domain(before, q);
                        if q == key@ {
                            assert(after[i as int].0 == q);
                        }
                        if exists|j: int| 0 <= j < before.len() && before[j].0 == q {
                            let j = choose|j: int| 0 <= j < before.len() && before[j].0 == q;
                            if j != i {
                                assert(after[j].0 == q);
                            }
                        }
                    }
                    assert forall|q: Seq<char>| #[trigger]
                        map_of_entries(after).contains_key(q) implies map_of_entries(after)[q]
                        == map_of_entries(before).insert(key@, new_bytes)[q] by {
                        lemma_map_of_entries_domain(after, q);
                        let j = choose|j: int| 0 <= j < after.len() && after[j].0 == q;
                        lemma_map_of_entries_value(after, j);
                        if j != i {
                            lemma_map_of_entries_value(before, j);
                        }
                    }
                    assert(map_of_entries(after) =~= map_of_entries(before).insert(key@, new_bytes));
                }
                Some(slot.1)
            },
            None => {
                proof { self.lemma_absent(key@); }
                self.entries.push((k, bytes));
                proof {
                    let after = self.entries_spec();
                    assert(after =~= before.push((key@, new_bytes)));
                    assert(after.drop_last() =~= before);
                }
                None
            },
        }
    }

    /// Remove the bytes stored at `key`, returning them.
    pub fn remove_bytes(&mut self, key: &str) -> (r: Option<Vec<u8>>)
        requires
            old(self).wf(),
        ensures
            final(self).wf(),
            final(self)@ == old(self)@.remove(key@),
            r is Some <==> old(self)@.contains_key(key@),
            r matches Some(v) ==> v@ == old(self)@[key@],
    {
        let k = key.to_owned();
        let ghost before = self.entries_spec();
        match self.find(&k) {
            Some(i) => {
                proof { self.lemma_lookup(i as int); }
                let removed = self.entries.remove(i);
                proof {
                    let after = self.entries_spec();
                    assert(before[i as int].0 == key@);
                    assert(after =~= before.remove(i as int));
                    assert(keys_unique(after)) by {
                        assert forall|a: int, b: int| 0 <= a < b < after.len() implies after[a].0
                            != after[b].0 by {
                            let a0 = if a < i { a } else { a + 1 };
                            let b0 = if b < i { b } else { b + 1 };
                            assert(after[a] == before[a0]);
                            assert(after[b] == before[b0]);
                        }
                    }
                    assert forall|q: Seq<char>|
                        #![trigger map_of_entries(after).contains_key(q)]
                        map_of_entries(after).contains_key(q) == map_of_entries(before).remove(
                            key@,
                        ).contains_key(q) by {
                        lemma_map_of_entries_domain(after, q);
                        lemma_map_of_entries_domain(before, q);
                        if exists|j: int| 0 <= j < after.len() && after[j].0 == q {
                            let j = choose|j: int| 0 <= j < after.len() && after[j].0 == q;
                            let j0 = if j < i { j } else { j + 1 };
                            assert(before[j0].0 == q);
                            assert(j0 != i);
                        }
                        if q != key@ && exists|j: int| 0 <= j < before.len() && before[j].0 == q {
                            let j = choose|j: int| 0 <= j < before.len() && before[j].0 == q;
                            assert(j != i);
                            let j1 = if j < i { j } else { j - 1 };
                            assert(after[j1].0 == q);
                        }
                    }
                    assert forall|q: Seq<char>| #[trigger]
                        map_of_entries(after).contains_key(q) implies map_of_entries(after)[q]
                        == map_of_entries(before).remove(key@)[q] by {
                        lemma_map_of_entries_domain(after, q);
                        let j = choose|j: int| 0 <= j < after.len() && after[j].0 == q;
                        lemma_map_of_entries_value(after, j);
                        let j0 = if j < i { j } else { j + 1 };
                        assert(before[j0] == after[j]);
                        lemma_map_of_entries_value(before, j0);
                    }
                    assert(map_of_entries(after) =~= map_of_entries(before).remove(key@));
                }
                Some(removed.1)
            },
            None => {
                proof { self.lemma_absent(key@); }
                proof { assert(self@.remove(key@) =~= self@); }
                None
            },
        }
    }

    /// Remove every entry.
    pub fn clear(&mut self)
        requires
            old(self).wf(),
        ensures
            final(self).wf(),
            final(self)@ == Map::<Seq<char>, Seq<u8>>::empty(),
    {
        self.entries.clear();
        assert(self.entries_spec() =~= Seq::empty());
    }
}

fn vec_eq(a: &Vec<u8>, b: &Vec<u8>) -> (r: bool)
    ensures
        r == (a@ == b@),
{
    if a.len() != b.len() {
        return false;
    }
    let mut i: usize = 0;
    while i < a.len()
        invariant
            i <= a@.len(),
            a@.len() == b@.len(),
            forall|j: int| 0 <= j < i ==> a@[j] == b@[j],
        decreases a@.len() - i,
    {
        if a[i] != b[i] {
            return false;
        }
        i = i + 1;
    }
    assert(a@ =~= b@);
    true
}

impl PartialEq for Session {
    fn eq(&self, other: &Session) -> (r: bool) {
        let r = self.included_in(other) && other.included_in(self);
        proof {
            if r {
                assert(self@ =~= other@);
            }
        }
        r
    }
}

impl vstd::std_specs::cmp::PartialEqSpecImpl for Session {
    open spec fn obeys_eq_spec() -> bool {
        true
    }

    open spec fn eq_spec(&self, other: &Session) -> bool {
        self@ == other@
    }
}

impl Eq for Session {
}

impl Clone for Session {
    fn clone(&self) -> (r: Session)
        ensures
            r@ == self@,
            r.wf() == self.wf(),
    {
        Session { entries: self.entries_to_vec() }
    }
}

/// An expiry instant: seconds and nanoseconds since the Unix epoch, in UTC.
#[derive(Clone, Copy, Debug, PartialEq, Eq, Structural)]
pub struct Expiry {
    pub secs: i64,
    pub nanos: u32,
}

/// The expiry as a plain pair.
pub open spec fn expiry_pair(e: Option<Expiry>) -> Option<(i64, u32)> {
    match e {
        Some(x) => Some((x.secs, x.nanos)),
        None => None,
    }
}

/// The expiry read back from a plain pair.
pub open spec fn expiry_of_pair(e: Option<(i64, u32)>) -> Option<Expiry> {
    match e {
        Some(x) => Some(Expiry { secs: x.0, nanos: x.1 }),
        None => None,
    }
}

/// Envelope sealed for the client: an optional expiry, which is carried but
/// not interpreted, and the session.
#[derive(Debug)]
pub struct SessionTransport {
    pub expires: Option<Expiry>,
    pub session: Session,
}

impl View for SessionTransport {
    type V = (Option<Expiry>, Map<Seq<char>, Seq<u8>>);

    open spec fn view(&self) -> (Option<Expiry>, Map<Seq<char>, Seq<u8>>) {
        (self.expires, self.session@)
    }
}

impl PartialEq for SessionTransport {
    fn eq(&self, other: &SessionTransport) -> (r: bool) {
        let same_expiry = match (self.expires, other.expires) {
            (Some(a), Some(b)) => a.secs == b.secs && a.nanos == b.nanos,
            (None, None) => true,
            _ => false,
        };
        same_expiry && self.session == other.session
    }
}

impl vstd::std_specs::cmp::PartialEqSpecImpl for SessionTransport {
    open spec fn obeys_eq_spec() -> bool {
        true
    }

    open spec fn eq_spec(&self, other: &SessionTransport) -> bool {
        self@ == other@
    }
}

impl Eq for SessionTransport {
}

impl Clone for SessionTransport {
    fn clone(&self) -> (r: SessionTransport)
        ensures
            r@ == self@,
            r.session.wf() == self.session.wf(),
    {
        SessionTransport { expires: self.expires, session: self.session.clone() }
    }
}

impl SessionTransport {
    /// Pair an expiry with a session.
    pub fn new(expires: Option<Expiry>, session: Session) -> (r: SessionTransport)
        ensures
            r.expires == expires,
            r.session == session,
    {
        SessionTransport { expires, session }
    }
}

} // verus!
