//! The bounded peer-name registry: a mapping from short identity prefix to
//! the display name first observed for it, fed by gossip traffic and shared
//! by the dispatcher and both consumers.
//!
//! Names are recorded first-seen-wins: a prefix that is already present keeps
//! its name whatever later messages carry. Growth is bounded crudely: once
//! the registry holds more than [`PEER_REGISTRY_CAP`] entries it is cleared
//! in full before the next insert.

use vstd::prelude::*;

verus! {

/// Number of entries above which the registry is cleared before inserting.
pub const PEER_REGISTRY_CAP: usize = 1000;

/// The mapping that a sequence of (prefix, name) entries denotes.
pub open spec fn entries_map(s: Seq<(String, String)>) -> Map<Seq<char>, Seq<char>>
    decreases s.len(),
{
    if s.len() == 0 {
        Map::empty()
    } else {
        entries_map(s.drop_last()).insert(s.last().0@, s.last().1@)
    }
}

/// Entry keys are pairwise distinct.
pub open spec fn distinct_keys(s: Seq<(String, String)>) -> bool {
    forall|i: int, j: int| 0 <= i < j < s.len() ==> (#[trigger] s[i]).0@ != (#[trigger] s[j]).0@
}

proof fn lemma_entries_map(s: Seq<(String, String)>)
    requires
        distinct_keys(s),
    ensures
        entries_map(s).dom().finite(),
        entries_map(s).dom().len() == s.len(),
        forall|k: Seq<char>| #[trigger] entries_map(s).contains_key(k)
            <==> exists|i: int| 0 <= i < s.len() && (#[trigger] s[i]).0@ == k,
        forall|i: int| 0 <= i < s.len()
            ==> entries_map(s).contains_key((#[trigger] s[i]).0@)
                && entries_map(s)[s[i].0@] == s[i].1@,
    decreases s.len(),
{
    if s.len() > 0 {
        let t = s.drop_last();
        lemma_entries_map(t);
        assert forall|i: int| 0 <= i < s.len()
            implies entries_map(s).contains_key((#[trigger] s[i]).0@)
                && entries_map(s)[s[i].0@] == s[i].1@ by {
            if i < s.len() - 1 {
                assert(t[i] == s[i]);
                assert(s[i].0@ != s[s.len() - 1].0@);
            }
        }
        assert(!entries_map(t).contains_key(s.last().0@));
    }
}

/// What one observation does to the registry mapping: clear the whole table
/// first when it is over the cap, then insert the name only if the prefix is
/// absent.
pub open spec fn spec_observe(
    m: Map<Seq<char>, Seq<char>>,
    prefix: Seq<char>,
    name: Seq<char>,
) -> Map<Seq<char>, Seq<char>> {
    let base = if m.dom().len() > PEER_REGISTRY_CAP { Map::<Seq<char>, Seq<char>>::empty() } else { m };
    if base.contains_key(prefix) {
        base
    } else {
        base.insert(prefix, name)
    }
}

/// The peer registry. Its mathematical content is the mapping from prefix to
/// display name.
pub struct PeerRegistry {
    entries: Vec<(String, String)>,
}

impl View for PeerRegistry {
    type V = Map<Seq<char>, Seq<char>>;

    closed spec fn view(&self) -> Map<Seq<char>, Seq<char>> {
        entries_map(self.entries@)
    }
}

impl PeerRegistry {
    /// Well-formedness: entry keys are distinct, so the entry list and the
    /// mapping carry the same information.
    pub closed spec fn wf(self) -> bool {
        distinct_keys(self.entries@)
    }

    /// The registry mapping is finite.
    pub proof fn lemma_finite(self)
        requires
            self.wf(),
        ensures
            self@.dom().finite(),
    {
        lemma_entries_map(self.entries@);
    }

    proof fn lemma_wf_len(self)
        requires
            self.wf(),
        ensures
            self@.dom().finite(),
            self@.dom().len() == self.entries@.len(),
    {
        lemma_entries_map(self.entries@);
    }

    /// A fresh, empty registry.
    pub fn new() -> (r: Self)
        ensures
            r.wf(),
            r@ == Map::<Seq<char>, Seq<char>>::empty(),
    {
        let r = PeerRegistry { entries: Vec::new() };
        proof {
            assert(r@ =~= Map::<Seq<char>, Seq<char>>::empty());
        }
        r
    }

    /// Number of entries.
    pub fn len(&self) -> (r: usize)
        requires
            self.wf(),
        ensures
            r == self@.dom().len(),
    {
        proof {
            self.lemma_wf_len();
        }
        self.entries.len()
    }

    fn find(&self, prefix: &str) -> (r: Option<usize>)
        ensures
            r matches Some(i) ==> i < self.entries@.len() && self.entries@[i as int].0@ == prefix@,
            r is None ==> forall|i: int| 0 <= i < self.entries@.len()
                ==> (#[trigger] self.entries@[i]).0@ != prefix@,
    {
        let p: String = prefix.to_owned();
        let n = self.entries.len();
        let mut i: usize = 0;
        while i < n
            invariant
                p@ == prefix@,
                n == self.entries@.len(),
                i <= n,
                forall|j: int| 0 <= j < i ==> (#[trigger] self.entries@[j]).0@ != prefix@,
            decreases n - i,
        {
            if self.entries[i].0.eq(&p) {
                return Some(i);
            }
            i = i + 1;
        }
        None
    }

    /// Record a display name for an identity prefix, first-seen-wins, with
    /// the clear-on-overflow bound applied before the insert.
    pub fn observe(&mut self, prefix: &str, name: &str)
        requires
            old(self).wf(),
        ensures
            final(self).wf(),
            final(self)@ == spec_observe(old(self)@, prefix@, name@),
    {
        proof {
            self.lemma_wf_len();
        }
        if self.entries.len() > PEER_REGISTRY_CAP {
            self.entries.clear();
            proof {
                assert(self@ =~= Map::<Seq<char>, Seq<char>>::empty());
            }
        }
        proof {
            lemma_entries_map(self.entries@);
        }
        let found = self.find(prefix);
        if found.is_none() {
            let ghost before = self.entries@;
            self.entries.push((prefix.to_owned(), name.to_owned()));
            proof {
                assert(self.entries@.drop_last() =~= before);
                assert(self@ == entries_map(before).insert(prefix@, name@));
            }
        }
    }

    /// The display name observed for a prefix, if any.
    pub fn lookup(&self, prefix: &str) -> (r: Option<String>)
        requires
            self.wf(),
        ensures
            r matches Some(n) ==> self@.contains_key(prefix@) && n@ == self@[prefix@],
            r is None ==> !self@.contains_key(prefix@),
    {
        proof {
            lemma_entries_map(self.entries@);
        }
        match self.find(prefix) {
            Some(i) => Some(self.entries[i].1.clone()),
            None => None,
        }
    }

    /// A snapshot of the registry: every (prefix, name) pair, each key once,
    /// in no promised order.
    pub fn list(&self) -> (r: Vec<(String, String)>)
        requires
            self.wf(),
        ensures
            distinct_keys(r@),
            entries_map(r@) == self@,
    {
        let n = self.entries.len();
        let mut out: Vec<(String, String)> = Vec::new();
        let mut i: usize = 0;
        while i < n
            invariant
                n == self.entries@.len(),
                i <= n,
                out@.len() == i,
                forall|j: int| 0 <= j < i
                    ==> (#[trigger] out@[j]).0@ == self.entries@[j].0@
                        && out@[j].1@ == self.entries@[j].1@,
            decreases n - i,
        {
            out.push((self.entries[i].0.clone(), self.entries[i].1.clone()));
            i = i + 1;
        }
        proof {
            lemma_entries_map_congruent(out@, self.entries@);
        }
        out
    }
}

/// Two entry lists with pointwise equal views denote the same mapping.
proof fn lemma_entries_map_congruent(a: Seq<(String, String)>, b: Seq<(String, String)>)
    requires
        a.len() == b.len(),
        forall|j: int| 0 <= j < a.len()
            ==> (#[trigger] a[j]).0@ == b[j].0@ && a[j].1@ == b[j].1@,
    ensures
        distinct_keys(b) ==> distinct_keys(a),
        entries_map(a) == entries_map(b),
    decreases a.len(),
{
    if a.len() > 0 {
        assert(forall|j: int| 0 <= j < a.len() - 1
            ==> (#[trigger] a.drop_last()[j]).0@ == b.drop_last()[j].0@
                && a.drop_last()[j].1@ == b.drop_last()[j].1@);
        lemma_entries_map_congruent(a.drop_last(), b.drop_last());
    }
}

/// Law: names are recorded first-write-wins. After a prefix has been
/// observed with a name, observing it again — with the same or any other
/// name — leaves the registry unchanged, as long as the registry is within
/// its cap so that no clearing intervenes.
pub proof fn lemma_observe_first_write_wins(
    m: Map<Seq<char>, Seq<char>>,
    k: Seq<char>,
    v1: Seq<char>,
    v2: Seq<char>,
)
    requires
        m.dom().finite(),
        spec_observe(m, k, v1).dom().len() <= PEER_REGISTRY_CAP,
    ensures
        spec_observe(m, k, v1).contains_key(k),
        spec_observe(spec_observe(m, k, v1), k, v1) == spec_observe(m, k, v1),
        spec_observe(spec_observe(m, k, v1), k, v2) == spec_observe(m, k, v1),
        !m.contains_key(k) || m.dom().len() > PEER_REGISTRY_CAP
            ==> spec_observe(m, k, v1)[k] == v1,
{
    let m1 = spec_observe(m, k, v1);
    assert(m1.contains_key(k));
}

/// Law: the clear-on-overflow bound. Observing any fresh pair while the
/// registry is over its cap clears the table first, so immediately after
/// that insert the registry holds exactly the one new entry.
pub proof fn lemma_observe_cap_clears(
    m: Map<Seq<char>, Seq<char>>,
    k: Seq<char>,
    v: Seq<char>,
)
    requires
        m.dom().finite(),
        m.dom().len() > PEER_REGISTRY_CAP,
    ensures
        spec_observe(m, k, v) == map![k => v],
        spec_observe(m, k, v).dom().len() == 1,
{
    assert(spec_observe(m, k, v) =~= map![k => v]);
    assert(map![k => v].dom() =~= set![k]);
}

} // verus!
