//! The peer registry: the shared directory of known peers, keyed by peer id.
//!
//! Discovery fills it, every outbound path reads it. Lookup, snapshot and
//! upsert are the whole interface; absence of a peer is not an error here,
//! callers decide the policy.

use vstd::prelude::*;
use crate::model::{PeerInfo, PeerInfoV};
use crate::strutil::str_eq;

verus! {

/// First entry of `s` whose id is `id`, if any.
pub open spec fn find_peer(s: Seq<PeerInfoV>, id: Seq<char>) -> Option<PeerInfoV>
    decreases s.len(),
{
    if s.len() == 0 {
        None
    } else if s[0].id == id {
        Some(s[0])
    } else {
        find_peer(s.drop_first(), id)
    }
}

/// No two entries of `s` share an id.
pub open spec fn peer_ids_unique(s: Seq<PeerInfoV>) -> bool {
    forall|i: int, j: int| 0 <= i < j < s.len() ==> s[i].id != s[j].id
}

/// If the first `k` entries do not match, the find skips them.
proof fn lemma_find_peer_skip(s: Seq<PeerInfoV>, id: Seq<char>, k: int)
    requires
        0 <= k <= s.len(),
        forall|j: int| 0 <= j < k ==> s[j].id != id,
    ensures
        find_peer(s, id) == find_peer(s.skip(k), id),
    decreases k,
{
    if k > 0 {
        assert(s.skip(k) =~= s.drop_first().skip(k - 1));
        lemma_find_peer_skip(s.drop_first(), id, k - 1);
    } else {
        assert(s.skip(0) =~= s);
    }
}

/// A matching entry at index `i`, with no match before it, is the find.
proof fn lemma_find_peer_at(s: Seq<PeerInfoV>, id: Seq<char>, i: int)
    requires
        0 <= i < s.len(),
        s[i].id == id,
        forall|j: int| 0 <= j < i ==> s[j].id != id,
    ensures
        find_peer(s, id) == Some(s[i]),
{
    lemma_find_peer_skip(s, id, i);
    assert(s.skip(i)[0] == s[i]);
}

/// With no matching entry at all, the find is `None`.
proof fn lemma_find_peer_none(s: Seq<PeerInfoV>, id: Seq<char>)
    requires
        forall|j: int| 0 <= j < s.len() ==> s[j].id != id,
    ensures
        find_peer(s, id) is None,
{
    lemma_find_peer_skip(s, id, s.len() as int);
    assert(s.skip(s.len() as int) =~= Seq::<PeerInfoV>::empty());
}

/// `s` with `p` written in: in place of the first entry under the same id,
/// or appended when the id is new.
pub open spec fn upsert_spec(s: Seq<PeerInfoV>, p: PeerInfoV) -> Seq<PeerInfoV>
    decreases s.len(),
{
    if s.len() == 0 {
        seq![p]
    } else if s[0].id == p.id {
        seq![p] + s.drop_first()
    } else {
        seq![s[0]] + upsert_spec(s.drop_first(), p)
    }
}

/// Writing in at the first matching index is updating that index.
proof fn lemma_upsert_spec_at(s: Seq<PeerInfoV>, p: PeerInfoV, i: int)
    requires
        0 <= i < s.len(),
        s[i].id == p.id,
        forall|j: int| 0 <= j < i ==> s[j].id != p.id,
    ensures
        upsert_spec(s, p) == s.update(i, p),
    decreases i,
{
    if i == 0 {
        assert(upsert_spec(s, p) =~= s.update(0, p));
    } else {
        lemma_upsert_spec_at(s.drop_first(), p, i - 1);
        assert(upsert_spec(s, p) == seq![s[0]] + upsert_spec(s.drop_first(), p));
        assert(s.update(i, p) =~= seq![s[0]] + s.drop_first().update(i - 1, p));
    }
}

/// Writing in an absent id is appending.
proof fn lemma_upsert_spec_absent(s: Seq<PeerInfoV>, p: PeerInfoV)
    requires
        forall|j: int| 0 <= j < s.len() ==> s[j].id != p.id,
    ensures
        upsert_spec(s, p) == s.push(p),
    decreases s.len(),
{
    if s.len() == 0 {
        assert(upsert_spec(s, p) =~= s.push(p));
    } else {
        lemma_upsert_spec_absent(s.drop_first(), p);
        assert(upsert_spec(s, p) == seq![s[0]] + s.drop_first().push(p));
        assert(s.push(p) =~= seq![s[0]] + s.drop_first().push(p));
    }
}

/// Directory of known peers. The discovery mechanism upserts entries; all
/// outbound paths read them. Ids are unique.
pub struct PeerRegistry {
    entries: Vec<PeerInfo>,
}

impl PeerRegistry {
    /// The registry as a sequence of peer views, in insertion order.
    pub closed spec fn view(&self) -> Seq<PeerInfoV> {
        self.entries.deep_view()
    }

    /// Well-formedness: ids are unique.
    pub open spec fn wf(&self) -> bool {
        peer_ids_unique(self@)
    }

    /// An empty registry.
    pub fn new() -> (r: PeerRegistry)
        ensures
            r.wf(),
            r@ == Seq::<PeerInfoV>::empty(),
    {
        let r = PeerRegistry { entries: Vec::new() };
        proof {
            assert(r@ =~= Seq::<PeerInfoV>::empty());
        }
        r
    }

    /// Number of known peers.
    pub fn len(&self) -> (r: usize)
        ensures
            r == self@.len(),
    {
        self.entries.len()
    }

    /// Index of the entry for `id`, if one exists.
    fn index_of(&self, id: &str) -> (r: Option<usize>)
        ensures
            match r {
                Some(i) => i < self@.len() && self@[i as int].id == id@ && forall|j: int|
                    0 <= j < i ==> self@[j].id != id@,
                None => forall|j: int| 0 <= j < self@.len() ==> self@[j].id != id@,
            },
    {
        let n = self.entries.len();
        let mut i: usize = 0;
        while i < n
            invariant
                n == self@.len(),
                n == self.entries.len(),
                i <= n,
                forall|j: int| 0 <= j < i ==> self@[j].id != id@,
            decreases n - i,
        {
            assert(self@[i as int] == self.entries[i as int].deep_view());
            if str_eq(self.entries[i].id.as_str(), id) {
                return Some(i);
            }
            i += 1;
        }
        None
    }

    /// Looks a peer up by id.
    pub fn get(&self, id: &str) -> (r: Option<PeerInfo>)
        ensures
            r.deep_view() == find_peer(self@, id@),
    {
        match self.index_of(id) {
            Some(i) => {
                let p = self.entries[i].duplicate();
                proof {
                    lemma_find_peer_at(self@, id@, i as int);
                }
                Some(p)
            },
            None => {
                proof {
                    lemma_find_peer_none(self@, id@);
                }
                None
            },
        }
    }

    /// The first peer known, if any: the "whatever discovery has found so
    /// far" choice used when no explicit target is named.
    pub fn first(&self) -> (r: Option<PeerInfo>)
        ensures
            self@.len() == 0 ==> r is None,
            self@.len() > 0 ==> (r matches Some(p) && p.deep_view() == self@[0]),
    {
        if self.entries.len() == 0 {
            None
        } else {
            Some(self.entries[0].duplicate())
        }
    }

    /// A snapshot of all entries, in insertion order.
    pub fn snapshot(&self) -> (r: Vec<PeerInfo>)
        ensures
            r.deep_view() == self@,
    {
        let n = self.entries.len();
        let mut out: Vec<PeerInfo> = Vec::new();
        let mut i: usize = 0;
        while i < n
            invariant
                n == self@.len(),
                n == self.entries.len(),
                i <= n,
                out.deep_view() =~= self@.subrange(0, i as int),
            decreases n - i,
        {
            let ghost prev = out.deep_view();
            let p = self.entries[i].duplicate();
            proof {
                assert(p.deep_view() == self@[i as int]);
            }
            out.push(p);
            i += 1;
            proof {
                assert(out.deep_view() =~= prev.push(p.deep_view()));
                assert(out.deep_view() =~= self@.subrange(0, i as int));
            }
        }
        proof {
            assert(self@.subrange(0, n as int) =~= self@);
        }
        out
    }

    /// Inserts `peer`, replacing any existing entry with the same id.
    pub fn upsert(&mut self, peer: PeerInfo)
        requires
            old(self).wf(),
        ensures
            final(self).wf(),
            final(self)@ == upsert_spec(old(self)@, peer.deep_view()),
            find_peer(final(self)@, peer.deep_view().id) == Some(peer.deep_view()),
            // Every other peer is kept, and nothing else appears.
            forall|id: Seq<char>| id != peer.deep_view().id ==> find_peer(final(self)@, id)
                == find_peer(old(self)@, id),
    {
        let ghost pv = peer.deep_view();
        match self.index_of(peer.id.as_str()) {
            Some(i) => {
                let entry = &mut self.entries[i];
                *entry = peer;
                proof {
                    assert(self@ =~= old(self)@.update(i as int, pv));
                    lemma_upsert_spec_at(old(self)@, pv, i as int);
                    assert(self.wf());
                    lemma_find_peer_at(self@, pv.id, i as int);
                    assert forall|id: Seq<char>| id != pv.id implies find_peer(self@, id)
                        == find_peer(old(self)@, id) by {
                        lemma_find_agrees_after_update(old(self)@, self@, id);
                    }
                }
            },
            None => {
                self.entries.push(peer);
                proof {
                    assert(self@ =~= old(self)@.push(pv));
                    lemma_upsert_spec_absent(old(self)@, pv);
                    assert(forall|j: int| 0 <= j < old(self)@.len() ==> #[trigger] self@[j]
                        == old(self)@[j]);
                    assert(self.wf());
                    lemma_find_peer_at(self@, pv.id, old(self)@.len() as int);
                    assert forall|id: Seq<char>| id != pv.id implies find_peer(self@, id)
                        == find_peer(old(self)@, id) by {
                        lemma_find_agrees_after_update(old(self)@, self@, id);
                    }
                }
            },
        }
    }
}

/// Two registries that agree on all entries matching `id`, in order, find the
/// same peer for `id`. Stated for the two shapes `upsert` produces: the new
/// sequence is the old one with one entry (whose id is not `id`) replaced or
/// appended.
proof fn lemma_find_agrees_after_update(a: Seq<PeerInfoV>, b: Seq<PeerInfoV>, id: Seq<char>)
    requires
        a.len() <= b.len(),
        b.len() <= a.len() + 1,
        forall|j: int| 0 <= j < a.len() && #[trigger] a[j].id == id ==> b[j] == a[j],
        forall|j: int| 0 <= j < a.len() && #[trigger] b[j].id == id ==> b[j] == a[j],
        b.len() == a.len() + 1 ==> b[a.len() as int].id != id,
    ensures
        find_peer(b, id) == find_peer(a, id),
    decreases a.len(),
{
    if a.len() == 0 {
        if b.len() == 1 {
            assert(find_peer(b, id) == find_peer(b.drop_first(), id));
            assert(b.drop_first() =~= Seq::<PeerInfoV>::empty());
        }
    } else {
        if a[0].id == id || b[0].id == id {
            assert(b[0] == a[0]);
        } else {
            let a1 = a.drop_first();
            let b1 = b.drop_first();
            assert(forall|j: int| 0 <= j < a1.len() ==> a1[j] == a[j + 1] && b1[j] == b[j + 1]);
            lemma_find_agrees_after_update(a1, b1, id);
        }
    }
}

} // verus!
