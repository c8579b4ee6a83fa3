//! The request tracker: fresh identifiers and one completion callback per
//! in-flight request.
//!
//! The tracker owns the only copy of each pending callback. `next_id` never
//! hands out the same identifier twice over the life of a connection, so a
//! response correlates with exactly one request; `resolve` removes the entry
//! as it returns the callback, so each callback can be run exactly once,
//! whatever order responses arrive in.

use vstd::prelude::*;

verus! {

/// The callback registered under `id` in `s`, if any.
pub open spec fn spec_lookup<C>(s: Seq<(u64, C)>, id: u64) -> Option<C>
    decreases s.len(),
{
    if s.len() == 0 {
        None
    } else if s[0].0 == id {
        Some(s[0].1)
    } else {
        spec_lookup(s.drop_first(), id)
    }
}

/// Whether no two entries share an identifier.
pub open spec fn spec_unique_ids<C>(s: Seq<(u64, C)>) -> bool {
    forall|i: int, j: int| 0 <= i < j < s.len() ==> s[i].0 != s[j].0
}

/// Whether some entry in `s` carries `id`.
pub open spec fn spec_has<C>(s: Seq<(u64, C)>, id: u64) -> bool {
    spec_lookup(s, id) is Some
}

/// `s` with the first entry carrying `id` removed.
pub open spec fn spec_remove_id<C>(s: Seq<(u64, C)>, id: u64) -> Seq<(u64, C)>
    decreases s.len(),
{
    if s.len() == 0 {
        s
    } else if s[0].0 == id {
        s.drop_first()
    } else {
        seq![s[0]] + spec_remove_id(s.drop_first(), id)
    }
}

/// Tracks the requests sent but not yet answered. `C` is the caller's
/// callback representation; the tracker never runs one, it only keeps and
/// returns them, so completion stays in the caller's hands.
pub struct Tracker<C> {
    next_id: u64,
    pending: Vec<(u64, C)>,
}

impl<C> Tracker<C> {
    /// The identifier the next request will get.
    pub closed spec fn spec_next_id(&self) -> u64 {
        self.next_id
    }

    /// The pending entries, in registration order.
    pub closed spec fn spec_pending(&self) -> Seq<(u64, C)> {
        self.pending@
    }

    /// Every pending identifier was handed out earlier (so it is below the
    /// counter) and no two entries share one.
    pub closed spec fn wf(&self) -> bool {
        &&& forall|i: int| 0 <= i < self.pending@.len() ==> self.pending@[i].0 < self.next_id
        &&& forall|i: int, j: int|
            0 <= i < j < self.pending@.len() ==> self.pending@[i].0 != self.pending@[j].0
    }

    /// An empty tracker, counting from zero.
    pub fn new() -> (r: Tracker<C>)
        ensures
            r.wf(),
            r.spec_next_id() == 0,
            r.spec_pending() == Seq::<(u64, C)>::empty(),
    {
        let r = Tracker { next_id: 0u64, pending: Vec::new() };
        proof {
            assert(r.pending@ =~= Seq::<(u64, C)>::empty());
        }
        r
    }

    /// The identifier the next registration will take; callers check it
    /// against the counter's ceiling before registering.
    pub fn next_request_id(&self) -> (r: u64)
        ensures
            r == self.spec_next_id(),
    {
        self.next_id
    }

    /// How many requests are in flight.
    pub fn pending_count(&self) -> (r: usize)
        ensures
            r == self.spec_pending().len(),
    {
        self.pending.len()
    }

    /// Registers `cb` under a fresh identifier and returns it. The new
    /// identifier differs from every pending one — indeed from every one
    /// ever handed out — and every earlier registration is kept untouched.
    pub fn register(&mut self, cb: C) -> (id: u64)
        requires
            old(self).wf(),
            old(self).spec_next_id() < u64::MAX,
        ensures
            final(self).wf(),
            id == old(self).spec_next_id(),
            !spec_has(old(self).spec_pending(), id),
            final(self).spec_next_id() == old(self).spec_next_id() + 1,
            final(self).spec_pending() == old(self).spec_pending().push((id, cb)),
            spec_lookup(final(self).spec_pending(), id) == Some(cb),
            forall|id2: u64|
                id2 != id ==> spec_lookup(final(self).spec_pending(), id2) == spec_lookup(
                    old(self).spec_pending(),
                    id2,
                ),
    {
        let id = self.next_id;
        proof {
            lemma_lookup_absent(self.pending@, id);
            lemma_lookup_snoc(self.pending@, (id, cb));
        }
        self.pending.push((id, cb));
        self.next_id = self.next_id + 1;
        id
    }

    /// Empties the tracker, handing back every pending entry in send
    /// order. The counter keeps its value, so identifiers stay unique for
    /// the life of the client; the caller resolves each returned callback
    /// with a failure rather than dropping it.
    pub fn drain(&mut self) -> (r: Vec<(u64, C)>)
        requires
            old(self).wf(),
        ensures
            final(self).wf(),
            final(self).spec_next_id() == old(self).spec_next_id(),
            final(self).spec_pending() == Seq::<(u64, C)>::empty(),
            r@ == old(self).spec_pending(),
    {
        let mut out: Vec<(u64, C)> = Vec::new();
        core::mem::swap(&mut out, &mut self.pending);
        proof {
            assert(self.pending@ =~= Seq::<(u64, C)>::empty());
        }
        out
    }

    /// Removes and returns the callback registered under `id`: the one
    /// entry bearing `id` if there is one — a response with no pending
    /// match returns nothing, which the caller logs and drops. Afterwards
    /// `id` is no longer pending, so resolving it again gives nothing:
    /// each callback leaves the tracker at most once.
    pub fn resolve(&mut self, id: u64) -> (r: Option<C>)
        requires
            old(self).wf(),
        ensures
            final(self).wf(),
            final(self).spec_next_id() == old(self).spec_next_id(),
            r == spec_lookup(old(self).spec_pending(), id),
            final(self).spec_pending() == spec_remove_id(old(self).spec_pending(), id),
            !spec_has(old(self).spec_pending(), id) ==> final(self).spec_pending() == old(
                self,
            ).spec_pending(),
            !spec_has(final(self).spec_pending(), id),
            forall|id2: u64|
                id2 != id ==> spec_lookup(final(self).spec_pending(), id2) == spec_lookup(
                    old(self).spec_pending(),
                    id2,
                ),
    {
        proof {
            lemma_remove_id_props(self.pending@, id);
        }
        let n = self.pending.len();
        let mut i: usize = 0;
        while i < n
            invariant
                i <= n,
                *self == *old(self),
                old(self).wf(),
                n == self.pending@.len(),
                forall|j: int| 0 <= j < i ==> self.pending@[j].0 != id,
            decreases n - i,
        {
            if self.pending[i].0 == id {
                proof {
                    lemma_lookup_at(self.pending@, id, i as int);
                    lemma_remove_id_at(self.pending@, id, i as int);
                    lemma_remove_id_props(self.pending@, id);
                }
                let ghost oldp = self.pending@;
                let entry = self.pending.remove(i);
                proof {
                    assert(self.pending@ =~= oldp.subrange(0, i as int) + oldp.subrange(
                        i as int + 1,
                        oldp.len() as int,
                    ));
                    assert(forall|j: int|
                        0 <= j < self.pending@.len() ==> self.pending@[j] == (if j < i {
                            oldp[j]
                        } else {
                            oldp[j + 1]
                        }));
                }
                return Some(entry.1);
            }
            i = i + 1;
        }
        proof {
            lemma_lookup_absent(self.pending@, id);
            assert(spec_remove_id(self.pending@, id) =~= self.pending@) by {
                lemma_remove_id_absent(self.pending@, id);
            }
        }
        None
    }
}

/// A sequence none of whose entries carries `id` looks it up to nothing.
pub proof fn lemma_lookup_absent<C>(s: Seq<(u64, C)>, id: u64)
    requires
        forall|j: int| 0 <= j < s.len() ==> s[j].0 != id,
    ensures
        spec_lookup(s, id) is None,
    decreases s.len(),
{
    if s.len() > 0 {
        assert(forall|j: int| 0 <= j < s.drop_first().len() ==> s.drop_first()[j] == s[j + 1]);
        lemma_lookup_absent(s.drop_first(), id);
    }
}

/// Appending an entry changes only its own identifier's lookup.
pub proof fn lemma_lookup_snoc<C>(s: Seq<(u64, C)>, x: (u64, C))
    ensures
        spec_lookup(s.push(x), x.0) == (if spec_has(s, x.0) {
            spec_lookup(s, x.0)
        } else {
            Some(x.1)
        }),
        forall|id2: u64| id2 != x.0 ==> spec_lookup(s.push(x), id2) == spec_lookup(s, id2),
    decreases s.len(),
{
    if s.len() == 0 {
        assert(s.push(x)[0] == x);
        assert(s.push(x).drop_first() =~= Seq::<(u64, C)>::empty());
        assert forall|id2: u64| id2 != x.0 implies spec_lookup(s.push(x), id2) == spec_lookup(
            s,
            id2,
        ) by {
            assert(spec_lookup(s.push(x), id2) == spec_lookup(s.push(x).drop_first(), id2));
        }
    } else {
        assert(s.push(x)[0] == s[0]);
        assert(s.push(x).drop_first() =~= s.drop_first().push(x));
        lemma_lookup_snoc(s.drop_first(), x);
        assert forall|id2: u64| id2 != x.0 implies spec_lookup(s.push(x), id2) == spec_lookup(
            s,
            id2,
        ) by {
            assert(spec_lookup(s.drop_first().push(x), id2) == spec_lookup(s.drop_first(), id2));
        }
    }
}

/// The first entry carrying `id`, at index `i`, is what lookup returns.
pub proof fn lemma_lookup_at<C>(s: Seq<(u64, C)>, id: u64, i: int)
    requires
        0 <= i < s.len(),
        s[i].0 == id,
        forall|j: int| 0 <= j < i ==> s[j].0 != id,
    ensures
        spec_lookup(s, id) == Some(s[i].1),
    decreases i,
{
    if i > 0 {
        assert(forall|j: int| 0 <= j < s.drop_first().len() ==> s.drop_first()[j] == s[j + 1]);
        lemma_lookup_at(s.drop_first(), id, i - 1);
    }
}

/// Removing the entry at the first index carrying `id` is what
/// `spec_remove_id` does.
pub proof fn lemma_remove_id_at<C>(s: Seq<(u64, C)>, id: u64, i: int)
    requires
        0 <= i < s.len(),
        s[i].0 == id,
        forall|j: int| 0 <= j < i ==> s[j].0 != id,
    ensures
        spec_remove_id(s, id) =~= s.remove(i),
    decreases i,
{
    if i == 0 {
        assert(s.remove(0) =~= s.drop_first());
    } else {
        assert(forall|j: int| 0 <= j < s.drop_first().len() ==> s.drop_first()[j] == s[j + 1]);
        lemma_remove_id_at(s.drop_first(), id, i - 1);
        assert(s.drop_first().remove(i - 1) =~= s.remove(i).drop_first());
        assert(seq![s[0]] + s.drop_first().remove(i - 1) =~= s.remove(i));
    }
}

/// Removing from a sequence without the identifier changes nothing.
pub proof fn lemma_remove_id_absent<C>(s: Seq<(u64, C)>, id: u64)
    requires
        forall|j: int| 0 <= j < s.len() ==> s[j].0 != id,
    ensures
        spec_remove_id(s, id) =~= s,
    decreases s.len(),
{
    if s.len() > 0 {
        assert(forall|j: int| 0 <= j < s.drop_first().len() ==> s.drop_first()[j] == s[j + 1]);
        lemma_remove_id_absent(s.drop_first(), id);
        assert(seq![s[0]] + s.drop_first() =~= s);
    }
}

/// What removal leaves behind: the identifier's own entry is gone for good
/// when entries are unique, and every other identifier's lookup is
/// untouched. This is the heart of exactly-once completion: once a
/// response has claimed its callback, a duplicate response carrying the
/// same identifier finds nothing.
pub proof fn lemma_remove_id_props<C>(s: Seq<(u64, C)>, id: u64)
    requires
        forall|i: int, j: int| 0 <= i < j < s.len() ==> s[i].0 != s[j].0,
    ensures
        !spec_has(spec_remove_id(s, id), id),
        forall|id2: u64|
            id2 != id ==> spec_lookup(spec_remove_id(s, id), id2) == spec_lookup(s, id2),
        spec_remove_id(s, id).len() == (if spec_has(s, id) {
            s.len() - 1
        } else {
            s.len() as int
        }),
    decreases s.len(),
{
    if s.len() > 0 {
        assert(forall|j: int| 0 <= j < s.drop_first().len() ==> s.drop_first()[j] == s[j + 1]);
        lemma_remove_id_props(s.drop_first(), id);
        if s[0].0 == id {
            lemma_lookup_absent_of_unique(s, id);
            assert(spec_remove_id(s, id) == s.drop_first());
        } else {
            let r = seq![s[0]] + spec_remove_id(s.drop_first(), id);
            assert(spec_remove_id(s, id) == r);
            assert(r.drop_first() =~= spec_remove_id(s.drop_first(), id));
            assert(r[0] == s[0]);
            assert forall|id2: u64| id2 != id implies spec_lookup(r, id2) == spec_lookup(
                s,
                id2,
            ) by {
                if s[0].0 == id2 {
                    assert(spec_lookup(r, id2) == Some(r[0].1));
                } else {
                    assert(spec_lookup(r, id2) == spec_lookup(r.drop_first(), id2));
                    assert(spec_lookup(s, id2) == spec_lookup(s.drop_first(), id2));
                }
            }
        }
    }
}

/// In a unique-identifier sequence whose head carries `id`, the tail does
/// not carry it.
proof fn lemma_lookup_absent_of_unique<C>(s: Seq<(u64, C)>, id: u64)
    requires
        s.len() > 0,
        s[0].0 == id,
        forall|i: int, j: int| 0 <= i < j < s.len() ==> s[i].0 != s[j].0,
    ensures
        !spec_has(s.drop_first(), id),
{
    assert(forall|j: int| 0 <= j < s.drop_first().len() ==> s.drop_first()[j] == s[j + 1]);
    lemma_lookup_absent(s.drop_first(), id);
}

} // verus!
