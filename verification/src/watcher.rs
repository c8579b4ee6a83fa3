//! The file watcher's decisions: which change events reach which watch
//! registrations, and what unregistering one watch leaves to do.
//!
//! The operating-system monitor, its thread and its channel live outside;
//! they feed change events in and carry out the watch and unwatch calls
//! this module's decisions call for. Registrations are compared by path
//! text; a `watch_filtered` predicate, being the caller's own closure, is
//! applied by the caller on top of the path rules here.

use crate::app_state::spec_starts_with;
use vstd::prelude::*;
use vstd::string::{StrSliceExecFns, StringExecFns};

verus! {

/// Token a watch is registered under, to route deliveries.
#[derive(Debug, Clone, Copy, PartialEq, Eq, Structural)]
pub struct WatchToken(pub usize);

/// The kinds of change event the watcher cares to route; everything else
/// the monitor reports is dropped.
#[derive(Debug, Clone, Copy, PartialEq, Eq, Structural)]
pub enum FsEventKind {
    Create,
    Remove,
    Modify,
    ModifyMetadata,
    RenameBoth,
    Other,
}

/// One change event: its kind and the paths it names.
#[derive(Debug, PartialEq, Eq)]
pub struct FsEvent {
    pub kind: FsEventKind,
    pub paths: Vec<String>,
}

/// One watch registration.
#[derive(Debug)]
pub struct Watchee {
    pub path: String,
    pub recursive: bool,
    pub token: WatchToken,
}

/// Whether `p` lies under `base` on a component boundary.
pub open spec fn spec_is_path_prefix(p: Seq<char>, base: Seq<char>) -> bool {
    spec_starts_with(p, base) && (p.len() == base.len() || base.len() == 0 || p[base.len() as int]
        == '/' || base[base.len() - 1] == '/')
}

/// The directory holding `p`: the text before its last separator.
pub open spec fn spec_parent(p: Seq<char>) -> Option<Seq<char>>
    decreases p.len(),
{
    if p.len() == 0 {
        None
    } else if p[p.len() - 1] == '/' {
        Some(p.drop_last())
    } else {
        spec_parent(p.drop_last())
    }
}

/// Whether a registration for `base` (recursive or not) covers `p`: the
/// base itself always, anything under it when recursive, and its direct
/// children when not.
pub open spec fn spec_applies(base: Seq<char>, recursive: bool, p: Seq<char>) -> bool {
    spec_is_path_prefix(p, base) && (recursive || p == base || spec_parent(p) == Some(base))
}

/// Whether a registration wants an event: the single-path kinds must name
/// exactly one path the registration covers; a rename carries the old and
/// the new name and either may match; anything else is dropped. An event
/// with the wrong number of paths is rejected, never trusted.
pub open spec fn spec_wants_event(w: Watchee, e: FsEvent) -> bool {
    match e.kind {
        FsEventKind::Create | FsEventKind::Remove | FsEventKind::Modify
            | FsEventKind::ModifyMetadata => e.paths@.len() == 1 && spec_applies(
            w.path@,
            w.recursive,
            e.paths@[0]@,
        ),
        FsEventKind::RenameBoth => e.paths@.len() == 2 && (spec_applies(
            w.path@,
            w.recursive,
            e.paths@[0]@,
        ) || spec_applies(w.path@, w.recursive, e.paths@[1]@)),
        FsEventKind::Other => false,
    }
}

/// When the last separator sits at `k`, the parent is what precedes it.
proof fn lemma_parent_at(s: Seq<char>, k: int)
    requires
        0 <= k < s.len(),
        s[k] == '/',
        forall|j: int| k < j < s.len() ==> s[j] != '/',
    ensures
        spec_parent(s) == Some(s.take(k)),
    decreases s.len(),
{
    if k == s.len() - 1 {
        assert(s.drop_last() =~= s.take(k));
    } else {
        lemma_parent_at(s.drop_last(), k);
        assert(s.drop_last().take(k) =~= s.take(k));
    }
}

/// Without a separator there is no parent.
proof fn lemma_parent_absent(s: Seq<char>)
    requires
        forall|j: int| 0 <= j < s.len() ==> s[j] != '/',
    ensures
        spec_parent(s) is None,
    decreases s.len(),
{
    if s.len() > 0 {
        lemma_parent_absent(s.drop_last());
    }
}

/// Whether `p` equals `q`, character for character.
fn chars_eq(p: &String, q: &String) -> (r: bool)
    ensures
        r == (p@ == q@),
{
    p.eq(q)
}

/// Whether `p` lies under `base` on a component boundary.
fn is_path_prefix(p: &String, base: &String) -> (r: bool)
    ensures
        r == spec_is_path_prefix(p@, base@),
{
    let pn = p.as_str().unicode_len();
    let bn = base.as_str().unicode_len();
    if pn < bn {
        return false;
    }
    let mut i: usize = 0;
    while i < bn
        invariant
            i <= bn <= pn,
            pn == p@.len(),
            bn == base@.len(),
            forall|j: int| 0 <= j < i ==> p@[j] == base@[j],
        decreases bn - i,
    {
        if p.as_str().get_char(i) != base.as_str().get_char(i) {
            proof {
                assert(p@.subrange(0, bn as int)[i as int] != base@[i as int]);
            }
            return false;
        }
        i = i + 1;
    }
    proof {
        assert(p@.subrange(0, bn as int) =~= base@);
    }
    if pn == bn || bn == 0 {
        return true;
    }
    p.as_str().get_char(bn) == '/' || base.as_str().get_char(bn - 1) == '/'
}

/// Whether a registration covers `p`.
pub fn applies_to_path(w: &Watchee, p: &String) -> (r: bool)
    ensures
        r == spec_applies(w.path@, w.recursive, p@),
{
    if !is_path_prefix(p, &w.path) {
        return false;
    }
    if w.recursive || chars_eq(p, &w.path) {
        return true;
    }
    // does the watched directory hold `p` directly?
    let pn = p.as_str().unicode_len();
    let mut k: usize = pn;
    while k > 0 && p.as_str().get_char(k - 1) != '/'
        invariant
            k <= pn,
            pn == p@.len(),
            forall|j: int| k <= j < pn ==> p@[j] != '/',
        decreases k,
    {
        k = k - 1;
    }
    if k == 0 {
        proof {
            lemma_parent_absent(p@);
        }
        return false;
    }
    proof {
        lemma_parent_at(p@, k as int - 1);
    }
    let parent = String::from_str(p.as_str().substring_char(0, k - 1));
    chars_eq(&parent, &w.path)
}

/// Whether a registration wants an event.
pub fn wants_event(w: &Watchee, e: &FsEvent) -> (r: bool)
    ensures
        r == spec_wants_event(*w, *e),
{
    match e.kind {
        FsEventKind::Create | FsEventKind::Remove | FsEventKind::Modify
            | FsEventKind::ModifyMetadata => {
            if e.paths.len() != 1 {
                return false;
            }
            applies_to_path(w, &e.paths[0])
        },
        FsEventKind::RenameBoth => {
            if e.paths.len() != 2 {
                return false;
            }
            applies_to_path(w, &e.paths[0]) || applies_to_path(w, &e.paths[1])
        },
        FsEventKind::Other => false,
    }
}

/// Appends a registration and says whether the monitor must start
/// watching its path: only when no earlier registration uses it.
pub fn watch_plan(watchees: &mut Vec<Watchee>, w: Watchee) -> (os_watch: bool)
    ensures
        final(watchees)@ == old(watchees)@.push(w),
        os_watch == !spec_some_uses_path(old(watchees)@, w.path@),
{
    let n = watchees.len();
    let mut fresh = true;
    let mut i: usize = 0;
    while i < n
        invariant
            i <= n,
            *watchees == *old(watchees),
            n == watchees@.len(),
            fresh ==> forall|j: int| 0 <= j < i ==> watchees@[j].path@ != w.path@,
            !fresh ==> spec_some_uses_path(watchees@, w.path@),
        decreases n - i,
    {
        if fresh && chars_eq(&watchees[i].path, &w.path) {
            fresh = false;
        }
        i = i + 1;
    }
    watchees.push(w);
    fresh
}

/// What carrying out an unwatch requires of the monitor.
#[derive(Debug)]
pub struct UnwatchPlan {
    /// Whether the path must be unwatched at the monitor: true when no
    /// other registration still uses it.
    pub os_unwatch: bool,
    /// Paths to watch again, with their modes: when the removed
    /// registration was recursive, registrations under it may have been
    /// relying on it at the monitor.
    pub readd: Vec<(String, bool)>,
}

/// The registrations still relying on paths under `base`, in order.
pub open spec fn spec_readd(s: Seq<Watchee>, base: Seq<char>) -> Seq<(Seq<char>, bool)>
    decreases s.len(),
{
    if s.len() == 0 {
        Seq::empty()
    } else {
        (if spec_is_path_prefix(s[0].path@, base) {
            seq![(s[0].path@, s[0].recursive)]
        } else {
            Seq::empty()
        }) + spec_readd(s.drop_first(), base)
    }
}

/// The text of a readd list.
pub open spec fn spec_readd_views(s: Seq<(String, bool)>) -> Seq<(Seq<char>, bool)>
    decreases s.len(),
{
    if s.len() == 0 {
        Seq::empty()
    } else {
        seq![(s[0].0@, s[0].1)] + spec_readd_views(s.drop_first())
    }
}

proof fn lemma_readd_snoc(s: Seq<Watchee>, x: Watchee, base: Seq<char>)
    ensures
        spec_readd(s.push(x), base) == spec_readd(s, base) + (if spec_is_path_prefix(
            x.path@,
            base,
        ) {
            seq![(x.path@, x.recursive)]
        } else {
            Seq::<(Seq<char>, bool)>::empty()
        }),
    decreases s.len(),
{
    if s.len() == 0 {
        assert(s.push(x)[0] == x);
        assert(s.push(x).drop_first() =~= Seq::<Watchee>::empty());
        assert(spec_readd(Seq::<Watchee>::empty(), base) == Seq::<(Seq<char>, bool)>::empty());
        if spec_is_path_prefix(x.path@, base) {
            assert(spec_readd(s.push(x), base) =~= seq![(x.path@, x.recursive)]);
            assert(spec_readd(s, base) + seq![(x.path@, x.recursive)] =~= seq![
                (x.path@, x.recursive),
            ]);
        } else {
            assert(spec_readd(s.push(x), base) =~= Seq::<(Seq<char>, bool)>::empty());
            assert(spec_readd(s, base) + Seq::<(Seq<char>, bool)>::empty() =~= Seq::<
                (Seq<char>, bool),
            >::empty());
        }
    } else {
        assert(s.push(x)[0] == s[0]);
        assert(s.push(x).drop_first() =~= s.drop_first().push(x));
        lemma_readd_snoc(s.drop_first(), x, base);
        if spec_is_path_prefix(x.path@, base) {
            assert(spec_readd(s.push(x), base) =~= spec_readd(s, base) + seq![
                (x.path@, x.recursive),
            ]);
        } else {
            assert(spec_readd(s.push(x), base) =~= spec_readd(s, base) + Seq::<
                (Seq<char>, bool),
            >::empty());
        }
    }
}

proof fn lemma_readd_views_snoc(s: Seq<(String, bool)>, x: (String, bool))
    ensures
        spec_readd_views(s.push(x)) == spec_readd_views(s).push((x.0@, x.1)),
    decreases s.len(),
{
    if s.len() == 0 {
        assert(s.push(x)[0] == x);
        assert(s.push(x).drop_first() =~= Seq::<(String, bool)>::empty());
        assert(spec_readd_views(Seq::<(String, bool)>::empty()) == Seq::<
            (Seq<char>, bool),
        >::empty());
        assert(spec_readd_views(s.push(x)) =~= seq![(x.0@, x.1)]);
        assert(spec_readd_views(s).push((x.0@, x.1)) =~= seq![(x.0@, x.1)]);
    } else {
        assert(s.push(x)[0] == s[0]);
        assert(s.push(x).drop_first() =~= s.drop_first().push(x));
        lemma_readd_views_snoc(s.drop_first(), x);
        assert(spec_readd_views(s.push(x)) =~= spec_readd_views(s).push((x.0@, x.1)));
    }
}

/// Whether some registration in `s` uses `path`.
pub open spec fn spec_some_uses_path(s: Seq<Watchee>, path: Seq<char>) -> bool {
    exists|i: int| 0 <= i < s.len() && s[i].path@ == path
}

/// Removes the first registration carrying this token and path, and says
/// what the monitor must do about it: unwatch the path when no other
/// registration uses it, and — when the removed registration was
/// recursive — watch again every remaining path under it, in order. When
/// nothing matches, nothing changes and nothing is to be done.
pub fn unwatch_plan(watchees: &mut Vec<Watchee>, path: &String, token: WatchToken) -> (r: Option<
    UnwatchPlan,
>)
    ensures
        match r {
            Some(plan) => exists|i: int|
                {
                    &&& 0 <= i < old(watchees)@.len()
                    &&& old(watchees)@[i].token == token
                    &&& old(watchees)@[i].path@ == path@
                    &&& final(watchees)@ == old(watchees)@.remove(i)
                    &&& (forall|j: int|
                        0 <= j < i ==> !(old(watchees)@[j].token == token && old(watchees)@[j].path@
                            == path@))
                    &&& plan.os_unwatch == !spec_some_uses_path(final(watchees)@, path@)
                    &&& spec_readd_views(plan.readd@) == (if old(watchees)@[i].recursive {
                        spec_readd(final(watchees)@, path@)
                    } else {
                        Seq::<(Seq<char>, bool)>::empty()
                    })
                },
            None => final(watchees)@ == old(watchees)@ && (forall|j: int|
                0 <= j < old(watchees)@.len() ==> !(old(watchees)@[j].token == token && old(
                    watchees,
                )@[j].path@ == path@)),
        },
{
    let n = watchees.len();
    let mut i: usize = 0;
    while i < n
        invariant
            i <= n,
            *watchees == *old(watchees),
            n == watchees@.len(),
            forall|j: int|
                0 <= j < i ==> !(watchees@[j].token == token && watchees@[j].path@ == path@),
        decreases n - i,
    {
        let hit = watchees[i].token.0 == token.0 && chars_eq(&watchees[i].path, path);
        if hit {
            let ghost idx = i as int;
            let removed = watchees.remove(i);
            let ghost removed_rec = removed.recursive;
            proof {
                assert(watchees@ =~= old(watchees)@.remove(idx));
            }
            // does any remaining registration still use the path?
            let m = watchees.len();
            let mut still_used = false;
            let mut j: usize = 0;
            while j < m
                invariant
                    j <= m,
                    m == watchees@.len(),
                    still_used ==> spec_some_uses_path(watchees@, path@),
                    !still_used ==> forall|k: int| 0 <= k < j ==> watchees@[k].path@ != path@,
                decreases m - j,
            {
                if !still_used && chars_eq(&watchees[j].path, path) {
                    still_used = true;
                }
                j = j + 1;
            }
            // what a recursive registration may have been covering
            let mut readd: Vec<(String, bool)> = Vec::new();
            if removed.recursive {
                let mut k: usize = 0;
                proof {
                    assert(watchees@.take(0) =~= Seq::<Watchee>::empty());
                    assert(spec_readd_views(readd@) =~= spec_readd(watchees@.take(0), path@));
                }
                while k < m
                    invariant
                        k <= m,
                        m == watchees@.len(),
                        spec_readd_views(readd@) == spec_readd(watchees@.take(k as int), path@),
                    decreases m - k,
                {
                    proof {
                        assert(watchees@.take(k as int).push(watchees@[k as int]) =~= watchees@.take(
                            k as int + 1,
                        ));
                        lemma_readd_snoc(watchees@.take(k as int), watchees@[k as int], path@);
                    }
                    if is_path_prefix(&watchees[k].path, path) {
                        let ghost oldreadd = readd@;
                        let entry = (watchees[k].path.clone(), watchees[k].recursive);
                        proof {
                            lemma_readd_views_snoc(oldreadd, entry);
                        }
                        readd.push(entry);
                        proof {
                            assert(spec_readd_views(readd@) =~= spec_readd(
                                watchees@.take(k as int + 1),
                                path@,
                            ));
                        }
                    } else {
                        proof {
                            assert(spec_readd_views(readd@) + Seq::<(Seq<char>, bool)>::empty()
                                =~= spec_readd_views(readd@));
                        }
                    }
                    k = k + 1;
                }
                proof {
                    assert(watchees@.take(m as int) =~= watchees@);
                }
            } else {
                proof {
                    assert(readd@ =~= Seq::<(String, bool)>::empty());
                }
            }
            return Some(UnwatchPlan { os_unwatch: !still_used, readd });
        }
        i = i + 1;
    }
    None
}

} // verus!
