//! The walk over the namespaces of a datastore.
//!
//! The mark phase of a garbage collection visits a namespace and the
//! namespaces below it, down to a given number of levels. The walk keeps
//! the namespaces still to visit on a stack of its own, so that its depth
//! does not rest on the call stack, and a caller can stop between any two
//! namespaces. Listing the sub-namespaces of a namespace is the caller's
//! part: the walk hands out a namespace, the caller visits it and tells
//! the walk which sub-namespaces it found.

use crate::error::NamespaceError;
use crate::namespace::{push_component, BackupNamespace};
use vstd::prelude::*;

verus! {

/// A namespace to visit, and how many levels below it are still to visit.
pub struct WalkEntry {
    pub ns: Seq<Seq<char>>,
    pub levels: nat,
}

/// The state of a walk.
pub struct WalkView {
    /// The namespaces still to visit; the last one comes next.
    pub pending: Seq<WalkEntry>,
    /// The namespace handed out last, until its sub-namespaces are told.
    pub current: Option<WalkEntry>,
}

/// The sub-namespaces of `ns` with the given names, in their order; the
/// first name that is no valid component below `ns` decides the error.
pub open spec fn children_of(ns: Seq<Seq<char>>, names: Seq<Seq<char>>) -> Result<
    Seq<Seq<Seq<char>>>,
    NamespaceError,
>
    decreases names.len(),
{
    if names.len() == 0 {
        Ok(Seq::<Seq<Seq<char>>>::empty())
    } else {
        match push_component(ns, names[0]) {
            Err(e) => Err(e),
            Ok(child) => match children_of(ns, names.skip(1)) {
                Err(e) => Err(e),
                Ok(rest) => Ok(seq![child] + rest),
            },
        }
    }
}

/// The entries for the given namespaces, last namespace first, each with
/// `levels` levels still to visit below it.
pub open spec fn entries_reversed(children: Seq<Seq<Seq<char>>>, levels: nat) -> Seq<WalkEntry> {
    Seq::new(
        children.len(),
        |i: int| WalkEntry { ns: children[children.len() - 1 - i], levels: levels },
    )
}

/// A walk over a namespace and the namespaces below it.
pub struct NamespaceWalk {
    pending: Vec<(BackupNamespace, usize)>,
    current: Option<(BackupNamespace, usize)>,
}

impl View for NamespaceWalk {
    type V = WalkView;

    /// The state of the walk.
    closed spec fn view(&self) -> WalkView {
        WalkView {
            pending: Seq::new(
                self.pending@.len(),
                |i: int| WalkEntry { ns: self.pending@[i].0@, levels: self.pending@[i].1 as nat },
            ),
            current: match self.current {
                Some(c) => Some(WalkEntry { ns: c.0@, levels: c.1 as nat }),
                None => None,
            },
        }
    }
}

impl NamespaceWalk {
    /// Every namespace that the walk holds is well-formed.
    pub closed spec fn wf(&self) -> bool {
        &&& forall|i: int| 0 <= i < self.pending@.len() ==> (#[trigger] self.pending@[i]).0.wf()
        &&& match self.current {
            Some(c) => c.0.wf(),
            None => true,
        }
    }

    /// A walk that visits `start` and the namespaces up to `max_depth`
    /// levels below it; with zero levels it visits `start` alone.
    pub fn new(start: BackupNamespace, max_depth: usize) -> (r: Self)
        requires
            start.wf(),
        ensures
            r.wf(),
            r@ == (WalkView {
                pending: seq![WalkEntry { ns: start@, levels: max_depth as nat }],
                current: None,
            }),
    {
        let mut pending: Vec<(BackupNamespace, usize)> = Vec::new();
        pending.push((start, max_depth));
        let r = NamespaceWalk { pending, current: None };
        assert(r@.pending =~= seq![WalkEntry { ns: start@, levels: max_depth as nat }]);
        r
    }

    /// Hands out the namespace to visit next, or `None` when the walk is done.
    pub fn next(&mut self) -> (r: Option<BackupNamespace>)
        requires
            old(self).wf(),
        ensures
            final(self).wf(),
            match r {
                Some(ns) => {
                    &&& ns.wf()
                    &&& old(self)@.pending.len() > 0
                    &&& ns@ == old(self)@.pending.last().ns
                    &&& final(self)@ == (WalkView {
                        pending: old(self)@.pending.drop_last(),
                        current: Some(old(self)@.pending.last()),
                    })
                },
                None => old(self)@.pending.len() == 0 && final(self)@ == (WalkView {
                    pending: old(self)@.pending,
                    current: None,
                }),
            },
    {
        match self.pending.pop() {
            Some((ns, levels)) => {
                let handed = ns.clone();
                self.current = Some((ns, levels));
                proof {
                    assert(self@.pending =~= old(self)@.pending.drop_last());
                }
                Some(handed)
            },
            None => {
                self.current = None;
                proof {
                    assert(self@.pending =~= old(self)@.pending);
                }
                None
            },
        }
    }

    /// Takes the names of the sub-namespaces found below the namespace
    /// handed out last. If levels are left below it, they are visited
    /// next, in the order given, each before the namespaces that were
    /// pending. Fails, and changes nothing, if a name is no valid
    /// component below that namespace. Without a namespace handed out,
    /// or told twice, nothing happens.
    pub fn expand(&mut self, names: &Vec<String>) -> (r: Result<(), NamespaceError>)
        requires
            old(self).wf(),
        ensures
            final(self).wf(),
            match old(self)@.current {
                Some(cur) if cur.levels > 0 => match children_of(
                    cur.ns,
                    names@.map_values(|s: String| s@),
                ) {
                    Ok(children) => r is Ok && final(self)@ == (WalkView {
                        pending: old(self)@.pending + entries_reversed(
                            children,
                            (cur.levels - 1) as nat,
                        ),
                        current: None,
                    }),
                    Err(e) => r == Err::<(), NamespaceError>(e) && final(self)@ == old(self)@,
                },
                _ => r is Ok && final(self)@ == (WalkView {
                    pending: old(self)@.pending,
                    current: None,
                }),
            },
    {
        let (parent, levels) = match self.current.take() {
            Some(c) => c,
            None => {
                proof {
                    assert(self@.pending =~= old(self)@.pending);
                }
                return Ok(());
            },
        };
        if levels == 0 {
            proof {
                assert(self@.pending =~= old(self)@.pending);
            }
            return Ok(());
        }
        let ghost all = names@.map_values(|s: String| s@);
        let mut kids: Vec<BackupNamespace> = Vec::new();
        let mut i: usize = 0;
        proof {
            assert(all.skip(0) =~= all);
        }
        while i < names.len()
            invariant
                i <= names@.len(),
                parent.wf(),
                old(self).wf(),
                self.pending == old(self).pending,
                self.current is None,
                old(self).current == Some((parent, levels)),
                levels > 0,
                all == names@.map_values(|s: String| s@),
                kids@.len() == i,
                forall|j: int| 0 <= j < i ==> (#[trigger] kids@[j]).wf(),
                children_of(parent@, all) == match children_of(parent@, all.skip(i as int)) {
                    Ok(rest) => Ok::<Seq<Seq<Seq<char>>>, NamespaceError>(
                        kids@.map_values(|k: BackupNamespace| k@) + rest,
                    ),
                    Err(e) => Err::<Seq<Seq<Seq<char>>>, NamespaceError>(e),
                },
            decreases names@.len() - i,
        {
            proof {
                let rest = all.skip(i as int);
                assert(rest[0] == names@[i as int]@);
                assert(rest.skip(1) =~= all.skip(i as int + 1));
            }
            match BackupNamespace::from_parent_ns(&parent, names[i].clone()) {
                Ok(child) => {
                    proof {
                        let before = kids@.map_values(|k: BackupNamespace| k@);
                        let after = kids@.push(child).map_values(|k: BackupNamespace| k@);
                        assert(after =~= before.push(child@));
                        match children_of(parent@, all.skip(i as int + 1)) {
                            Ok(rest) => {
                                assert(before + (seq![child@] + rest) =~= after + rest);
                            },
                            Err(_) => {},
                        }
                    }
                    kids.push(child);
                },
                Err(e) => {
                    self.current = Some((parent, levels));
                    proof {
                        assert(self@.pending =~= old(self)@.pending);
                    }
                    return Err(e);
                },
            }
            i += 1;
        }
        let ghost children = kids@.map_values(|k: BackupNamespace| k@);
        proof {
            assert(all.skip(names@.len() as int) =~= Seq::<Seq<char>>::empty());
            assert(children + Seq::<Seq<Seq<char>>>::empty() =~= children);
        }
        let ghost base = self@.pending;
        let ghost target = entries_reversed(children, (levels - 1) as nat);
        while kids.len() > 0
            invariant
                self.wf(),
                self.current is None,
                forall|j: int| 0 <= j < kids@.len() ==> (#[trigger] kids@[j]).wf(),
                kids@.len() <= children.len(),
                forall|j: int| 0 <= j < kids@.len() ==> (#[trigger] kids@[j])@ == children[j],
                levels > 0,
                target == entries_reversed(children, (levels - 1) as nat),
                self@.pending == base + target.take(children.len() - kids@.len()),
            decreases kids@.len(),
        {
            let ghost before = self@.pending;
            let ghost done = children.len() - kids@.len();
            let kid = kids.pop().unwrap();
            self.pending.push((kid, levels - 1));
            proof {
                assert(target[done] == WalkEntry { ns: kid@, levels: (levels - 1) as nat });
                assert(self@.pending =~= before.push(target[done]));
                assert(target.take(done + 1) =~= target.take(done).push(target[done]));
                assert(base + target.take(done + 1) =~= (base + target.take(done)).push(
                    target[done],
                ));
            }
        }
        proof {
            assert(target.take(children.len() as int) =~= target);
            assert(base =~= old(self)@.pending);
        }
        Ok(())
    }
}

} // verus!

verus! {

/// The sub-namespaces found below `ns`, where `found` gives the names
/// found below every namespace; none where a name is no valid component.
pub open spec fn found_below(
    found: spec_fn(Seq<Seq<char>>) -> Seq<Seq<char>>,
    ns: Seq<Seq<char>>,
) -> Seq<Seq<Seq<char>>> {
    match children_of(ns, found(ns)) {
        Ok(children) => children,
        Err(_) => Seq::<Seq<Seq<char>>>::empty(),
    }
}

/// The namespace `ns` and the namespaces up to `levels` levels below it,
/// each namespace before its sub-namespaces, these in the order found.
pub open spec fn subtree(
    found: spec_fn(Seq<Seq<char>>) -> Seq<Seq<char>>,
    ns: Seq<Seq<char>>,
    levels: nat,
) -> Seq<Seq<Seq<char>>>
    decreases levels, 0nat,
{
    if levels == 0 {
        seq![ns]
    } else {
        seq![ns] + forest(found, found_below(found, ns), (levels - 1) as nat)
    }
}

/// The subtrees of the given namespaces, one after the other.
pub open spec fn forest(
    found: spec_fn(Seq<Seq<char>>) -> Seq<Seq<char>>,
    roots: Seq<Seq<Seq<char>>>,
    levels: nat,
) -> Seq<Seq<Seq<char>>>
    decreases levels, roots.len() + 1,
{
    if roots.len() == 0 {
        Seq::<Seq<Seq<char>>>::empty()
    } else {
        subtree(found, roots[0], levels) + forest(found, roots.skip(1), levels)
    }
}

/// What the pending entries of a walk still lead to, the last entry first.
pub open spec fn pending_order(
    found: spec_fn(Seq<Seq<char>>) -> Seq<Seq<char>>,
    pending: Seq<WalkEntry>,
) -> Seq<Seq<Seq<char>>>
    decreases pending.len(),
{
    if pending.len() == 0 {
        Seq::<Seq<Seq<char>>>::empty()
    } else {
        subtree(found, pending.last().ns, pending.last().levels) + pending_order(
            found,
            pending.drop_last(),
        )
    }
}

/// The namespaces that a walk in the state `v` will still hand out, in
/// order, if after each namespace the caller tells what `found` finds
/// below it.
pub open spec fn remaining(found: spec_fn(Seq<Seq<char>>) -> Seq<Seq<char>>, v: WalkView) -> Seq<
    Seq<Seq<char>>,
> {
    let below = match v.current {
        Some(cur) => if cur.levels > 0 {
            forest(found, found_below(found, cur.ns), (cur.levels - 1) as nat)
        } else {
            Seq::<Seq<Seq<char>>>::empty()
        },
        None => Seq::<Seq<Seq<char>>>::empty(),
    };
    below + pending_order(found, v.pending)
}

/// A new walk will hand out the start and everything up to the given
/// number of levels below it, each namespace before its sub-namespaces.
pub proof fn lemma_walk_start(
    found: spec_fn(Seq<Seq<char>>) -> Seq<Seq<char>>,
    start: Seq<Seq<char>>,
    levels: nat,
)
    ensures
        remaining(
            found,
            WalkView { pending: seq![WalkEntry { ns: start, levels }], current: None },
        ) == subtree(found, start, levels),
{
    let pending = seq![WalkEntry { ns: start, levels }];
    assert(pending.drop_last() =~= Seq::<WalkEntry>::empty());
    assert(pending.last() == WalkEntry { ns: start, levels });
    assert(pending_order(found, pending.drop_last()) =~= Seq::<Seq<Seq<char>>>::empty());
    assert(pending_order(found, pending) =~= subtree(found, start, levels));
    assert(Seq::<Seq<Seq<char>>>::empty() + subtree(found, start, levels) =~= subtree(
        found,
        start,
        levels,
    ));
}

/// Handing out the next namespace takes the first of what remained.
pub proof fn lemma_walk_next(found: spec_fn(Seq<Seq<char>>) -> Seq<Seq<char>>, v: WalkView)
    requires
        v.current is None,
        v.pending.len() > 0,
    ensures
        remaining(found, v) == seq![v.pending.last().ns] + remaining(
            found,
            WalkView { pending: v.pending.drop_last(), current: Some(v.pending.last()) },
        ),
{
    let e = v.pending.last();
    let rest = pending_order(found, v.pending.drop_last());
    let empty = Seq::<Seq<Seq<char>>>::empty();
    if e.levels == 0 {
        assert(empty + (seq![e.ns] + rest) =~= seq![e.ns] + (empty + rest));
    } else {
        let below = forest(found, found_below(found, e.ns), (e.levels - 1) as nat);
        assert(empty + ((seq![e.ns] + below) + rest) =~= seq![e.ns] + (below + rest));
    }
}

/// The entries of the sub-namespaces, pushed onto the pending ones, lead
/// to their subtrees in the order found, then to what was pending.
pub proof fn lemma_pending_children(
    found: spec_fn(Seq<Seq<char>>) -> Seq<Seq<char>>,
    pending: Seq<WalkEntry>,
    children: Seq<Seq<Seq<char>>>,
    levels: nat,
)
    ensures
        pending_order(found, pending + entries_reversed(children, levels)) == forest(
            found,
            children,
            levels,
        ) + pending_order(found, pending),
    decreases children.len(),
{
    let pushed = pending + entries_reversed(children, levels);
    if children.len() == 0 {
        assert(pushed =~= pending);
        assert(forest(found, children, levels) + pending_order(found, pending) =~= pending_order(
            found,
            pending,
        ));
    } else {
        let tail = children.skip(1);
        lemma_pending_children(found, pending, tail, levels);
        assert(pushed.last() == WalkEntry { ns: children[0], levels });
        assert(pushed.drop_last() =~= pending + entries_reversed(tail, levels));
        assert(subtree(found, children[0], levels) + (forest(found, tail, levels) + pending_order(
            found,
            pending,
        )) =~= (subtree(found, children[0], levels) + forest(found, tail, levels)) + pending_order(
            found,
            pending,
        ));
    }
}

/// Telling the walk what was found below the namespace handed out last
/// leaves what remains as it was.
pub proof fn lemma_walk_expand(found: spec_fn(Seq<Seq<char>>) -> Seq<Seq<char>>, v: WalkView)
    requires
        v.current is Some,
        children_of(v.current->0.ns, found(v.current->0.ns)) is Ok,
    ensures
        ({
            let cur = v.current->0;
            let children = children_of(cur.ns, found(cur.ns))->Ok_0;
            remaining(found, v) == remaining(
                found,
                WalkView {
                    pending: if cur.levels > 0 {
                        v.pending + entries_reversed(children, (cur.levels - 1) as nat)
                    } else {
                        v.pending
                    },
                    current: None,
                },
            )
        }),
{
    let cur = v.current->0;
    let children = children_of(cur.ns, found(cur.ns))->Ok_0;
    let empty = Seq::<Seq<Seq<char>>>::empty();
    if cur.levels > 0 {
        lemma_pending_children(found, v.pending, children, (cur.levels - 1) as nat);
        let pushed = v.pending + entries_reversed(children, (cur.levels - 1) as nat);
        assert(empty + pending_order(found, pushed) =~= pending_order(found, pushed));
    }
}

/// A walk with nothing pending and nothing handed out has nothing left.
pub proof fn lemma_walk_done(found: spec_fn(Seq<Seq<char>>) -> Seq<Seq<char>>, v: WalkView)
    requires
        v.current is None,
    ensures
        v.pending.len() == 0 <==> remaining(found, v).len() == 0,
{
    if v.pending.len() > 0 {
        lemma_walk_next(found, v);
    }
}

} // verus!
