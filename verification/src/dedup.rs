//! The deduplication pass: assigns each member of the unified list the
//! ordinal that disambiguates colliding names.
//!
//! On a freshly built list (every ordinal zero), a name that occurs once
//! keeps ordinal `0` and is used verbatim, and a name that occurs `k` times
//! has its occurrences numbered `1` through `k` in list order.  The scan is
//! also specified for arbitrary starting ordinals: a position already
//! holding a nonzero ordinal never starts a group scan, though a group scan
//! started earlier renumbers every later occurrence of its name; running
//! the scan a second time changes nothing.

use vstd::prelude::*;

use crate::member::{member_views, names_of, Member, MemberView};

verus! {

/// How many of the first `end` names equal `name`.
pub open spec fn occ_before(names: Seq<Seq<char>>, name: Seq<char>, end: int) -> nat
    decreases end,
{
    if end <= 0 {
        0
    } else {
        occ_before(names, name, end - 1) + (if names[end - 1] == name {
            1nat
        } else {
            0nat
        })
    }
}

/// How many names in the whole list equal `name`.
pub open spec fn occ_total(names: Seq<Seq<char>>, name: Seq<char>) -> nat {
    occ_before(names, name, names.len() as int)
}

/// The ordinal deduplication assigns to position `i` of a freshly built
/// list: `0` for a name with no colliding sibling, and one more than the
/// number of earlier occurrences for a member of a collision group.
pub open spec fn spec_ordinal(names: Seq<Seq<char>>, i: int) -> nat {
    if occ_total(names, names[i]) <= 1 {
        0
    } else {
        occ_before(names, names[i], i) + 1
    }
}

/// The ordinals of a member list.
pub open spec fn ordinals_of(ms: Seq<MemberView>) -> Seq<nat> {
    ms.map_values(|m: MemberView| m.ordinal)
}

/// Occurrence counts never decrease as the scanned prefix grows.
pub proof fn lemma_occ_mono(names: Seq<Seq<char>>, name: Seq<char>, e1: int, e2: int)
    requires
        0 <= e1 <= e2,
    ensures
        occ_before(names, name, e1) <= occ_before(names, name, e2),
    decreases e2,
{
    if e1 < e2 {
        lemma_occ_mono(names, name, e1, e2 - 1);
    }
}

/// A prefix of length `e` holds at most `e` occurrences.
pub proof fn lemma_occ_bound(names: Seq<Seq<char>>, name: Seq<char>, e: int)
    requires
        0 <= e,
    ensures
        occ_before(names, name, e) <= e,
    decreases e,
{
    if e > 0 {
        lemma_occ_bound(names, name, e - 1);
    }
}

proof fn lemma_occ_zero(names: Seq<Seq<char>>, name: Seq<char>, e: int)
    requires
        0 <= e,
        forall|k: int| 0 <= k < e ==> names[k] != name,
    ensures
        occ_before(names, name, e) == 0,
    decreases e,
{
    if e > 0 {
        lemma_occ_zero(names, name, e - 1);
    }
}

/// The first position at or after `i` that holds `name` with ordinal `0` —
/// the position whose forward scan will number the group — or the list
/// length when there is none.
pub open spec fn zero_trigger_from(
    names: Seq<Seq<char>>,
    o: Seq<nat>,
    name: Seq<char>,
    i: int,
) -> int
    decreases names.len() - i,
{
    if i < 0 || i >= names.len() {
        names.len() as int
    } else if names[i] == name && o[i] == 0 {
        i
    } else {
        zero_trigger_from(names, o, name, i + 1)
    }
}

/// The group's trigger position, searched from the front.
pub open spec fn zero_trigger(names: Seq<Seq<char>>, o: Seq<nat>, name: Seq<char>) -> int {
    zero_trigger_from(names, o, name, 0)
}

proof fn lemma_zero_trigger_from(names: Seq<Seq<char>>, o: Seq<nat>, name: Seq<char>, i: int)
    requires
        0 <= i <= names.len(),
    ensures
        i <= zero_trigger_from(names, o, name, i) <= names.len(),
        zero_trigger_from(names, o, name, i) < names.len() ==> (names[zero_trigger_from(
            names,
            o,
            name,
            i,
        )] == name && o[zero_trigger_from(names, o, name, i)] == 0),
        forall|k: int|
            i <= k < zero_trigger_from(names, o, name, i) && names[k] == name ==> o[k] != 0,
    decreases names.len() - i,
{
    if i < names.len() && !(names[i] == name && o[i] == 0) {
        lemma_zero_trigger_from(names, o, name, i + 1);
    }
}

/// The trigger fires only when a later occurrence exists to collide with.
pub open spec fn trigger_fires(names: Seq<Seq<char>>, o: Seq<nat>, name: Seq<char>) -> bool {
    let t = zero_trigger(names, o, name);
    t < names.len() && occ_total(names, name) > occ_before(names, name, t + 1)
}

/// The ordinal a fired trigger at `t` assigns to the group member at `k`:
/// its rank among the occurrences from the trigger on.
pub open spec fn group_rank(names: Seq<Seq<char>>, name: Seq<char>, t: int, k: int) -> nat {
    (occ_before(names, name, k + 1) - occ_before(names, name, t + 1) + 1) as nat
}

/// The ordinal position `k` holds once the scan has processed the first
/// `outer` positions, starting from the assignment `o`: a group whose
/// trigger lies before `outer` and fires carries its final numbering;
/// everything else still holds its starting ordinal.
pub open spec fn resolved_partial(names: Seq<Seq<char>>, o: Seq<nat>, k: int, outer: int) -> nat {
    let name = names[k];
    let t = zero_trigger(names, o, name);
    if t < outer && trigger_fires(names, o, name) {
        if k == t {
            1
        } else if k > t {
            group_rank(names, name, t, k)
        } else {
            o[k]
        }
    } else {
        o[k]
    }
}

/// The ordinal position `k` holds after the whole scan, starting from the
/// assignment `o`.
pub open spec fn resolved_ordinal(names: Seq<Seq<char>>, o: Seq<nat>, k: int) -> nat {
    resolved_partial(names, o, k, names.len() as int)
}

/// On a freshly built list the scan computes exactly the collision
/// ordinals.
pub proof fn lemma_resolved_fresh(names: Seq<Seq<char>>, o: Seq<nat>)
    requires
        o.len() == names.len(),
        forall|k: int| 0 <= k < o.len() ==> o[k] == 0,
    ensures
        forall|k: int|
            0 <= k < names.len() ==> resolved_ordinal(names, o, k) == spec_ordinal(names, k),
{
    assert forall|k: int| 0 <= k < names.len() implies resolved_ordinal(names, o, k)
        == spec_ordinal(names, k) by {
        let name = names[k];
        lemma_zero_trigger_from(names, o, name, 0);
        let t = zero_trigger(names, o, name);
        assert(t <= k);
        assert(names[t] == name && o[t] == 0);
        assert forall|idx: int| 0 <= idx < t implies names[idx] != name by {
            if names[idx] == name {
                assert(o[idx] != 0);
            }
        }
        lemma_occ_zero(names, name, t);
        assert(occ_before(names, name, t + 1) == 1);
        lemma_occ_mono(names, name, t + 1, names.len() as int);
        if occ_total(names, name) <= 1 {
            assert(!trigger_fires(names, o, name));
        } else {
            assert(trigger_fires(names, o, name));
            if k > t {
                assert(occ_before(names, name, k + 1) == occ_before(names, name, k) + 1);
                lemma_occ_mono(names, name, t + 1, k);
                assert(group_rank(names, name, t, k) == occ_before(names, name, k) + 1);
            }
        }
    }
}

/// Running the scan on an already scanned list changes nothing: every
/// collision group carries only nonzero ordinals, so no trigger remains,
/// and members that kept ordinal `0` still collide with nothing.
pub proof fn lemma_resolve_idempotent(names: Seq<Seq<char>>, o: Seq<nat>)
    requires
        o.len() == names.len(),
    ensures
        ({
            let done = Seq::new(names.len(), |k: int| resolved_ordinal(names, o, k));
            forall|k: int|
                0 <= k < names.len() ==> resolved_ordinal(names, done, k) == done[k]
        }),
{
    let done = Seq::new(names.len(), |k: int| resolved_ordinal(names, o, k));
    assert forall|k: int| 0 <= k < names.len() implies resolved_ordinal(names, done, k)
        == done[k] by {
        let name = names[k];
        lemma_zero_trigger_from(names, o, name, 0);
        lemma_zero_trigger_from(names, done, name, 0);
        let t = zero_trigger(names, o, name);
        let t2 = zero_trigger(names, done, name);
        if t == names.len() {
            // No trigger under o: every group ordinal is nonzero and stays.
            assert forall|idx: int| 0 <= idx < names.len() && names[idx] == name implies done[idx]
                != 0 by {
                assert(o[idx] != 0);
                assert(done[idx] == resolved_partial(names, o, idx, names.len() as int));
            }
            assert(t2 == names.len());
        } else if !trigger_fires(names, o, name) {
            // The trigger exists but never fires: the group is unchanged,
            // and the rerun trigger is the same position, still not firing.
            assert forall|idx: int| 0 <= idx < names.len() && names[idx] == name implies done[idx]
                == o[idx] by {
                assert(done[idx] == resolved_partial(names, o, idx, names.len() as int));
            }
            assert(t2 <= t);
            if t2 < t {
                assert(names[t2] == name && done[t2] == 0);
                assert(o[t2] != 0);
                assert(false);
            }
            assert(t2 == t);
            assert(!trigger_fires(names, done, name));
        } else {
            // The trigger fired: afterwards every group ordinal is nonzero.
            assert forall|idx: int| 0 <= idx < names.len() && names[idx] == name implies done[idx]
                != 0 by {
                assert(done[idx] == resolved_partial(names, o, idx, names.len() as int));
                if idx > t {
                    assert(occ_before(names, name, idx + 1) == occ_before(names, name, idx) + 1);
                    lemma_occ_mono(names, name, t + 1, idx + 1);
                } else if idx < t {
                    assert(o[idx] != 0);
                }
            }
            assert(t2 == names.len());
        }
    }
}

/// Reproduces the collision scan exactly: walk the list; at each position
/// not yet holding an ordinal, scan forward for members with the same name
/// and number the whole group `1, 2, ...` in list order.
pub fn resolve_duplicates(members: &mut Vec<Member>)
    ensures
        final(members)@.len() == old(members)@.len(),
        forall|k: int|
            0 <= k < old(members)@.len() ==> (#[trigger] final(members)@[k])@.name == old(
                members,
            )@[k]@.name,
        forall|k: int|
            0 <= k < old(members)@.len() ==> (#[trigger] final(members)@[k])@.scanned == old(
                members,
            )@[k]@.scanned,
        forall|k: int|
            0 <= k < old(members)@.len() ==> (#[trigger] final(members)@[k])@.source == old(
                members,
            )@[k]@.source,
        forall|k: int|
            0 <= k < old(members)@.len() ==> (#[trigger] final(members)@[k])@.ordinal
                == resolved_ordinal(
                names_of(member_views(old(members)@)),
                ordinals_of(member_views(old(members)@)),
                k,
            ),
        (forall|k: int| 0 <= k < old(members)@.len() ==> (#[trigger] old(members)@[k])@.ordinal
            == 0) ==> (forall|k: int|
            0 <= k < old(members)@.len() ==> (#[trigger] final(members)@[k])@.ordinal
                == spec_ordinal(names_of(member_views(old(members)@)), k)),
{
    let ghost orig = member_views(members@);
    let ghost nm = names_of(orig);
    let ghost oo = ordinals_of(orig);
    proof {
        assert forall|k: int| 0 <= k < orig.len() implies #[trigger] nm[k] == orig[k].name by {}
        assert forall|k: int| 0 <= k < orig.len() implies #[trigger] oo[k] == orig[k].ordinal by {}
    }
    let n = members.len();
    let mut i: usize = 0;
    proof {
        assert forall|k: int| 0 <= k < n implies (#[trigger] members@[k])@.ordinal
            == resolved_partial(nm, oo, k, 0) by {
            lemma_zero_trigger_from(nm, oo, nm[k], 0);
        }
    }
    while i < n
        invariant
            i <= n,
            n == members@.len(),
            orig.len() == n,
            nm.len() == n,
            oo.len() == n,
            forall|k: int| 0 <= k < n ==> #[trigger] nm[k] == orig[k].name,
            forall|k: int| 0 <= k < n ==> #[trigger] oo[k] == orig[k].ordinal,
            forall|k: int| 0 <= k < n ==> (#[trigger] members@[k])@.name == orig[k].name,
            forall|k: int| 0 <= k < n ==> (#[trigger] members@[k])@.scanned == orig[k].scanned,
            forall|k: int| 0 <= k < n ==> (#[trigger] members@[k])@.source == orig[k].source,
            forall|k: int|
                0 <= k < n ==> (#[trigger] members@[k])@.ordinal == resolved_partial(
                    nm,
                    oo,
                    k,
                    i as int,
                ),
        decreases n - i,
    {
        let ghost name = nm[i as int];
        let mut count: usize = 1;
        if members[i].ordinal == 0 {
            proof {
                // Position i must be its group's trigger: it holds 0, and an
                // earlier trigger would already have numbered it.
                lemma_zero_trigger_from(nm, oo, name, 0);
                let t = zero_trigger(nm, oo, name);
                if t < i {
                    assert(trigger_fires(nm, oo, name)) by {
                        assert(occ_before(nm, name, i as int + 1) == occ_before(nm, name, i as int)
                            + 1);
                        lemma_occ_mono(nm, name, t + 1, i as int);
                        lemma_occ_mono(nm, name, i as int + 1, nm.len() as int);
                    }
                    assert(resolved_partial(nm, oo, i as int, i as int) != 0) by {
                        assert(occ_before(nm, name, i as int + 1) == occ_before(nm, name, i as int)
                            + 1);
                        lemma_occ_mono(nm, name, t + 1, i as int + 1);
                    }
                    assert(false);
                }
                // i itself is a zero-holding group member, so the trigger is
                // at most i.
                assert(resolved_partial(nm, oo, i as int, i as int) == 0);
                if t > i {
                    assert(oo[i as int] != 0);
                    assert(false);
                }
                assert(t == i as int);
                assert(oo[i as int] == 0);
            }
            let mut j: usize = i;
            while j < n
                invariant
                    i < n,
                    i <= j <= n,
                    n == members@.len(),
                    orig.len() == n,
                    nm.len() == n,
                    oo.len() == n,
                    name == nm[i as int],
                    zero_trigger(nm, oo, name) == i as int,
                    oo[i as int] == 0,
                    forall|k: int| 0 <= k < n ==> #[trigger] nm[k] == orig[k].name,
                    forall|k: int| 0 <= k < n ==> #[trigger] oo[k] == orig[k].ordinal,
                    forall|k: int| 0 <= k < n ==> (#[trigger] members@[k])@.name == orig[k].name,
                    forall|k: int|
                        0 <= k < n ==> (#[trigger] members@[k])@.scanned == orig[k].scanned,
                    forall|k: int| 0 <= k < n ==> (#[trigger] members@[k])@.source == orig[k].source,
                    count as int == 1 + (if j > i {
                        occ_before(nm, name, j as int) as int - occ_before(
                            nm,
                            name,
                            i as int + 1,
                        ) as int
                    } else {
                        0int
                    }),
                    members@[i as int]@.ordinal == (if j > i && occ_before(nm, name, j as int)
                        > occ_before(nm, name, i as int + 1) {
                        1nat
                    } else {
                        0nat
                    }),
                    forall|k: int|
                        i < k < j && nm[k] == name ==> (#[trigger] members@[k])@.ordinal
                            == group_rank(nm, name, i as int, k),
                    forall|k: int|
                        0 <= k < n && k != i && !(i < k < j && nm[k] == name) ==> (
                        #[trigger] members@[k])@.ordinal == resolved_partial(nm, oo, k, i as int),
                decreases n - j,
            {
                if i != j {
                    if members[i].name == members[j].name {
                        proof {
                            assert(nm[j as int] == name);
                            assert(occ_before(nm, name, j as int + 1) == occ_before(
                                nm,
                                name,
                                j as int,
                            ) + 1);
                            lemma_occ_bound(nm, name, j as int);
                            lemma_occ_mono(nm, name, i as int + 1, j as int);
                        }
                        members[i].ordinal = 1;
                        count = count + 1;
                        members[j].ordinal = count;
                    }
                }
                proof {
                    if nm[j as int] != name {
                        assert(occ_before(nm, name, j as int + 1) == occ_before(
                            nm,
                            name,
                            j as int,
                        ));
                    }
                }
                j = j + 1;
            }
            proof {
                assert(occ_before(nm, name, i as int + 1) == occ_before(nm, name, i as int) + 1);
                assert(occ_total(nm, name) == occ_before(nm, name, n as int));
                assert forall|k: int| 0 <= k < n implies (#[trigger] members@[k])@.ordinal
                    == resolved_partial(nm, oo, k, i as int + 1) by {
                    let nk = nm[k];
                    lemma_zero_trigger_from(nm, oo, nk, 0);
                    if nk == name {
                        assert(zero_trigger(nm, oo, nk) == i as int);
                        if trigger_fires(nm, oo, name) {
                            if k == i {
                                lemma_occ_mono(nm, name, i as int + 1, n as int);
                                assert(members@[k]@.ordinal == 1);
                            } else if k > i {
                                assert(occ_before(nm, name, k + 1) == occ_before(nm, name, k) + 1);
                                lemma_occ_mono(nm, name, k + 1, n as int);
                                lemma_occ_mono(nm, name, i as int + 1, k);
                                assert(occ_before(nm, name, n as int) > occ_before(
                                    nm,
                                    name,
                                    i as int + 1,
                                ));
                                assert(members@[k]@.ordinal == group_rank(nm, name, i as int, k));
                            } else {
                                // An occurrence before the trigger holds a
                                // nonzero starting ordinal and is untouched.
                                assert(oo[k] != 0);
                                assert(members@[k]@.ordinal == resolved_partial(
                                    nm,
                                    oo,
                                    k,
                                    i as int,
                                ));
                            }
                        } else {
                            // The trigger found nothing: no forward match
                            // exists, so nothing in the group was written.
                            assert(occ_before(nm, name, n as int) <= occ_before(
                                nm,
                                name,
                                i as int + 1,
                            ));
                            if k == i {
                                lemma_occ_mono(nm, name, i as int + 1, n as int);
                                assert(members@[k]@.ordinal == 0);
                            } else if i < k {
                                assert(occ_before(nm, name, k + 1) == occ_before(nm, name, k) + 1);
                                lemma_occ_mono(nm, name, i as int + 1, k);
                                lemma_occ_mono(nm, name, k + 1, n as int);
                                assert(false);
                            } else {
                                assert(members@[k]@.ordinal == resolved_partial(
                                    nm,
                                    oo,
                                    k,
                                    i as int,
                                ));
                            }
                        }
                    } else {
                        let tk = zero_trigger(nm, oo, nk);
                        if tk == i as int {
                            assert(nm[i as int] == nk);
                            assert(false);
                        }
                        assert(members@[k]@.ordinal == resolved_partial(nm, oo, k, i as int));
                    }
                }
            }
        } else {
            proof {
                assert forall|k: int| 0 <= k < n implies (#[trigger] members@[k])@.ordinal
                    == resolved_partial(nm, oo, k, i as int + 1) by {
                    let nk = nm[k];
                    lemma_zero_trigger_from(nm, oo, nk, 0);
                    let tk = zero_trigger(nm, oo, nk);
                    if tk == i as int {
                        // A trigger at i would mean position i holds 0.
                        assert(nm[i as int] == nk && oo[i as int] == 0);
                        assert(zero_trigger(nm, oo, name) == tk);
                        assert(resolved_partial(nm, oo, i as int, i as int) == 0);
                        assert(false);
                    }
                    assert(members@[k]@.ordinal == resolved_partial(nm, oo, k, i as int));
                }
            }
        }
        i = i + 1;
    }
    proof {
        assert forall|k: int| 0 <= k < n implies (#[trigger] members@[k])@.ordinal
            == resolved_ordinal(nm, oo, k) by {
            assert(members@[k]@.ordinal == resolved_partial(nm, oo, k, n as int));
        }
        assert forall|k: int| 0 <= k < n implies old(members)@[k]@ == orig[k] by {}
        if forall|k: int| 0 <= k < n ==> (#[trigger] old(members)@[k])@.ordinal == 0 {
            assert forall|k: int| 0 <= k < n implies #[trigger] oo[k] == 0 by {
                assert(old(members)@[k]@.ordinal == 0);
            }
            lemma_resolved_fresh(nm, oo);
        }
    }
}

} // verus!
