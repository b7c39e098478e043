//! The crate's laws: properties that relate the deduplication pass and the
//! merge plan, proved once and for all inputs.

use vstd::prelude::*;

use crate::dedup::{lemma_occ_mono, occ_before, occ_total, spec_ordinal};
use crate::member::{effective_name, names_of, MemberSource, MemberView};
use crate::plan::{action_writes, backup_actions, erase_actions, insert_kinds, inserted_files,
    inserted_name, members_well_formed, plan_for_member, run_actions, spec_backup_name,
    spec_plan, ActionV};
use crate::text::{is_decimal_digit, lemma_decimal_digits, lemma_decimal_injective, spec_decimal};

verus! {

/// The inserted files of two plans run back to back are those of the first
/// followed by those of the second.
proof fn lemma_inserted_files_app(a: Seq<ActionV>, b: Seq<ActionV>)
    ensures
        inserted_files(a + b) == inserted_files(a) + inserted_files(b),
    decreases a.len(),
{
    if a.len() == 0 {
        assert(a + b =~= b);
        assert(inserted_files(a) + inserted_files(b) =~= inserted_files(b));
    } else {
        assert((a + b)[0] == a[0]);
        assert((a + b).drop_first() =~= a.drop_first() + b);
        lemma_inserted_files_app(a.drop_first(), b);
        assert(inserted_files(a + b) =~= inserted_files(a) + inserted_files(b));
    }
}

/// The insertion kinds of two plans run back to back, likewise.
proof fn lemma_insert_kinds_app(a: Seq<ActionV>, b: Seq<ActionV>)
    ensures
        insert_kinds(a + b) == insert_kinds(a) + insert_kinds(b),
    decreases a.len(),
{
    if a.len() == 0 {
        assert(a + b =~= b);
        assert(insert_kinds(a) + insert_kinds(b) =~= insert_kinds(b));
    } else {
        assert((a + b)[0] == a[0]);
        assert((a + b).drop_first() =~= a.drop_first() + b);
        lemma_insert_kinds_app(a.drop_first(), b);
        assert(insert_kinds(a + b) =~= insert_kinds(a) + insert_kinds(b));
    }
}

/// One member contributes exactly one insertion, of its inserted file, in
/// the creating form exactly when the output archive does not exist yet.
proof fn lemma_plan_member_inserts(m: MemberView, libs: Seq<Seq<char>>, out: Seq<char>, c: bool)
    ensures
        inserted_files(plan_for_member(m, libs, out, c)) == seq![inserted_name(m)],
        insert_kinds(plan_for_member(m, libs, out, c)) == seq![!c],
{
    reveal_with_fuel(inserted_files, 7);
    reveal_with_fuel(insert_kinds, 7);
    let p = plan_for_member(m, libs, out, c);
    match m.source {
        MemberSource::DirectFile => {
            assert(p.drop_first() =~= Seq::<ActionV>::empty());
            assert(inserted_files(p) =~= seq![inserted_name(m)]);
            assert(insert_kinds(p) =~= seq![!c]);
        },
        MemberSource::ArchiveEntry { library } => {
            if m.ordinal != 0 {
                assert(p.drop_first() =~= p.subrange(1, 5));
                assert(p.subrange(1, 5).drop_first() =~= p.subrange(2, 5));
                assert(p.subrange(2, 5).drop_first() =~= p.subrange(3, 5));
                assert(p.subrange(3, 5).drop_first() =~= p.subrange(4, 5));
                assert(p.subrange(4, 5).drop_first() =~= Seq::<ActionV>::empty());
                assert(inserted_files(p) =~= seq![inserted_name(m)]);
                assert(insert_kinds(p) =~= seq![!c]);
            } else {
                assert(p.drop_first() =~= p.subrange(1, 3));
                assert(p.subrange(1, 3).drop_first() =~= p.subrange(2, 3));
                assert(p.subrange(2, 3).drop_first() =~= Seq::<ActionV>::empty());
                assert(inserted_files(p) =~= seq![inserted_name(m)]);
                assert(insert_kinds(p) =~= seq![!c]);
            }
        },
    }
}

/// A merge plan inserts exactly one file per member, in unified-list order,
/// each under the member's inserted name; starting from a not-yet-created
/// output, the first insertion creates it and every later one appends.
pub proof fn lemma_plan_inserts(ms: Seq<MemberView>, libs: Seq<Seq<char>>, out: Seq<char>, c: bool)
    ensures
        inserted_files(spec_plan(ms, libs, out, c)) == ms.map_values(
            |m: MemberView| inserted_name(m),
        ),
        insert_kinds(spec_plan(ms, libs, out, c)).len() == ms.len(),
        forall|k: int|
            0 <= k < ms.len() ==> insert_kinds(spec_plan(ms, libs, out, c))[k] == (!c && k == 0),
    decreases ms.len(),
{
    if ms.len() == 0 {
        assert(inserted_files(spec_plan(ms, libs, out, c)) =~= ms.map_values(
            |m: MemberView| inserted_name(m),
        ));
    } else {
        let head = plan_for_member(ms[0], libs, out, c);
        let rest = spec_plan(ms.drop_first(), libs, out, true);
        lemma_plan_member_inserts(ms[0], libs, out, c);
        lemma_inserted_files_app(head, rest);
        lemma_insert_kinds_app(head, rest);
        lemma_plan_inserts(ms.drop_first(), libs, out, true);
        assert(inserted_files(spec_plan(ms, libs, out, c)) =~= ms.map_values(
            |m: MemberView| inserted_name(m),
        ));
        assert forall|k: int| 0 <= k < ms.len() implies insert_kinds(spec_plan(ms, libs, out, c))[k]
            == (!c && k == 0) by {
            if k > 0 {
                assert(insert_kinds(spec_plan(ms, libs, out, c))[k] == insert_kinds(rest)[k - 1]);
            }
        }
    }
}

/// The deduplication pass's outcome, restated over views: every ordinal is
/// the one the collision scan assigns.
pub open spec fn deduped(ms: Seq<MemberView>) -> bool {
    forall|k: int|
        0 <= k < ms.len() ==> (#[trigger] ms[k]).ordinal == spec_ordinal(names_of(ms), k)
}

proof fn lemma_occ_of_distinct(names: Seq<Seq<char>>, i: int, e: int)
    requires
        forall|a: int, b: int| 0 <= a < b < names.len() ==> names[a] != names[b],
        0 <= i < names.len(),
        0 <= e <= names.len(),
    ensures
        occ_before(names, names[i], e) == if i < e {
            1nat
        } else {
            0nat
        },
    decreases e,
{
    if e > 0 {
        lemma_occ_of_distinct(names, i, e - 1);
    }
}

/// With no duplicate names, deduplication assigns every member ordinal `0`,
/// so every name is used unchanged.
pub proof fn lemma_no_collisions_all_zero(names: Seq<Seq<char>>)
    requires
        forall|a: int, b: int| 0 <= a < b < names.len() ==> names[a] != names[b],
    ensures
        forall|i: int| 0 <= i < names.len() ==> spec_ordinal(names, i) == 0,
{
    assert forall|i: int| 0 <= i < names.len() implies spec_ordinal(names, i) == 0 by {
        lemma_occ_of_distinct(names, i, names.len() as int);
        assert(occ_total(names, names[i]) == 1);
    }
}

/// Two occurrences of one name receive distinct, nonzero ordinals, strictly
/// increasing in scan order and at most the occurrence count; a first
/// occurrence receives ordinal `1`.
pub proof fn lemma_collision_group(names: Seq<Seq<char>>, i: int, j: int)
    requires
        0 <= i < j < names.len(),
        names[i] == names[j],
    ensures
        occ_total(names, names[i]) >= 2,
        spec_ordinal(names, i) == occ_before(names, names[i], i) + 1,
        spec_ordinal(names, j) == occ_before(names, names[i], j) + 1,
        spec_ordinal(names, i) < spec_ordinal(names, j),
        1 <= spec_ordinal(names, i),
        spec_ordinal(names, j) <= occ_total(names, names[i]),
        occ_before(names, names[i], i) == 0 ==> spec_ordinal(names, i) == 1,
{
    let name = names[i];
    assert(occ_before(names, name, i + 1) == occ_before(names, name, i) + 1);
    lemma_occ_mono(names, name, i + 1, j);
    assert(occ_before(names, name, j + 1) == occ_before(names, name, j) + 1);
    lemma_occ_mono(names, name, j + 1, names.len() as int);
}

/// Members of one collision group enter the output under distinct effective
/// names, each carrying the colliding base name as a prefix.
pub proof fn lemma_group_effective_names(ms: Seq<MemberView>, i: int, j: int)
    requires
        deduped(ms),
        0 <= i < j < ms.len(),
        ms[i].name == ms[j].name,
    ensures
        effective_name(ms[i]) != effective_name(ms[j]),
        effective_name(ms[i]).take(ms[i].name.len() as int) == ms[i].name,
        effective_name(ms[j]).take(ms[j].name.len() as int) == ms[j].name,
{
    let names = names_of(ms);
    assert(names[i] == ms[i].name);
    assert(names[j] == ms[j].name);
    lemma_collision_group(names, i, j);
    let oi = ms[i].ordinal;
    let oj = ms[j].ordinal;
    assert(1 <= oi < oj);
    assert(effective_name(ms[i]).take(ms[i].name.len() as int) =~= ms[i].name);
    assert(effective_name(ms[j]).take(ms[j].name.len() as int) =~= ms[j].name);
    if effective_name(ms[i]) == effective_name(ms[j]) {
        lemma_decimal_injective(oi, oj);
        assert(spec_decimal(oi) =~= effective_name(ms[i]).skip(ms[i].name.len() as int));
        assert(spec_decimal(oj) =~= effective_name(ms[j]).skip(ms[j].name.len() as int));
        assert(false);
    }
}

/// A name safe for disambiguation: nonempty and not ending in a decimal
/// digit.  (A name that ends in a digit can collide with a disambiguated
/// sibling: the names `x.o`, `x.o`, `x.o1` produce `x.o1` twice.)
pub open spec fn undecorated(s: Seq<char>) -> bool {
    s.len() > 0 && !is_decimal_digit(s.last())
}

/// After deduplication, all effective names are distinct, provided no
/// member's base name ends in a decimal digit: the output archive holds one
/// member per unified-list entry, under pairwise distinct names.
pub proof fn lemma_effective_names_unique(ms: Seq<MemberView>, i: int, j: int)
    requires
        deduped(ms),
        forall|k: int| 0 <= k < ms.len() ==> undecorated((#[trigger] ms[k]).name),
        0 <= i < ms.len(),
        0 <= j < ms.len(),
        i != j,
    ensures
        effective_name(ms[i]) != effective_name(ms[j]),
{
    let a = if i < j {
        i
    } else {
        j
    };
    let b = if i < j {
        j
    } else {
        i
    };
    if ms[a].name == ms[b].name {
        lemma_group_effective_names(ms, a, b);
    } else {
        let na = ms[a].name;
        let nb = ms[b].name;
        let oa = ms[a].ordinal;
        let ob = ms[b].ordinal;
        let ea = effective_name(ms[a]);
        let eb = effective_name(ms[b]);
        if ea == eb {
            if oa == 0 && ob == 0 {
                assert(false);
            } else if oa == 0 {
                lemma_decimal_digits(ob);
                assert(eb[eb.len() - 1] == spec_decimal(ob)[eb.len() - 1 - nb.len()]);
                assert(is_decimal_digit(ea[ea.len() - 1]));
                assert(ea[ea.len() - 1] == na.last());
                assert(false);
            } else if ob == 0 {
                lemma_decimal_digits(oa);
                assert(ea[ea.len() - 1] == spec_decimal(oa)[ea.len() - 1 - na.len()]);
                assert(is_decimal_digit(eb[eb.len() - 1]));
                assert(eb[eb.len() - 1] == nb.last());
                assert(false);
            } else {
                lemma_decimal_digits(oa);
                lemma_decimal_digits(ob);
                if na.len() == nb.len() {
                    assert(na =~= ea.take(na.len() as int));
                    assert(nb =~= eb.take(nb.len() as int));
                    assert(false);
                } else if na.len() < nb.len() {
                    let idx = nb.len() as int - 1;
                    let da = spec_decimal(oa);
                    let ca = na + da;
                    assert(ea =~= ca);
                    assert(eb =~= nb + spec_decimal(ob));
                    assert(ea.len() == na.len() + da.len());
                    assert(na.len() <= idx < ea.len());
                    assert(eb[idx] == nb.last());
                    assert(ca[idx] == da[idx - na.len()]);
                    assert(ea[idx] == ca[idx]);
                    assert(is_decimal_digit(da[idx - na.len()]));
                    assert(false);
                } else {
                    let idx = na.len() as int - 1;
                    let db = spec_decimal(ob);
                    let cb = nb + db;
                    assert(eb =~= cb);
                    assert(ea =~= na + spec_decimal(oa));
                    assert(eb.len() == nb.len() + db.len());
                    assert(nb.len() <= idx < eb.len());
                    assert(ea[idx] == na.last());
                    assert(cb[idx] == db[idx - nb.len()]);
                    assert(eb[idx] == cb[idx]);
                    assert(is_decimal_digit(db[idx - nb.len()]));
                    assert(false);
                }
            }
        }
    }
}

/// Merging sources with pairwise distinct member names and no direct objects
/// reproduces exactly the scanned names, in order: nothing is renamed.
pub proof fn lemma_round_trip(ms: Seq<MemberView>, libs: Seq<Seq<char>>, out: Seq<char>)
    requires
        deduped(ms),
        forall|k: int| 0 <= k < ms.len() ==> (#[trigger] ms[k]).scanned == ms[k].name,
        forall|a: int, b: int|
            0 <= a < b < ms.len() ==> (#[trigger] ms[a]).name != (#[trigger] ms[b]).name,
    ensures
        inserted_files(spec_plan(ms, libs, out, false)) == names_of(ms),
{
    let names = names_of(ms);
    assert forall|a: int, b: int| 0 <= a < b < names.len() implies names[a] != names[b] by {
        assert(names[a] == ms[a].name);
        assert(names[b] == ms[b].name);
    }
    lemma_no_collisions_all_zero(names);
    lemma_plan_inserts(ms, libs, out, false);
    assert forall|k: int| 0 <= k < ms.len() implies inserted_name(#[trigger] ms[k]) == names[k] by {
        assert(ms[k].ordinal == spec_ordinal(names, k));
        assert(names[k] == ms[k].name);
    }
    assert(ms.map_values(|m: MemberView| inserted_name(m)) =~= names_of(ms));
}

proof fn lemma_plan_never_writes(
    ms: Seq<MemberView>,
    libs: Seq<Seq<char>>,
    out: Seq<char>,
    c: bool,
    p: Seq<char>,
)
    requires
        out != p,
        forall|x: int| 0 <= x < libs.len() ==> spec_backup_name(#[trigger] libs[x]) != p,
        forall|k: int|
            0 <= k < ms.len() ==> ((#[trigger] ms[k]).name != p && ms[k].scanned != p
                && effective_name(ms[k]) != p),
        members_well_formed(ms, libs.len() as nat),
    ensures
        forall|t: int|
            0 <= t < spec_plan(ms, libs, out, c).len() ==> !action_writes(
                #[trigger] spec_plan(ms, libs, out, c)[t],
                p,
            ),
    decreases ms.len(),
{
    if ms.len() > 0 {
        let head = plan_for_member(ms[0], libs, out, c);
        let rest = spec_plan(ms.drop_first(), libs, out, true);
        assert forall|k: int| 0 <= k < ms.drop_first().len() implies ((#[trigger] ms.drop_first()[k]).name
            != p && ms.drop_first()[k].scanned != p && effective_name(ms.drop_first()[k]) != p) by {
            assert(ms.drop_first()[k] == ms[k + 1]);
        }
        assert(members_well_formed(ms.drop_first(), libs.len() as nat)) by {
            assert forall|k: int| 0 <= k < ms.drop_first().len() implies ((#[trigger] ms.drop_first()[k]).source
                matches MemberSource::ArchiveEntry { library } ==> library
                < libs.len()) by {
                assert(ms.drop_first()[k] == ms[k + 1]);
            }
        }
        lemma_plan_never_writes(ms.drop_first(), libs, out, true, p);
        assert(ms[0].name != p && ms[0].scanned != p && effective_name(ms[0]) != p);
        assert forall|t: int| 0 <= t < head.len() implies !action_writes(#[trigger] head[t], p) by {
            match ms[0].source {
                MemberSource::DirectFile => {},
                MemberSource::ArchiveEntry { library } => {
                    assert(library < libs.len());
                    assert(spec_backup_name(libs[library as int]) != p);
                },
            }
        }
        assert forall|t: int| 0 <= t < spec_plan(ms, libs, out, c).len() implies !action_writes(
            #[trigger] spec_plan(ms, libs, out, c)[t],
            p,
        ) by {
            if t < head.len() {
                assert(spec_plan(ms, libs, out, c)[t] == head[t]);
            } else {
                assert(spec_plan(ms, libs, out, c)[t] == rest[t - head.len()]);
            }
        }
    }
}

/// No operation of a whole run writes to the path `p`, for any `p` that is
/// not the output archive, not a snapshot path, and not a member's transient
/// file.  Instantiated with a source archive's path, this says a run leaves
/// every source archive untouched: only its snapshot is ever extracted from
/// or deleted from.
pub proof fn lemma_run_never_writes(
    libs: Seq<Seq<char>>,
    ms: Seq<MemberView>,
    out: Seq<char>,
    p: Seq<char>,
)
    requires
        out != p,
        forall|x: int| 0 <= x < libs.len() ==> spec_backup_name(#[trigger] libs[x]) != p,
        forall|k: int|
            0 <= k < ms.len() ==> ((#[trigger] ms[k]).name != p && ms[k].scanned != p
                && effective_name(ms[k]) != p),
        members_well_formed(ms, libs.len() as nat),
    ensures
        forall|t: int|
            0 <= t < run_actions(libs, ms, out).len() ==> !action_writes(
                #[trigger] run_actions(libs, ms, out)[t],
                p,
            ),
{
    let bk = backup_actions(libs);
    let mid = spec_plan(ms, libs, out, false);
    let er = erase_actions(libs);
    lemma_plan_never_writes(ms, libs, out, false, p);
    assert forall|t: int| 0 <= t < run_actions(libs, ms, out).len() implies !action_writes(
        #[trigger] run_actions(libs, ms, out)[t],
        p,
    ) by {
        if t < bk.len() {
            assert(run_actions(libs, ms, out)[t] == bk[t]);
            assert(bk[t] == (ActionV::CopyFile { from: libs[t], to: spec_backup_name(libs[t]) }));
        } else if t < bk.len() + mid.len() {
            assert(run_actions(libs, ms, out)[t] == mid[t - bk.len()]);
        } else {
            let x = t - bk.len() - mid.len();
            assert(run_actions(libs, ms, out)[t] == er[x]);
            assert(er[x] == (ActionV::RemoveFile { path: spec_backup_name(libs[x]) }));
        }
    }
}

} // verus!
