//! The merge orchestrator and backup manager.
//!
//! Neither touches archive bytes: every list, extract, insert, delete, copy
//! and rename is an opaque operation of the platform archiver or filesystem.
//! The functions here compute the exact ordered sequence of those operations
//! for a run; the embedding program performs them one by one.  Destructive
//! operations (extract with delete) target a snapshot of each source archive,
//! never the caller's original file.

use vstd::prelude::*;

use crate::errors::LibmanError;
use crate::member::{effective_name, member_effective_name, member_views, Member, MemberSource,
    MemberView};
use crate::scan::string_views;
use crate::text::{spec_trim_trailing, trim_trailing};

verus! {

/// One operation of a merge run, against the platform archiver or the
/// filesystem.
#[derive(Clone, Debug, PartialEq)]
pub enum Action {
    /// Copy a source archive to its snapshot.
    CopyFile { from: String, to: String },
    /// Delete a transient or snapshot file.
    RemoveFile { path: String },
    /// Extract one member of an archive into a file of the member's name.
    ExtractMember { archive: String, member: String },
    /// Delete one member from an archive.
    DeleteMember { archive: String, member: String },
    /// Rename a transient file.
    RenameFile { from: String, to: String },
    /// Insert a file into a not-yet-existing archive, creating it.
    InsertCreate { archive: String, file: String },
    /// Insert a file into an existing archive, appending.
    InsertAppend { archive: String, file: String },
}

/// The mathematical image of an `Action`.
pub enum ActionV {
    CopyFile { from: Seq<char>, to: Seq<char> },
    RemoveFile { path: Seq<char> },
    ExtractMember { archive: Seq<char>, member: Seq<char> },
    DeleteMember { archive: Seq<char>, member: Seq<char> },
    RenameFile { from: Seq<char>, to: Seq<char> },
    InsertCreate { archive: Seq<char>, file: Seq<char> },
    InsertAppend { archive: Seq<char>, file: Seq<char> },
}

impl View for Action {
    type V = ActionV;

    open spec fn view(&self) -> ActionV {
        match self {
            Action::CopyFile { from, to } => ActionV::CopyFile { from: from@, to: to@ },
            Action::RemoveFile { path } => ActionV::RemoveFile { path: path@ },
            Action::ExtractMember { archive, member } => ActionV::ExtractMember {
                archive: archive@,
                member: member@,
            },
            Action::DeleteMember { archive, member } => ActionV::DeleteMember {
                archive: archive@,
                member: member@,
            },
            Action::RenameFile { from, to } => ActionV::RenameFile { from: from@, to: to@ },
            Action::InsertCreate { archive, file } => ActionV::InsertCreate {
                archive: archive@,
                file: file@,
            },
            Action::InsertAppend { archive, file } => ActionV::InsertAppend {
                archive: archive@,
                file: file@,
            },
        }
    }
}

/// The views of an action list.
pub open spec fn action_views(acts: Seq<Action>) -> Seq<ActionV> {
    acts.map_values(|a: Action| a@)
}

/// The characters trimmed from an archive path before the snapshot suffix is
/// appended.
pub open spec fn backup_trim_set() -> Seq<char> {
    seq!['.', 'a']
}

/// The snapshot suffix.
pub open spec fn bak_suffix() -> Seq<char> {
    seq!['.', 'b', 'a', 'k']
}

/// The sibling snapshot path of a source archive: the archive extension's
/// trailing characters removed, then the snapshot suffix appended.
pub open spec fn spec_backup_name(lib: Seq<char>) -> Seq<char> {
    spec_trim_trailing(lib, backup_trim_set()) + bak_suffix()
}

/// Computes the snapshot path of one source archive.
pub fn backup_name(lib: &str) -> (r: String)
    ensures
        r@ == spec_backup_name(lib@),
{
    let mut cs: Vec<char> = Vec::new();
    cs.push('.');
    cs.push('a');
    proof {
        assert(cs@ =~= backup_trim_set());
    }
    let mut r = trim_trailing(lib, &cs);
    r.append(".bak");
    proof {
        reveal_strlit(".bak");
        assert(".bak"@ =~= bak_suffix());
    }
    r
}

/// The snapshot-creation actions of a run, one per source archive.
pub open spec fn backup_actions(libs: Seq<Seq<char>>) -> Seq<ActionV> {
    libs.map_values(|l: Seq<char>| ActionV::CopyFile { from: l, to: spec_backup_name(l) })
}

/// The snapshot-removal actions of a run, one per source archive.
pub open spec fn erase_actions(libs: Seq<Seq<char>>) -> Seq<ActionV> {
    libs.map_values(|l: Seq<char>| ActionV::RemoveFile { path: spec_backup_name(l) })
}

/// Emits the snapshot of every source archive: each original is copied to its
/// sibling snapshot before any destructive operation runs.
pub fn make_backups(libraries: &Vec<String>) -> (acts: Vec<Action>)
    ensures
        action_views(acts@) == backup_actions(string_views(libraries@)),
{
    let mut acts: Vec<Action> = Vec::new();
    let mut i: usize = 0;
    while i < libraries.len()
        invariant
            i <= libraries@.len(),
            acts@.len() == i,
            forall|k: int|
                0 <= k < i ==> (#[trigger] acts@[k])@ == (ActionV::CopyFile {
                    from: libraries@[k]@,
                    to: spec_backup_name(libraries@[k]@),
                }),
        decreases libraries@.len() - i,
    {
        let b = backup_name(libraries[i].as_str());
        acts.push(Action::CopyFile { from: libraries[i].clone(), to: b });
        i = i + 1;
    }
    proof {
        assert(action_views(acts@) =~= backup_actions(string_views(libraries@)));
    }
    acts
}

/// Emits the removal of every snapshot, run after the merge completes.
pub fn erase_backups(libraries: &Vec<String>) -> (acts: Vec<Action>)
    ensures
        action_views(acts@) == erase_actions(string_views(libraries@)),
{
    let mut acts: Vec<Action> = Vec::new();
    let mut i: usize = 0;
    while i < libraries.len()
        invariant
            i <= libraries@.len(),
            acts@.len() == i,
            forall|k: int|
                0 <= k < i ==> (#[trigger] acts@[k])@ == (ActionV::RemoveFile {
                    path: spec_backup_name(libraries@[k]@),
                }),
        decreases libraries@.len() - i,
    {
        let b = backup_name(libraries[i].as_str());
        acts.push(Action::RemoveFile { path: b });
        i = i + 1;
    }
    proof {
        assert(action_views(acts@) =~= erase_actions(string_views(libraries@)));
    }
    acts
}

/// The insertion an output archive in the given creation state receives: the
/// first insertion creates the archive, every later one appends.
pub open spec fn insert_action(out: Seq<char>, file: Seq<char>, created: bool) -> ActionV {
    if created {
        ActionV::InsertAppend { archive: out, file }
    } else {
        ActionV::InsertCreate { archive: out, file }
    }
}

/// The file a member's insertion hands to the archiver: a direct object or
/// a disambiguated member goes in under its effective name; an archive
/// member with no collision is the extracted transient, still under its
/// scanned name.
pub open spec fn inserted_name(m: MemberView) -> Seq<char> {
    match m.source {
        MemberSource::DirectFile => effective_name(m),
        MemberSource::ArchiveEntry { .. } => if m.ordinal == 0 {
            m.scanned
        } else {
            effective_name(m)
        },
    }
}

/// The operations one member contributes to the merge, in order.
///
/// A direct object file is inserted under its effective name.  An archive
/// member is extracted from its source's snapshot by its name exactly as
/// scanned, into a transient file of that name; a colliding member is also
/// deleted from the snapshot by the scanned name (so a later extraction of
/// the same name is unambiguous) and its transient file renamed to the
/// effective name; the transient file is removed after insertion.
///
/// Known issue, deliberately kept: a *direct* object that collides is
/// inserted under its suffixed effective name, yet no operation renames or
/// copies the object file to that name first, so the insertion expects a
/// file nobody produced.  Callers that must rule this out should reject
/// member lists where a direct object collides.
pub open spec fn plan_for_member(
    m: MemberView,
    libs: Seq<Seq<char>>,
    out: Seq<char>,
    created: bool,
) -> Seq<ActionV> {
    match m.source {
        MemberSource::DirectFile => seq![insert_action(out, effective_name(m), created)],
        MemberSource::ArchiveEntry { library } => {
            let bak = spec_backup_name(libs[library as int]);
            if m.ordinal != 0 {
                seq![
                    ActionV::ExtractMember { archive: bak, member: m.scanned },
                    ActionV::DeleteMember { archive: bak, member: m.scanned },
                    ActionV::RenameFile { from: m.scanned, to: effective_name(m) },
                    insert_action(out, effective_name(m), created),
                    ActionV::RemoveFile { path: effective_name(m) },
                ]
            } else {
                seq![
                    ActionV::ExtractMember { archive: bak, member: m.scanned },
                    insert_action(out, m.scanned, created),
                    ActionV::RemoveFile { path: m.scanned },
                ]
            }
        },
    }
}

/// The whole merge: each member's operations in unified-list order, the
/// creation state threaded through from the first insertion on.
pub open spec fn spec_plan(
    ms: Seq<MemberView>,
    libs: Seq<Seq<char>>,
    out: Seq<char>,
    created: bool,
) -> Seq<ActionV>
    decreases ms.len(),
{
    if ms.len() == 0 {
        Seq::empty()
    } else {
        plan_for_member(ms[0], libs, out, created) + spec_plan(ms.drop_first(), libs, out, true)
    }
}

/// Extending the member list extends the plan at its end, with the creation
/// state the earlier members leave behind.
pub proof fn lemma_spec_plan_snoc(
    ms: Seq<MemberView>,
    m: MemberView,
    libs: Seq<Seq<char>>,
    out: Seq<char>,
    created: bool,
)
    ensures
        spec_plan(ms.push(m), libs, out, created) == spec_plan(ms, libs, out, created)
            + plan_for_member(m, libs, out, created || ms.len() > 0),
    decreases ms.len(),
{
    if ms.len() == 0 {
        reveal_with_fuel(spec_plan, 2);
        assert(ms.push(m)[0] == m);
        assert(ms.push(m).drop_first() =~= Seq::<MemberView>::empty());
        assert(spec_plan(ms.push(m), libs, out, created) =~= spec_plan(ms, libs, out, created)
            + plan_for_member(m, libs, out, created));
    } else {
        assert(ms.push(m)[0] == ms[0]);
        assert(ms.push(m).drop_first() =~= ms.drop_first().push(m));
        lemma_spec_plan_snoc(ms.drop_first(), m, libs, out, true);
        assert(spec_plan(ms.push(m), libs, out, created) =~= spec_plan(ms, libs, out, created)
            + plan_for_member(m, libs, out, true));
    }
}

fn insert_exec(out: &str, file: String, created: bool) -> (a: Action)
    ensures
        a@ == insert_action(out@, file@, created),
{
    if created {
        Action::InsertAppend { archive: out.to_owned(), file }
    } else {
        Action::InsertCreate { archive: out.to_owned(), file }
    }
}

/// Every archive-entry member points into the source archive list.
pub open spec fn members_well_formed(ms: Seq<MemberView>, nlibs: nat) -> bool {
    forall|k: int|
        0 <= k < ms.len() ==> ((#[trigger] ms[k]).source matches MemberSource::ArchiveEntry {
            library,
        } ==> library < nlibs)
}

/// Drives the merge: emits, member by member in unified-list order, the
/// extract, delete, rename, insert and cleanup operations that materialize
/// the output archive at `new_library`, the first insertion creating it and
/// every later one appending.  Returns the count of members written and the
/// operation sequence.
pub fn create_new_library(
    libraries: &Vec<String>,
    members: &Vec<Member>,
    new_library: &str,
) -> (r: (usize, Vec<Action>))
    requires
        members_well_formed(member_views(members@), libraries@.len() as nat),
    ensures
        r.0 == members@.len(),
        action_views(r.1@) == spec_plan(
            member_views(members@),
            string_views(libraries@),
            new_library@,
            false,
        ),
{
    let ghost mv = member_views(members@);
    let ghost lv = string_views(libraries@);
    let mut acts: Vec<Action> = Vec::new();
    let mut created = false;
    let mut count: usize = 0;
    proof {
        assert(mv.take(0) =~= Seq::<MemberView>::empty());
        assert(action_views(acts@) =~= spec_plan(mv.take(0), lv, new_library@, false));
    }
    while count < members.len()
        invariant
            count <= members@.len(),
            mv == member_views(members@),
            lv == string_views(libraries@),
            mv.len() == members@.len(),
            members_well_formed(mv, libraries@.len() as nat),
            created == (count > 0),
            action_views(acts@) == spec_plan(mv.take(count as int), lv, new_library@, false),
        decreases members@.len() - count,
    {
        let ghost prev = action_views(acts@);
        proof {
            assert(mv[count as int] == members@[count as int]@);
        }
        match members[count].source {
            MemberSource::DirectFile => {
                let eff = member_effective_name(&members[count]);
                acts.push(insert_exec(new_library, eff, created));
            },
            MemberSource::ArchiveEntry { library } => {
                let bak = backup_name(libraries[library].as_str());
                let sc = members[count].scanned.clone();
                acts.push(Action::ExtractMember { archive: bak.clone(), member: sc.clone() });
                if members[count].ordinal != 0 {
                    let eff = member_effective_name(&members[count]);
                    acts.push(Action::DeleteMember { archive: bak, member: sc.clone() });
                    acts.push(Action::RenameFile { from: sc, to: eff.clone() });
                    acts.push(insert_exec(new_library, eff.clone(), created));
                    acts.push(Action::RemoveFile { path: eff });
                } else {
                    acts.push(insert_exec(new_library, sc.clone(), created));
                    acts.push(Action::RemoveFile { path: sc });
                }
            },
        }
        proof {
            lemma_spec_plan_snoc(mv.take(count as int), mv[count as int], lv, new_library@, false);
            assert(mv.take(count as int).push(mv[count as int]) =~= mv.take(count as int + 1));
            assert(action_views(acts@) =~= prev + plan_for_member(
                mv[count as int],
                lv,
                new_library@,
                created,
            ));
        }
        created = true;
        count = count + 1;
    }
    proof {
        assert(mv.take(members@.len() as int) =~= mv);
    }
    (count, acts)
}

/// The action inserts a file into the output archive.
pub open spec fn is_insert(a: ActionV) -> bool {
    a is InsertCreate || a is InsertAppend
}

/// The file an insertion carries.
pub open spec fn insert_file_of(a: ActionV) -> Seq<char> {
    match a {
        ActionV::InsertCreate { file, .. } => file,
        ActionV::InsertAppend { file, .. } => file,
        _ => Seq::empty(),
    }
}

/// The files a plan inserts into the output archive, in order.
pub open spec fn inserted_files(p: Seq<ActionV>) -> Seq<Seq<char>>
    decreases p.len(),
{
    if p.len() == 0 {
        Seq::empty()
    } else {
        let rest = inserted_files(p.drop_first());
        if is_insert(p[0]) {
            seq![insert_file_of(p[0])] + rest
        } else {
            rest
        }
    }
}

/// For each insertion of a plan, in order: whether it is the creating form.
pub open spec fn insert_kinds(p: Seq<ActionV>) -> Seq<bool>
    decreases p.len(),
{
    if p.len() == 0 {
        Seq::empty()
    } else {
        let rest = insert_kinds(p.drop_first());
        if is_insert(p[0]) {
            seq![p[0] is InsertCreate] + rest
        } else {
            rest
        }
    }
}

/// The action mutates (creates, overwrites, renames or deletes) the file at
/// path `p`.  Listing and extraction read an archive; extraction writes the
/// extracted member's file.
pub open spec fn action_writes(a: ActionV, p: Seq<char>) -> bool {
    match a {
        ActionV::CopyFile { from, to } => to == p,
        ActionV::RemoveFile { path } => path == p,
        ActionV::ExtractMember { archive, member } => member == p,
        ActionV::DeleteMember { archive, member } => archive == p,
        ActionV::RenameFile { from, to } => from == p || to == p,
        ActionV::InsertCreate { archive, file } => archive == p,
        ActionV::InsertAppend { archive, file } => archive == p,
    }
}

/// Every operation of a whole run: snapshot the sources, merge, remove the
/// snapshots.
pub open spec fn run_actions(
    libs: Seq<Seq<char>>,
    ms: Seq<MemberView>,
    out: Seq<char>,
) -> Seq<ActionV> {
    backup_actions(libs) + spec_plan(ms, libs, out, false) + erase_actions(libs)
}

/// Picks the archiver binary from the discovered candidate list: the last
/// candidate wins; an empty list means no tool could be located.
pub fn get_lib_tool(candidates: &Vec<String>) -> (r: Result<String, LibmanError>)
    ensures
        candidates@.len() == 0 <==> r is Err,
        r is Err ==> (r matches Err(e) && e == LibmanError::ToolNotFound),
        r is Ok ==> (r matches Ok(t) && t@ == candidates@.last()@),
{
    if candidates.len() == 0 {
        Err(LibmanError::ToolNotFound)
    } else {
        Ok(candidates[candidates.len() - 1].clone())
    }
}

} // verus!
