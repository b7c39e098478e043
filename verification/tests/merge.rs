use libman::dedup::resolve_duplicates;
use libman::member::{add_member, member_effective_name, Member, MemberSource};
use libman::plan::{create_new_library, erase_backups, get_lib_tool, make_backups, Action};
use libman::scan::{scan_bannered_library, scan_library};

fn s(text: &str) -> String {
    String::from(text)
}

fn archive_member(name: &str, library: usize) -> Member {
    Member {
        name: s(name),
        scanned: s(name),
        source: MemberSource::ArchiveEntry { library },
        ordinal: 0,
    }
}

#[test]
fn no_duplicates_keep_ordinal_zero() {
    let mut members = vec![
        archive_member("x.o", 0),
        archive_member("y.o", 0),
        archive_member("z.o", 1),
    ];
    resolve_duplicates(&mut members);
    assert_eq!(members.len(), 3);
    for m in &members {
        assert_eq!(m.ordinal, 0);
    }
}

#[test]
fn duplicates_numbered_in_scan_order() {
    let mut members = vec![
        archive_member("a.o", 0),
        archive_member("a.o", 0),
        archive_member("a.o", 1),
    ];
    resolve_duplicates(&mut members);
    assert_eq!(members[0].ordinal, 1);
    assert_eq!(members[1].ordinal, 2);
    assert_eq!(members[2].ordinal, 3);
}

#[test]
fn mixed_groups_resolved_independently() {
    let mut members = vec![
        archive_member("a.o", 0),
        archive_member("b.o", 0),
        archive_member("a.o", 1),
        archive_member("c.o", 1),
        archive_member("b.o", 1),
    ];
    resolve_duplicates(&mut members);
    let ordinals: Vec<usize> = members.iter().map(|m| m.ordinal).collect();
    assert_eq!(ordinals, vec![1, 1, 2, 0, 2]);
}

#[test]
fn resolving_twice_changes_nothing() {
    let mut members = vec![
        archive_member("a.o", 0),
        archive_member("b.o", 0),
        archive_member("a.o", 1),
    ];
    resolve_duplicates(&mut members);
    let once: Vec<usize> = members.iter().map(|m| m.ordinal).collect();
    assert_eq!(once, vec![1, 0, 2]);
    resolve_duplicates(&mut members);
    let twice: Vec<usize> = members.iter().map(|m| m.ordinal).collect();
    assert_eq!(once, twice);
}

#[test]
fn preassigned_ordinals_are_skipped() {
    // A member already holding a nonzero ordinal never starts a group scan.
    let mut members = vec![archive_member("a.o", 0), archive_member("b.o", 0)];
    members[0].ordinal = 5;
    resolve_duplicates(&mut members);
    assert_eq!(members[0].ordinal, 5);
    assert_eq!(members[1].ordinal, 0);
}

#[test]
fn effective_name_appends_ordinal() {
    let mut m = archive_member("x.o", 0);
    assert_eq!(member_effective_name(&m), s("x.o"));
    m.ordinal = 3;
    assert_eq!(member_effective_name(&m), s("x.o3"));
    m.ordinal = 12;
    assert_eq!(member_effective_name(&m), s("x.o12"));
}

#[test]
fn scan_appends_members_in_archive_order() {
    let mut members: Vec<Member> = Vec::new();
    let count = scan_library(2, "first.o\nsecond.o\nthird.o\n", &mut members);
    assert_eq!(count, 3);
    assert_eq!(members.len(), 3);
    assert_eq!(members[0].name, s("first.o"));
    assert_eq!(members[1].name, s("second.o"));
    assert_eq!(members[2].name, s("third.o"));
    for m in &members {
        assert_eq!(m.source, MemberSource::ArchiveEntry { library: 2 });
        assert_eq!(m.ordinal, 0);
    }
}

#[test]
fn bannered_scan_skips_banner_and_trims_paths() {
    let mut members: Vec<Member> = Vec::new();
    let listing = "Tool Banner Line\nCopyright Line\n\ndir\\alpha.obj\nbeta.obj\n";
    let count = scan_bannered_library(1, listing, &mut members);
    assert_eq!(count, 2);
    assert_eq!(members[0].name, s("alpha"));
    assert_eq!(members[0].scanned, s("dir\\alpha.obj"));
    assert_eq!(members[1].name, s("beta"));
    assert_eq!(members[1].scanned, s("beta.obj"));
    assert_eq!(members[0].source, MemberSource::ArchiveEntry { library: 1 });
}

#[test]
fn bannered_scan_without_blank_line_adds_nothing() {
    let mut members: Vec<Member> = Vec::new();
    let count = scan_bannered_library(0, "banner only\nno blank\n", &mut members);
    assert_eq!(count, 0);
    assert!(members.is_empty());
}

#[test]
fn scan_of_empty_listing_adds_nothing() {
    let mut members: Vec<Member> = Vec::new();
    let count = scan_library(0, "", &mut members);
    assert_eq!(count, 0);
    assert!(members.is_empty());
}

#[test]
fn direct_objects_appended_after_scans() {
    let mut members: Vec<Member> = Vec::new();
    scan_library(0, "a.o\n", &mut members);
    assert_eq!(members[0].scanned, s("a.o"));
    add_member(&mut members, "extra.o");
    assert_eq!(members.len(), 2);
    assert_eq!(members[1].name, s("extra.o"));
    assert_eq!(members[1].scanned, s("extra.o"));
    assert_eq!(members[1].source, MemberSource::DirectFile);
    assert_eq!(members[1].ordinal, 0);
}

#[test]
fn backups_snapshot_each_source() {
    let libraries = vec![s("first.a"), s("second.a")];
    let acts = make_backups(&libraries);
    assert_eq!(
        acts,
        vec![
            Action::CopyFile { from: s("first.a"), to: s("first.bak") },
            Action::CopyFile { from: s("second.a"), to: s("second.bak") },
        ]
    );
    let gone = erase_backups(&libraries);
    assert_eq!(
        gone,
        vec![
            Action::RemoveFile { path: s("first.bak") },
            Action::RemoveFile { path: s("second.bak") },
        ]
    );
}

#[test]
fn two_archive_scenario_produces_expected_plan() {
    // Source archive A holds x.o, y.o; source archive B holds x.o, z.o.
    let libraries = vec![s("first.a"), s("second.a")];
    let mut members: Vec<Member> = Vec::new();
    scan_library(0, "x.o\ny.o\n", &mut members);
    scan_library(1, "x.o\nz.o\n", &mut members);
    let names: Vec<&str> = members.iter().map(|m| m.name.as_str()).collect();
    assert_eq!(names, vec!["x.o", "y.o", "x.o", "z.o"]);

    resolve_duplicates(&mut members);
    let ordinals: Vec<usize> = members.iter().map(|m| m.ordinal).collect();
    assert_eq!(ordinals, vec![1, 0, 2, 0]);

    let (count, acts) = create_new_library(&libraries, &members, "out.a");
    assert_eq!(count, 4);
    assert_eq!(
        acts,
        vec![
            Action::ExtractMember { archive: s("first.bak"), member: s("x.o") },
            Action::DeleteMember { archive: s("first.bak"), member: s("x.o") },
            Action::RenameFile { from: s("x.o"), to: s("x.o1") },
            Action::InsertCreate { archive: s("out.a"), file: s("x.o1") },
            Action::RemoveFile { path: s("x.o1") },
            Action::ExtractMember { archive: s("first.bak"), member: s("y.o") },
            Action::InsertAppend { archive: s("out.a"), file: s("y.o") },
            Action::RemoveFile { path: s("y.o") },
            Action::ExtractMember { archive: s("second.bak"), member: s("x.o") },
            Action::DeleteMember { archive: s("second.bak"), member: s("x.o") },
            Action::RenameFile { from: s("x.o"), to: s("x.o2") },
            Action::InsertAppend { archive: s("out.a"), file: s("x.o2") },
            Action::RemoveFile { path: s("x.o2") },
            Action::ExtractMember { archive: s("second.bak"), member: s("z.o") },
            Action::InsertAppend { archive: s("out.a"), file: s("z.o") },
            Action::RemoveFile { path: s("z.o") },
        ]
    );
}

#[test]
fn direct_member_inserted_under_effective_name() {
    let libraries: Vec<String> = Vec::new();
    let mut members: Vec<Member> = Vec::new();
    add_member(&mut members, "one.o");
    add_member(&mut members, "two.o");
    resolve_duplicates(&mut members);
    let (count, acts) = create_new_library(&libraries, &members, "out.a");
    assert_eq!(count, 2);
    assert_eq!(
        acts,
        vec![
            Action::InsertCreate { archive: s("out.a"), file: s("one.o") },
            Action::InsertAppend { archive: s("out.a"), file: s("two.o") },
        ]
    );
}

#[test]
fn round_trip_single_archive_keeps_names() {
    // One source, no collisions: the output holds exactly the scanned
    // names, in order, with nothing renamed.
    let libraries = vec![s("only.a")];
    let mut members: Vec<Member> = Vec::new();
    scan_library(0, "m1.o\nm2.o\nm3.o\n", &mut members);
    resolve_duplicates(&mut members);
    let (count, acts) = create_new_library(&libraries, &members, "out.a");
    assert_eq!(count, 3);
    let inserted: Vec<String> = acts
        .iter()
        .filter_map(|a| match a {
            Action::InsertCreate { file, .. } => Some(file.clone()),
            Action::InsertAppend { file, .. } => Some(file.clone()),
            _ => None,
        })
        .collect();
    assert_eq!(inserted, vec![s("m1.o"), s("m2.o"), s("m3.o")]);
    let creates = acts
        .iter()
        .filter(|a| matches!(a, Action::InsertCreate { .. }))
        .count();
    assert_eq!(creates, 1);
    assert!(matches!(&acts[1], Action::InsertCreate { .. }));
}

#[test]
fn duplicate_direct_objects_keep_suffixed_insertions() {
    // Colliding loose objects are inserted under suffixed names, and the
    // plan contains no rename that would produce files of those names: the
    // collision between direct objects is a documented known issue, kept
    // as it stands rather than silently repaired.
    let libraries: Vec<String> = Vec::new();
    let mut members: Vec<Member> = Vec::new();
    add_member(&mut members, "same.o");
    add_member(&mut members, "same.o");
    resolve_duplicates(&mut members);
    let (_, acts) = create_new_library(&libraries, &members, "out.a");
    assert_eq!(
        acts,
        vec![
            Action::InsertCreate { archive: s("out.a"), file: s("same.o1") },
            Action::InsertAppend { archive: s("out.a"), file: s("same.o2") },
        ]
    );
}

fn written_paths(a: &Action) -> Vec<String> {
    match a {
        Action::CopyFile { to, .. } => vec![to.clone()],
        Action::RemoveFile { path } => vec![path.clone()],
        Action::ExtractMember { member, .. } => vec![member.clone()],
        Action::DeleteMember { archive, .. } => vec![archive.clone()],
        Action::RenameFile { from, to } => vec![from.clone(), to.clone()],
        Action::InsertCreate { archive, .. } => vec![archive.clone()],
        Action::InsertAppend { archive, .. } => vec![archive.clone()],
    }
}

#[test]
fn sources_never_written_during_run() {
    let libraries = vec![s("first.a"), s("second.a")];
    let mut members: Vec<Member> = Vec::new();
    scan_library(0, "x.o\ny.o\n", &mut members);
    scan_library(1, "x.o\nz.o\n", &mut members);
    resolve_duplicates(&mut members);
    let mut run: Vec<Action> = Vec::new();
    run.extend(make_backups(&libraries));
    let (_, merge) = create_new_library(&libraries, &members, "out.a");
    run.extend(merge);
    run.extend(erase_backups(&libraries));
    for act in &run {
        for p in written_paths(act) {
            assert_ne!(p, s("first.a"));
            assert_ne!(p, s("second.a"));
        }
    }
}

#[test]
fn lib_tool_picks_last_candidate() {
    let none: Vec<String> = Vec::new();
    assert_eq!(get_lib_tool(&none), Err(libman::errors::LibmanError::ToolNotFound));
    let some = vec![s("old/lib.exe"), s("new/lib.exe")];
    assert_eq!(get_lib_tool(&some).unwrap(), s("new/lib.exe"));
}
