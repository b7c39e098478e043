//! The unified member list: one entry per unit destined for the output
//! archive, with its provenance, the member name exactly as scanned, and the
//! disambiguating ordinal the deduplication pass assigns.

use vstd::prelude::*;

use crate::text::{spec_decimal, usize_to_string};

verus! {

/// Where a member came from: a loose object file named on the command line,
/// or an entry scanned out of one of the source archives.
#[derive(Clone, Copy, PartialEq, Eq, Structural, Debug)]
pub enum MemberSource {
    DirectFile,
    ArchiveEntry { library: usize },
}

/// One unit destined for the output archive.
///
/// `name` is what deduplication and output naming work on; `scanned` is the
/// member's name exactly as the archiver listed it, which is what extraction
/// and deletion must use.  A plain listing reports the entry name itself, so
/// the two coincide; a bannered listing reports a path, recorded as scanned,
/// whose trimmed base becomes `name`.  For a loose object file both are the
/// given path.
///
/// `ordinal == 0` means the name collides with no other member and is used
/// unchanged; `ordinal > 0` marks the member as part of a collision group,
/// disambiguated by appending the decimal rendering of the ordinal.
#[derive(Debug, PartialEq)]
pub struct Member {
    pub name: String,
    pub scanned: String,
    pub source: MemberSource,
    pub ordinal: usize,
}

/// The mathematical image of a `Member`.
pub struct MemberView {
    pub name: Seq<char>,
    pub scanned: Seq<char>,
    pub source: MemberSource,
    pub ordinal: nat,
}

impl View for Member {
    type V = MemberView;

    open spec fn view(&self) -> MemberView {
        MemberView {
            name: self.name@,
            scanned: self.scanned@,
            source: self.source,
            ordinal: self.ordinal as nat,
        }
    }
}

/// The member list as a sequence of views.
pub open spec fn member_views(ms: Seq<Member>) -> Seq<MemberView> {
    ms.map_values(|m: Member| m@)
}

/// The member names, in list order.
pub open spec fn names_of(ms: Seq<MemberView>) -> Seq<Seq<char>> {
    ms.map_values(|m: MemberView| m.name)
}

/// The name under which a member enters the output archive: its name, with
/// the decimal ordinal appended when the member is part of a collision
/// group.
pub open spec fn effective_name(m: MemberView) -> Seq<char> {
    if m.ordinal == 0 {
        m.name
    } else {
        m.name + spec_decimal(m.ordinal)
    }
}

/// Computes the name under which a member enters the output archive.
pub fn member_effective_name(m: &Member) -> (r: String)
    ensures
        r@ == effective_name(m@),
{
    let mut r = m.name.clone();
    if m.ordinal != 0 {
        let d = usize_to_string(m.ordinal);
        r.append(d.as_str());
    }
    r
}

/// Appends a loose object file to the unified member list, in command-line
/// order, with no archiver call.
pub fn add_member(members: &mut Vec<Member>, name: &str)
    ensures
        member_views(final(members)@) == member_views(old(members)@).push(
            MemberView {
                name: name@,
                scanned: name@,
                source: MemberSource::DirectFile,
                ordinal: 0,
            },
        ),
{
    let m = Member {
        name: name.to_owned(),
        scanned: name.to_owned(),
        source: MemberSource::DirectFile,
        ordinal: 0,
    };
    members.push(m);
    proof {
        assert(member_views(members@) =~= member_views(old(members)@).push(
            MemberView {
                name: name@,
                scanned: name@,
                source: MemberSource::DirectFile,
                ordinal: 0,
            },
        ));
    }
}

} // verus!
