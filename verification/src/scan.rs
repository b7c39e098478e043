//! The scanner: turns one archiver list invocation's output into member
//! entries, in the order the archiver reported them, and derives a member's
//! base name from an object path.

use vstd::prelude::*;

use crate::member::{member_views, Member, MemberSource, MemberView};
use crate::text::{push_char, spec_trim_trailing, trim_trailing};

verus! {

/// A line with a single trailing carriage return removed.
pub open spec fn strip_cr(l: Seq<char>) -> Seq<char> {
    if l.len() > 0 && l.last() == '\r' {
        l.drop_last()
    } else {
        l
    }
}

/// The lines of `s`, with `cur` the partial line read so far: split at every
/// newline, drop one carriage return before each newline, and produce no
/// final empty line for input that ends in a newline.  An unterminated final
/// line is kept as it stands, carriage return included.
pub open spec fn spec_lines_from(s: Seq<char>, cur: Seq<char>) -> Seq<Seq<char>>
    decreases s.len(),
{
    if s.len() == 0 {
        if cur.len() == 0 {
            Seq::empty()
        } else {
            seq![cur]
        }
    } else if s[0] == '\n' {
        seq![strip_cr(cur)] + spec_lines_from(s.drop_first(), Seq::empty())
    } else {
        spec_lines_from(s.drop_first(), cur.push(s[0]))
    }
}

/// The lines of `s`.
pub open spec fn spec_lines(s: Seq<char>) -> Seq<Seq<char>> {
    spec_lines_from(s, Seq::empty())
}

/// The views of a list of strings.
pub open spec fn string_views(ss: Seq<String>) -> Seq<Seq<char>> {
    ss.map_values(|s: String| s@)
}

fn finish_line(cur: &String) -> (r: String)
    ensures
        r@ == strip_cr(cur@),
{
    let len = cur.as_str().unicode_len();
    if len > 0 && cur.as_str().get_char(len - 1) == '\r' {
        let r = cur.as_str().substring_char(0, len - 1).to_owned();
        proof {
            assert(cur@.drop_last() =~= cur@.subrange(0, len - 1));
        }
        r
    } else {
        cur.clone()
    }
}

/// Splits text into lines: the archiver reports one member name per line.
pub fn split_lines(s: &str) -> (lines: Vec<String>)
    ensures
        string_views(lines@) == spec_lines(s@),
{
    let n = s.unicode_len();
    let mut lines: Vec<String> = Vec::new();
    let mut cur = String::new();
    let mut i: usize = 0;
    proof {
        assert(s@.skip(0) =~= s@);
        assert(string_views(lines@) =~= Seq::<Seq<char>>::empty());
    }
    while i < n
        invariant
            i <= n,
            n == s@.len(),
            spec_lines(s@) == string_views(lines@) + spec_lines_from(s@.skip(i as int), cur@),
        decreases n - i,
    {
        let ghost prev_lines = lines@;
        let ghost prev_cur = cur@;
        proof {
            assert(s@.skip(i as int)[0] == s@[i as int]);
            assert(s@.skip(i as int).drop_first() =~= s@.skip(i as int + 1));
        }
        let c = s.get_char(i);
        if c == '\n' {
            let finished = finish_line(&cur);
            lines.push(finished);
            cur = String::new();
            proof {
                assert(string_views(lines@) =~= string_views(prev_lines) + seq![strip_cr(prev_cur)]);
                assert(string_views(lines@) + spec_lines_from(s@.skip(i as int + 1), cur@)
                    =~= string_views(prev_lines) + spec_lines_from(s@.skip(i as int), prev_cur));
            }
        } else {
            push_char(&mut cur, c);
        }
        i = i + 1;
    }
    proof {
        assert(s@.skip(n as int) =~= Seq::<char>::empty());
    }
    if cur.as_str().unicode_len() > 0 {
        let ghost cv = cur@;
        lines.push(cur);
        proof {
            assert(string_views(lines@) =~= string_views(lines@.drop_last()) + seq![cv]);
        }
    }
    lines
}

/// The member entries contributed by one archive's listing: a plain listing
/// reports the entry name itself, so name and scanned name coincide.
pub open spec fn scanned_members(lines: Seq<Seq<char>>, index: usize) -> Seq<MemberView> {
    lines.map_values(
        |l: Seq<char>|
            MemberView {
                name: l,
                scanned: l,
                source: MemberSource::ArchiveEntry { library: index },
                ordinal: 0,
            },
    )
}

/// Appends one source archive's members to the unified list, in archive
/// order.  `listing` is the archiver's list output for the archive at
/// position `index` of the source list; each line names one member.  Returns
/// the number of members contributed.
pub fn scan_library(index: usize, listing: &str, members: &mut Vec<Member>) -> (count: usize)
    ensures
        count == spec_lines(listing@).len(),
        member_views(final(members)@) == member_views(old(members)@) + scanned_members(
            spec_lines(listing@),
            index,
        ),
{
    let lines = split_lines(listing);
    let ghost base = member_views(members@);
    let count = lines.len();
    let mut k: usize = 0;
    proof {
        assert(member_views(members@) =~= base + scanned_members(
            string_views(lines@).take(0),
            index,
        ));
    }
    while k < count
        invariant
            k <= count,
            count == lines@.len(),
            member_views(members@) == base + scanned_members(
                string_views(lines@).take(k as int),
                index,
            ),
        decreases count - k,
    {
        let ghost prev = member_views(members@);
        let m = Member {
            name: lines[k].clone(),
            scanned: lines[k].clone(),
            source: MemberSource::ArchiveEntry { library: index },
            ordinal: 0,
        };
        members.push(m);
        proof {
            let v = MemberView {
                name: lines@[k as int]@,
                scanned: lines@[k as int]@,
                source: MemberSource::ArchiveEntry { library: index },
                ordinal: 0,
            };
            assert(string_views(lines@).take(k as int + 1) =~= string_views(lines@).take(
                k as int,
            ).push(lines@[k as int]@));
            assert(scanned_members(string_views(lines@).take(k as int + 1), index)
                =~= scanned_members(string_views(lines@).take(k as int), index).push(v));
            assert(member_views(members@) =~= prev.push(v));
            assert(member_views(members@) =~= base + scanned_members(
                string_views(lines@).take(k as int + 1),
                index,
            ));
        }
        k = k + 1;
    }
    proof {
        assert(string_views(lines@).take(count as int) =~= string_views(lines@));
    }
    count
}

/// The lines after a listing's banner: everything past the first empty line
/// (nothing, when no line is empty).
pub open spec fn after_banner(lines: Seq<Seq<char>>) -> Seq<Seq<char>>
    decreases lines.len(),
{
    if lines.len() == 0 {
        Seq::empty()
    } else if lines[0].len() == 0 {
        lines.drop_first()
    } else {
        after_banner(lines.drop_first())
    }
}

proof fn lemma_after_banner_at(ls: Seq<Seq<char>>, e: int)
    requires
        0 <= e <= ls.len(),
        forall|k: int| 0 <= k < e ==> ls[k].len() != 0,
        e < ls.len() ==> ls[e].len() == 0,
    ensures
        e < ls.len() ==> after_banner(ls) == ls.skip(e + 1),
        e == ls.len() ==> after_banner(ls) == Seq::<Seq<char>>::empty(),
    decreases ls.len(),
{
    if ls.len() == 0 {
    } else if e == 0 {
        assert(ls.drop_first() =~= ls.skip(1));
    } else {
        assert forall|k: int| 0 <= k < e - 1 implies ls.drop_first()[k].len() != 0 by {
            assert(ls.drop_first()[k] == ls[k + 1]);
        }
        assert(e - 1 < ls.drop_first().len() ==> ls.drop_first()[e - 1].len() == 0);
        lemma_after_banner_at(ls.drop_first(), e - 1);
        if e < ls.len() {
            assert(ls.drop_first().skip(e) =~= ls.skip(e + 1));
        }
    }
}

/// A path separator as the archiver prints member paths.
pub open spec fn is_sep(c: char) -> bool {
    c == '/' || c == '\\'
}

/// The part of `s` after its last path separator (all of `s` when it has
/// none).
pub open spec fn after_last_sep(s: Seq<char>) -> Seq<char>
    decreases s.len(),
{
    if s.len() == 0 {
        s
    } else if is_sep(s.last()) {
        Seq::empty()
    } else {
        after_last_sep(s.drop_last()).push(s.last())
    }
}

proof fn lemma_after_last_sep(s: Seq<char>, e: int)
    requires
        0 <= e <= s.len(),
        e == 0 || is_sep(s[e - 1]),
        forall|k: int| e <= k < s.len() ==> !is_sep(s[k]),
    ensures
        after_last_sep(s) == s.skip(e),
    decreases s.len(),
{
    if s.len() == e {
        if e == 0 {
            assert(after_last_sep(s) =~= s.skip(0));
        } else {
            assert(after_last_sep(s) =~= s.skip(e));
        }
    } else {
        lemma_after_last_sep(s.drop_last(), e);
        assert(after_last_sep(s) == after_last_sep(s.drop_last()).push(s.last()));
        assert(s.drop_last().skip(e).push(s.last()) =~= s.skip(e));
    }
}

/// The member entries contributed by a bannered listing: one per line after
/// the banner, recorded under its trimmed base name, with the listed path
/// kept as the scanned name for extraction and deletion.
pub open spec fn scanned_base_members(lines: Seq<Seq<char>>, index: usize) -> Seq<MemberView> {
    lines.map_values(
        |l: Seq<char>|
            MemberView {
                name: spec_trim_trailing(after_last_sep(l), obj_trim_set()),
                scanned: l,
                source: MemberSource::ArchiveEntry { library: index },
                ordinal: 0,
            },
    )
}

/// Appends one source archive's members from a listing that opens with a
/// banner: member paths follow the first empty line, and each is recorded
/// under its base name.  Returns the number of members contributed.
pub fn scan_bannered_library(index: usize, listing: &str, members: &mut Vec<Member>) -> (count:
    usize)
    ensures
        count == after_banner(spec_lines(listing@)).len(),
        member_views(final(members)@) == member_views(old(members)@) + scanned_base_members(
            after_banner(spec_lines(listing@)),
            index,
        ),
{
    let lines = split_lines(listing);
    let ghost lsv = string_views(lines@);
    let ghost base = member_views(members@);
    let n = lines.len();
    let mut start: usize = 0;
    while start < n && !lines[start].as_str().is_empty()
        invariant
            start <= n,
            n == lines@.len(),
            lsv == string_views(lines@),
            forall|k: int| 0 <= k < start ==> lsv[k].len() != 0,
        decreases n - start,
    {
        proof {
            assert(lsv[start as int] == lines@[start as int]@);
        }
        start = start + 1;
    }
    proof {
        lemma_after_banner_at(lsv, start as int);
    }
    if start >= n {
        proof {
            assert(member_views(members@) =~= base + scanned_base_members(
                after_banner(lsv),
                index,
            ));
        }
        return 0;
    }
    let mut count: usize = 0;
    let mut k: usize = start + 1;
    proof {
        assert(lsv.subrange(start as int + 1, start as int + 1) =~= Seq::<Seq<char>>::empty());
        assert(member_views(members@) =~= base + scanned_base_members(
            lsv.subrange(start as int + 1, start as int + 1),
            index,
        ));
    }
    while k < n
        invariant
            start + 1 <= k <= n,
            n == lines@.len(),
            lsv == string_views(lines@),
            count == k - (start + 1),
            member_views(members@) == base + scanned_base_members(
                lsv.subrange(start as int + 1, k as int),
                index,
            ),
        decreases n - k,
    {
        let ghost prev = member_views(members@);
        let nm = member_base_name(lines[k].as_str());
        let m = Member {
            name: nm,
            scanned: lines[k].clone(),
            source: MemberSource::ArchiveEntry { library: index },
            ordinal: 0,
        };
        members.push(m);
        proof {
            let v = MemberView {
                name: spec_trim_trailing(after_last_sep(lsv[k as int]), obj_trim_set()),
                scanned: lsv[k as int],
                source: MemberSource::ArchiveEntry { library: index },
                ordinal: 0,
            };
            assert(lsv[k as int] == lines@[k as int]@);
            assert(lsv.subrange(start as int + 1, k as int + 1) =~= lsv.subrange(
                start as int + 1,
                k as int,
            ).push(lsv[k as int]));
            assert(scanned_base_members(lsv.subrange(start as int + 1, k as int + 1), index)
                =~= scanned_base_members(lsv.subrange(start as int + 1, k as int), index).push(v));
            assert(member_views(members@) =~= prev.push(v));
        }
        count = count + 1;
        k = k + 1;
    }
    proof {
        assert(lsv.subrange(start as int + 1, n as int) =~= lsv.skip(start as int + 1));
    }
    count
}

/// The trailing characters trimmed from a scanned object name: the object
/// extension's characters.
pub open spec fn obj_trim_set() -> Seq<char> {
    seq!['.', 'o', 'b', 'j']
}

/// The base name a scanned member is recorded under: the part of the path
/// after the last separator, with trailing object-extension characters
/// removed.
pub fn member_base_name(path: &str) -> (r: String)
    ensures
        r@ == spec_trim_trailing(after_last_sep(path@), obj_trim_set()),
{
    let n = path.unicode_len();
    let mut cut: usize = n;
    loop
        invariant
            cut <= n,
            n == path@.len(),
            forall|k: int| cut <= k < n ==> !is_sep(path@[k]),
        ensures
            cut <= n,
            forall|k: int| cut <= k < n ==> !is_sep(path@[k]),
            cut == 0 || is_sep(path@[cut - 1]),
        decreases cut,
    {
        if cut == 0 {
            break;
        }
        let c = path.get_char(cut - 1);
        if c == '/' || c == '\\' {
            break;
        }
        cut = cut - 1;
    }
    proof {
        lemma_after_last_sep(path@, cut as int);
    }
    let tail = path.substring_char(cut, n);
    let mut cs: Vec<char> = Vec::new();
    cs.push('.');
    cs.push('o');
    cs.push('b');
    cs.push('j');
    proof {
        assert(cs@ =~= obj_trim_set());
    }
    trim_trailing(tail, &cs)
}

} // verus!
