//! The command-line scan: classifies each positional argument as a source
//! archive or an object file by its extension, and consumes `-o <path>` as
//! the output archive, wherever it appears.
//!
//! Rejection is total: too few arguments, an unrecognized extension, or a
//! missing output path all yield the usage error before any work begins.

use vstd::prelude::*;

use crate::errors::LibmanError;
use crate::scan::string_views;
use crate::text::{has_suffix, str_ends_with, str_eq};

verus! {

/// The classified arguments of one run.
#[derive(Debug, PartialEq)]
pub struct ParsedArgs {
    /// Source archive paths, in command-line order.
    pub libraries: Vec<String>,
    /// Loose object file paths, in command-line order.
    pub objs: Vec<String>,
    /// The output archive path, from the last `-o`.
    pub target: String,
}

/// The state of the argument scan.
pub struct ScanState {
    pub libs: Seq<Seq<char>>,
    pub objs: Seq<Seq<char>>,
    pub target: Seq<char>,
    pub bad: bool,
}

/// The flag that names the output archive.
pub open spec fn output_flag() -> Seq<char> {
    seq!['-', 'o']
}

/// The scan before any argument is read.
pub open spec fn init_scan_state() -> ScanState {
    ScanState { libs: Seq::empty(), objs: Seq::empty(), target: Seq::empty(), bad: false }
}

/// One step at a time over `args[i..]`: `skip` marks an argument already
/// consumed as the value of `-o`.  The flag takes the next argument (the last
/// occurrence wins), an empty argument is ignored, a path is classified by
/// its extension, and anything else stops the scan as malformed.
pub open spec fn spec_scan(
    args: Seq<Seq<char>>,
    i: int,
    skip: bool,
    lib_ext: Seq<char>,
    obj_ext: Seq<char>,
    acc: ScanState,
) -> ScanState
    decreases args.len() - i,
{
    if i < 0 || i >= args.len() {
        acc
    } else if skip {
        spec_scan(args, i + 1, false, lib_ext, obj_ext, acc)
    } else if args[i] == output_flag() {
        if i + 1 < args.len() {
            spec_scan(
                args,
                i + 1,
                true,
                lib_ext,
                obj_ext,
                ScanState { libs: acc.libs, objs: acc.objs, target: args[i + 1], bad: acc.bad },
            )
        } else {
            spec_scan(args, i + 1, false, lib_ext, obj_ext, acc)
        }
    } else if args[i].len() == 0 {
        spec_scan(args, i + 1, false, lib_ext, obj_ext, acc)
    } else if has_suffix(args[i], lib_ext) {
        spec_scan(
            args,
            i + 1,
            false,
            lib_ext,
            obj_ext,
            ScanState { libs: acc.libs.push(args[i]), objs: acc.objs, target: acc.target, bad: acc.bad },
        )
    } else if has_suffix(args[i], obj_ext) {
        spec_scan(
            args,
            i + 1,
            false,
            lib_ext,
            obj_ext,
            ScanState { libs: acc.libs, objs: acc.objs.push(args[i]), target: acc.target, bad: acc.bad },
        )
    } else {
        ScanState { libs: acc.libs, objs: acc.objs, target: acc.target, bad: true }
    }
}

/// The scan of a whole argument vector (position 0 is the program name).
pub open spec fn spec_parse(args: Seq<Seq<char>>, lib_ext: Seq<char>, obj_ext: Seq<char>) -> ScanState {
    spec_scan(args, 1, false, lib_ext, obj_ext, init_scan_state())
}

/// The runs that print usage and stop before touching anything: no
/// arguments, a malformed argument, or no output archive named.
pub open spec fn usage_rejected(args: Seq<Seq<char>>, lib_ext: Seq<char>, obj_ext: Seq<char>) -> bool {
    ||| args.len() < 2
    ||| spec_parse(args, lib_ext, obj_ext).bad
    ||| spec_parse(args, lib_ext, obj_ext).target.len() == 0
}

/// A scan that never sees the output flag leaves the target unset.
proof fn lemma_scan_no_flag(
    args: Seq<Seq<char>>,
    i: int,
    lib_ext: Seq<char>,
    obj_ext: Seq<char>,
    acc: ScanState,
)
    requires
        forall|k: int| i <= k < args.len() ==> args[k] != output_flag(),
    ensures
        spec_scan(args, i, false, lib_ext, obj_ext, acc).target == acc.target,
    decreases args.len() - i,
{
    if 0 <= i < args.len() {
        if args[i].len() == 0 {
            lemma_scan_no_flag(args, i + 1, lib_ext, obj_ext, acc);
        } else if has_suffix(args[i], lib_ext) {
            lemma_scan_no_flag(
                args,
                i + 1,
                lib_ext,
                obj_ext,
                ScanState {
                    libs: acc.libs.push(args[i]),
                    objs: acc.objs,
                    target: acc.target,
                    bad: acc.bad,
                },
            );
        } else if has_suffix(args[i], obj_ext) {
            lemma_scan_no_flag(
                args,
                i + 1,
                lib_ext,
                obj_ext,
                ScanState {
                    libs: acc.libs,
                    objs: acc.objs.push(args[i]),
                    target: acc.target,
                    bad: acc.bad,
                },
            );
        }
    }
}

/// Without `-o` among the arguments, the run is rejected as a usage error.
pub proof fn lemma_no_output_flag_rejects(
    args: Seq<Seq<char>>,
    lib_ext: Seq<char>,
    obj_ext: Seq<char>,
)
    requires
        forall|k: int| 1 <= k < args.len() ==> args[k] != output_flag(),
    ensures
        usage_rejected(args, lib_ext, obj_ext),
{
    lemma_scan_no_flag(args, 1, lib_ext, obj_ext, init_scan_state());
}

/// Classifies the argument vector.  `Err` is exactly the usage-rejected
/// case; on success the archives, objects and output path come back in
/// command-line order, untouched.
pub fn parse_args(args: &Vec<String>, lib_ext: &str, obj_ext: &str) -> (r: Result<
    ParsedArgs,
    LibmanError,
>)
    ensures
        usage_rejected(string_views(args@), lib_ext@, obj_ext@) <==> r is Err,
        r is Err ==> (r matches Err(e) && e == LibmanError::Usage),
        r is Ok ==> (r matches Ok(p) && {
            let s = spec_parse(string_views(args@), lib_ext@, obj_ext@);
            &&& string_views(p.libraries@) == s.libs
            &&& string_views(p.objs@) == s.objs
            &&& p.target@ == s.target
        }),
{
    let ghost av = string_views(args@);
    let n = args.len();
    if n < 2 {
        return Err(LibmanError::Usage);
    }
    let mut libraries: Vec<String> = Vec::new();
    let mut objs: Vec<String> = Vec::new();
    let mut target = String::new();
    let mut skip = false;
    let mut i: usize = 1;
    proof {
        assert(string_views(libraries@) =~= Seq::<Seq<char>>::empty());
        assert(string_views(objs@) =~= Seq::<Seq<char>>::empty());
    }
    while i < n
        invariant
            1 <= i <= n,
            n == args@.len(),
            av == string_views(args@),
            spec_parse(av, lib_ext@, obj_ext@) == spec_scan(
                av,
                i as int,
                skip,
                lib_ext@,
                obj_ext@,
                (ScanState {
                    libs: string_views(libraries@),
                    objs: string_views(objs@),
                    target: target@,
                    bad: false,
                }),
            ),
        decreases n - i,
    {
        let ghost cur = ScanState {
            libs: string_views(libraries@),
            objs: string_views(objs@),
            target: target@,
            bad: false,
        };
        proof {
            assert(av[i as int] == args@[i as int]@);
        }
        if skip {
            skip = false;
        } else {
            let is_flag = str_eq(args[i].as_str(), "-o");
            proof {
                reveal_strlit("-o");
                assert("-o"@ =~= output_flag());
            }
            if is_flag {
                if i + 1 < n {
                    target = args[i + 1].clone();
                    skip = true;
                }
            } else if args[i].as_str().is_empty() {
            } else if str_ends_with(args[i].as_str(), lib_ext) {
                libraries.push(args[i].clone());
                proof {
                    assert(string_views(libraries@) =~= cur.libs.push(av[i as int]));
                }
            } else if str_ends_with(args[i].as_str(), obj_ext) {
                objs.push(args[i].clone());
                proof {
                    assert(string_views(objs@) =~= cur.objs.push(av[i as int]));
                }
            } else {
                proof {
                    assert(spec_parse(av, lib_ext@, obj_ext@).bad);
                }
                return Err(LibmanError::Usage);
            }
        }
        i = i + 1;
    }
    if target.as_str().is_empty() {
        return Err(LibmanError::Usage);
    }
    Ok(ParsedArgs { libraries, objs, target })
}

} // verus!
