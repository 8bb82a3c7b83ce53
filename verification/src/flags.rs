use vstd::prelude::*;
use vstd::string::StrSliceExecFns;
use crate::text;

verus! {

/// What the command line asked for: the target's own arguments (the
/// executable path first) and an optional core file.
pub struct Flags {
    pub args: Vec<String>,
    pub core: Option<String>,
}

/// One pass over the command line from position `i`, carrying the
/// executable and core paths seen so far: `--args` reserves the following
/// slot, any other word opening with a dash is refused, and at most two
/// positional words — executable, then core — are taken.  Nothing when the
/// line is refused.
pub open spec fn fl_scan(
    argv: Seq<Seq<char>>,
    i: int,
    exec_path: Option<Seq<char>>,
    core: Option<Seq<char>>,
) -> Option<(Option<Seq<char>>, Option<Seq<char>>)>
    decreases argv.len() + 2 - i,
{
    if i >= argv.len() {
        Some((exec_path, core))
    } else if argv[i] == "--args"@ {
        fl_scan(argv, i + 2, exec_path, core)
    } else if argv[i].len() > 0 && argv[i][0] == '-' {
        None
    } else if exec_path is None {
        fl_scan(argv, i + 1, Some(argv[i]), core)
    } else if core is None {
        fl_scan(argv, i + 1, exec_path, Some(argv[i]))
    } else {
        None
    }
}

/// Reads the command line: the word naming the program itself is skipped,
/// then the line is taken as [`fl_scan`] describes; the argument list ends
/// up holding just the executable path, which also serves as the default
/// argument vector of a later start.
#[verifier::loop_isolation(false)]
pub fn parse(argv: Vec<String>) -> (r: Flags)
    requires
        fl_scan(argv.deep_view(), 1, None, None) is Some,
    ensures
        ({
            let (e, c) = fl_scan(argv.deep_view(), 1, None, None).unwrap();
            &&& r.args.deep_view() == match e {
                Some(x) => seq![x],
                None => Seq::<Seq<char>>::empty(),
            }
            &&& match (r.core, c) {
                (Some(s), Some(v)) => s@ == v,
                (None, None) => true,
                _ => false,
            }
        }),
{
    let ghost argvv = argv.deep_view();
    let mut exec_path: Option<String> = None;
    let mut core: Option<String> = None;
    let mut args: Vec<String> = Vec::new();
    let n = argv.len();
    let mut i: usize = 1;
    while i < n
        invariant
            1 <= i,
            n == argv@.len(),
            fl_scan(argvv, 1, None, None) == fl_scan(
                argvv,
                i as int,
                exec_path.deep_view(),
                core.deep_view(),
            ),
        decreases n - i,
    {
        let arg = &argv[i];
        proof {
            assert(argvv[i as int] == argv@[i as int]@);
        }
        if text::str_eq(arg.as_str(), "--args") {
            // `--args` reserves the slot after it; the argument list
            // itself is filled in below from the executable path.
            if i + 1 < n {
                i += 2;
            } else {
                proof {
                    assert(fl_scan(argvv, i + 2, exec_path.deep_view(), core.deep_view())
                        == fl_scan(argvv, n as int, exec_path.deep_view(), core.deep_view()));
                }
                i = n;
            }
        } else if arg.unicode_len() > 0 && arg.as_str().get_char(0) == '-' {
            proof {
                assert(fl_scan(argvv, i as int, exec_path.deep_view(), core.deep_view()) is None);
            }
            vstd::pervasive::unreached::<()>();
        } else if exec_path.is_none() {
            exec_path = Some(arg.clone());
            i += 1;
        } else if core.is_none() {
            core = Some(arg.clone());
            i += 1;
        } else {
            proof {
                assert(fl_scan(argvv, i as int, exec_path.deep_view(), core.deep_view()) is None);
            }
            vstd::pervasive::unreached::<()>();
        }
    }
    if args.is_empty() {
        match &exec_path {
            Some(e) => {
                args.push(e.clone());
            },
            None => {},
        }
    }
    proof {
        assert(args.deep_view() =~= match exec_path.deep_view() {
            Some(x) => seq![x],
            None => Seq::<Seq<char>>::empty(),
        });
    }
    Flags { args, core }
}

} // verus!
