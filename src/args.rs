//! The command line: `[-p] [DIRECTORY]`, in any order.

use vstd::prelude::*;
use vstd::string::StringExecFns;
use crate::table::strs_view;
use crate::text::same_text;

verus! {

broadcast use vstd::string::group_string_axioms;

/// What the command line asks for.
#[derive(Clone, Debug)]
pub struct Options {
    pub show_perms: bool,
    pub target: String,
}

/// Whether `-p` is among the arguments from index 1 up to `k`.
pub open spec fn perms_flag(args: Seq<Seq<char>>, k: int) -> bool
    decreases k,
{
    if k <= 1 {
        false
    } else {
        perms_flag(args, k - 1) || args[k - 1] == "-p"@
    }
}

/// The last argument from index 1 up to `k` that is not `-p`, or `.`.
pub open spec fn target_dir(args: Seq<Seq<char>>, k: int) -> Seq<char>
    decreases k,
{
    if k <= 1 {
        "."@
    } else if args[k - 1] != "-p"@ {
        args[k - 1]
    } else {
        target_dir(args, k - 1)
    }
}

/// Reads the arguments after the program name: `-p` turns on the
/// permissions column, any other argument names the directory, the last
/// one winning; the directory defaults to `.`.
pub fn parse_args(args: &Vec<String>) -> (r: Options)
    ensures
        r.show_perms == perms_flag(strs_view(args@), args.len() as int),
        r.target@ == target_dir(strs_view(args@), args.len() as int),
{
    let ghost a = strs_view(args@);
    let mut show_perms = false;
    let mut target = String::from_str(".");
    let mut i: usize = 1;
    while i < args.len()
        invariant
            a == strs_view(args@),
            1 <= i,
            i <= args.len() || args.len() == 0,
            args.len() > 0 ==> show_perms == perms_flag(a, i as int),
            args.len() > 0 ==> target@ == target_dir(a, i as int),
            args.len() == 0 ==> !show_perms && target@ == "."@,
        decreases args.len() - i,
    {
        proof {
            assert(a[i as int] == args[i as int]@);
        }
        if same_text(args[i].as_str(), "-p") {
            show_perms = true;
        } else {
            target = args[i].clone();
        }
        i = i + 1;
    }
    Options { show_perms, target }
}

} // verus!
