//! The option model: a flat list of command-line tokens becomes an
//! immutable configuration record and a target path.

use vstd::prelude::*;
use vstd::string::*;
use crate::lex::str_eq;

verus! {

/// The configuration record: one boolean per recognized flag.
#[derive(Clone, Copy, PartialEq, Eq, Structural, Debug)]
pub struct Options {
    pub show_hidden: bool,
    pub long_format: bool,
    pub directories_only: bool,
    pub sort_by_time: bool,
    pub reverse_order: bool,
    pub recursive: bool,
    pub access_time: bool,
    pub show_type: bool,
    pub unsorted: bool,
    pub group_only: bool,
}

/// The configuration with every flag off.
pub open spec fn default_options() -> Options {
    Options {
        show_hidden: false,
        long_format: false,
        directories_only: false,
        sort_by_time: false,
        reverse_order: false,
        recursive: false,
        access_time: false,
        show_type: false,
        unsorted: false,
        group_only: false,
    }
}

impl Default for Options {
    fn default() -> (r: Options)
        ensures
            r == default_options(),
    {
        Options {
            show_hidden: false,
            long_format: false,
            directories_only: false,
            sort_by_time: false,
            reverse_order: false,
            recursive: false,
            access_time: false,
            show_type: false,
            unsorted: false,
            group_only: false,
        }
    }
}

/// The effect of one token on the running state: a recognized flag sets
/// its field (repeats have no further effect); any other token becomes
/// the new target path.
pub open spec fn apply_token(o: Options, path: Seq<char>, tok: Seq<char>) -> (Options, Seq<char>) {
    if tok == "-a"@ {
        (Options { show_hidden: true, ..o }, path)
    } else if tok == "-l"@ {
        (Options { long_format: true, ..o }, path)
    } else if tok == "-d"@ {
        (Options { directories_only: true, ..o }, path)
    } else if tok == "-t"@ {
        (Options { sort_by_time: true, ..o }, path)
    } else if tok == "-r"@ {
        (Options { reverse_order: true, ..o }, path)
    } else if tok == "-R"@ {
        (Options { recursive: true, ..o }, path)
    } else if tok == "-u"@ {
        (Options { access_time: true, ..o }, path)
    } else if tok == "-F"@ {
        (Options { show_type: true, ..o }, path)
    } else if tok == "-f"@ {
        (Options { unsorted: true, ..o }, path)
    } else if tok == "-g"@ {
        (Options { long_format: true, group_only: true, ..o }, path)
    } else {
        (o, tok)
    }
}

/// The whole parse: tokens are folded left to right over the default
/// configuration and the default path `.`; the last non-flag token wins
/// as the path.
pub open spec fn parse_spec(toks: Seq<Seq<char>>) -> (Options, Seq<char>)
    decreases toks.len(),
{
    if toks.len() == 0 {
        (default_options(), "."@)
    } else {
        let prev = parse_spec(toks.drop_last());
        apply_token(prev.0, prev.1, toks.last())
    }
}

/// Parses the argument tokens (everything after the program name) into
/// the configuration and the target path.
#[verifier::rlimit(60)]
pub fn parse_args(args: &Vec<String>) -> (r: (Options, String))
    ensures
        r.0 == parse_spec(args@.map_values(|s: String| s@)).0,
        r.1@ == parse_spec(args@.map_values(|s: String| s@)).1,
{
    let ghost toks = args@.map_values(|s: String| s@);
    let mut opts = Options::default();
    let mut path = String::from_str(".");
    let mut i: usize = 0;
    while i < args.len()
        invariant
            i <= args.len(),
            toks == args@.map_values(|s: String| s@),
            toks.len() == args.len(),
            opts == parse_spec(toks.take(i as int)).0,
            path@ == parse_spec(toks.take(i as int)).1,
        decreases args.len() - i,
    {
        let arg = &args[i];
        if str_eq(arg.as_str(), "-a") {
            opts.show_hidden = true;
        } else if str_eq(arg.as_str(), "-l") {
            opts.long_format = true;
        } else if str_eq(arg.as_str(), "-d") {
            opts.directories_only = true;
        } else if str_eq(arg.as_str(), "-t") {
            opts.sort_by_time = true;
        } else if str_eq(arg.as_str(), "-r") {
            opts.reverse_order = true;
        } else if str_eq(arg.as_str(), "-R") {
            opts.recursive = true;
        } else if str_eq(arg.as_str(), "-u") {
            opts.access_time = true;
        } else if str_eq(arg.as_str(), "-F") {
            opts.show_type = true;
        } else if str_eq(arg.as_str(), "-f") {
            opts.unsorted = true;
        } else if str_eq(arg.as_str(), "-g") {
            opts.long_format = true;
            opts.group_only = true;
        } else {
            path = arg.clone();
        }
        proof {
            assert(toks.take(i + 1).drop_last() =~= toks.take(i as int));
            assert(toks.take(i + 1).last() == toks[i as int]);
        }
        i = i + 1;
    }
    proof {
        assert(toks.take(args.len() as int) =~= toks);
    }
    (opts, path)
}

} // verus!
