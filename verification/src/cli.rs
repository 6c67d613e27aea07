use vstd::prelude::*;

use crate::runtime::opt_view;
use crate::text::{str_eq_lit, str_starts_with, str_suffix_after};

verus! {

/// What the argument walk settles on: the subcommand word (the first free
/// argument) and the requested log level; `--log-level` takes the following
/// argument as its value, `--log-level=x` carries it inline, and a trailing
/// `--log-level` with no value refuses the command line.
pub open spec fn spec_parse_args(
    args: Seq<Seq<char>>,
    i: int,
    cmd: Option<Seq<char>>,
    lvl: Option<Seq<char>>,
) -> Option<(Option<Seq<char>>, Option<Seq<char>>)>
    decreases args.len() - i,
{
    if i < 0 || i >= args.len() {
        Some((cmd, lvl))
    } else if args[i] == "--log-level"@ {
        if i + 1 < args.len() {
            spec_parse_args(args, i + 2, cmd, Some(args[i + 1]))
        } else {
            None
        }
    } else if args[i].len() >= "--log-level="@.len() && args[i].subrange(
        0,
        "--log-level="@.len() as int,
    ) == "--log-level="@ {
        spec_parse_args(
            args,
            i + 1,
            cmd,
            Some(args[i].subrange("--log-level="@.len() as int, args[i].len() as int)),
        )
    } else if cmd is None {
        spec_parse_args(args, i + 1, Some(args[i]), lvl)
    } else {
        spec_parse_args(args, i + 1, cmd, lvl)
    }
}

/// Walks the command line (program name already dropped): the subcommand
/// and the log level, or nothing when `--log-level` misses its value.
pub fn parse_args(args: &Vec<String>) -> (r: Option<(Option<String>, Option<String>)>)
    ensures
        ({
            let av = args@.map_values(|s: String| s@);
            match r {
                Some(p) => spec_parse_args(av, 0, None, None) == Some(
                    (opt_view(p.0), opt_view(p.1)),
                ),
                None => spec_parse_args(av, 0, None, None) is None,
            }
        }),
{
    let ghost av = args@.map_values(|s: String| s@);
    let mut command: Option<String> = None;
    let mut log_level: Option<String> = None;
    let mut i: usize = 0;
    while i < args.len()
        invariant
            i <= args@.len(),
            av == args@.map_values(|s: String| s@),
            spec_parse_args(av, 0, None, None) == spec_parse_args(
                av,
                i as int,
                opt_view(command),
                opt_view(log_level),
            ),
        decreases args@.len() - i,
    {
        proof {
            assert(av[i as int] == args@[i as int]@);
        }
        if str_eq_lit(args[i].as_str(), "--log-level") {
            if i + 1 < args.len() {
                proof {
                    assert(av[i + 1] == args@[i + 1]@);
                }
                log_level = Some(args[i + 1].clone());
                i += 2;
            } else {
                return None;
            }
        } else if str_starts_with(args[i].as_str(), "--log-level=") {
            log_level = Some(str_suffix_after(args[i].as_str(), "--log-level="));
            i += 1;
        } else if command.is_none() {
            command = Some(args[i].clone());
            i += 1;
        } else {
            i += 1;
        }
    }
    Some((command, log_level))
}

} // verus!
