//! The command line of the `rwat` program: its options, and what a run of
//! it decides to do.

use vstd::prelude::*;

use vstd::string::StringExecFns;

use crate::text::{str_eq, str_starts_with};

verus! {

/// The options of a run.
#[derive(Debug, Clone, PartialEq, Eq)]
pub struct Args {
    /// The wat files to read, in order.
    pub inputs: Vec<String>,
    /// `-o`/`--output`: where to write.
    pub output: Option<String>,
    /// `-c`: write one object per input instead of linking.
    pub compile: bool,
    /// `-h`/`--help`.
    pub help: bool,
    /// The arguments for the linker that `-Wl,` options carry.
    pub lld_args: Vec<String>,
}

/// What is wrong with a command line.
#[derive(Debug, Clone, PartialEq, Eq)]
pub enum ArgsError {
    /// `-o` or `--output` (as written) as the last argument.
    MissingValue(String),
    /// `-` as an input.
    StdinUnsupported,
    /// An option that is not known, as written.
    UnknownOption(String),
}

/// The options as plain sequences: inputs, output, compile, help and the
/// linker's arguments.
pub type ArgsView = (Seq<Seq<char>>, Option<Seq<char>>, bool, bool, Seq<Seq<char>>);

pub open spec fn args_view(a: Args) -> ArgsView {
    (
        a.inputs@.map_values(|s: String| s@),
        match a.output {
            Some(o) => Some(o@),
            None => None,
        },
        a.compile,
        a.help,
        a.lld_args@.map_values(|s: String| s@),
    )
}

/// An error as (0 for a missing value, 1 for stdin, 2 for an unknown
/// option; the argument as written).
pub open spec fn args_error_view(e: ArgsError) -> (nat, Seq<char>) {
    match e {
        ArgsError::MissingValue(a) => (0, a@),
        ArgsError::StdinUnsupported => (1, Seq::empty()),
        ArgsError::UnknownOption(a) => (2, a@),
    }
}

/// The non-empty pieces of `s` between commas, the first piece starting
/// with `cur`.
pub open spec fn comma_fields(s: Seq<char>, cur: Seq<char>) -> Seq<Seq<char>>
    decreases s.len(),
{
    if s.len() == 0 {
        if cur.len() > 0 {
            seq![cur]
        } else {
            seq![]
        }
    } else if s[0] == ',' {
        (if cur.len() > 0 {
            seq![cur]
        } else {
            seq![]
        }) + comma_fields(s.drop_first(), Seq::empty())
    } else {
        comma_fields(s.drop_first(), cur.push(s[0]))
    }
}

pub open spec fn starts_with(s: Seq<char>, prefix: Seq<char>) -> bool {
    prefix.len() <= s.len() && s.subrange(0, prefix.len() as int) == prefix
}

/// The options that the arguments from `i` on add to `acc`.
pub open spec fn spec_parse_args(args: Seq<Seq<char>>, i: int, acc: ArgsView) -> Result<ArgsView, (nat, Seq<char>)>
    decreases args.len() - i,
{
    if i < 0 || i >= args.len() {
        Ok(acc)
    } else {
        let a = args[i];
        if a == "-h"@ || a == "--help"@ {
            spec_parse_args(args, i + 1, (acc.0, acc.1, acc.2, true, acc.4))
        } else if a == "-c"@ {
            spec_parse_args(args, i + 1, (acc.0, acc.1, true, acc.3, acc.4))
        } else if a == "-o"@ || a == "--output"@ {
            if i + 1 < args.len() {
                spec_parse_args(args, i + 2, (acc.0, Some(args[i + 1]), acc.2, acc.3, acc.4))
            } else {
                Err((0, a))
            }
        } else if a == "-"@ {
            Err((1, Seq::empty()))
        } else if starts_with(a, "-Wl,"@) {
            spec_parse_args(
                args,
                i + 1,
                (acc.0, acc.1, acc.2, acc.3, acc.4 + comma_fields(a.skip(4), Seq::empty())),
            )
        } else if a.len() > 0 && a[0] == '-' {
            Err((2, a))
        } else {
            spec_parse_args(args, i + 1, (acc.0.push(a), acc.1, acc.2, acc.3, acc.4))
        }
    }
}

/// The pieces of a `-Wl,` option are non-empty, hold no comma, and are
/// parts of the option in order: all its characters but the commas, each
/// piece continuing the one being gathered.
pub proof fn law_comma_fields_pieces(s: Seq<char>, cur: Seq<char>)
    requires
        forall|j: int| 0 <= j < cur.len() ==> cur[j] != ',',
    ensures
        forall|k: int| 0 <= k < comma_fields(s, cur).len() ==> (#[trigger] comma_fields(s, cur)[k]).len() > 0,
        forall|k: int, j: int|
            0 <= k < comma_fields(s, cur).len() && 0 <= j < comma_fields(s, cur)[k].len() ==> #[trigger] comma_fields(
                s,
                cur,
            )[k][j] != ',',
    decreases s.len(),
{
    if s.len() > 0 {
        if s[0] == ',' {
            law_comma_fields_pieces(s.drop_first(), Seq::empty());
            let head: Seq<Seq<char>> = if cur.len() > 0 {
                seq![cur]
            } else {
                seq![]
            };
            let rest = comma_fields(s.drop_first(), Seq::empty());
            assert(comma_fields(s, cur) == head + rest);
            assert forall|k: int| 0 <= k < comma_fields(s, cur).len() implies (#[trigger] comma_fields(s, cur)[k]).len()
                > 0 by {
                if k >= head.len() {
                    assert(comma_fields(s, cur)[k] == rest[k - head.len()]);
                }
            }
            assert forall|k: int, j: int|
                0 <= k < comma_fields(s, cur).len() && 0 <= j < comma_fields(s, cur)[k].len() implies #[trigger] comma_fields(
                s,
                cur,
            )[k][j] != ',' by {
                if k >= head.len() {
                    assert(comma_fields(s, cur)[k] == rest[k - head.len()]);
                }
            }
        } else {
            let c2 = cur.push(s[0]);
            assert forall|j: int| 0 <= j < c2.len() implies c2[j] != ',' by {
                if j < cur.len() {
                    assert(c2[j] == cur[j]);
                }
            }
            law_comma_fields_pieces(s.drop_first(), c2);
            assert(comma_fields(s, cur) == comma_fields(s.drop_first(), c2));
        }
    } else {
        if cur.len() > 0 {
            assert(comma_fields(s, cur) == seq![cur]);
            assert forall|k: int, j: int|
                0 <= k < comma_fields(s, cur).len() && 0 <= j < comma_fields(s, cur)[k].len() implies #[trigger] comma_fields(
                s,
                cur,
            )[k][j] != ',' by {
                assert(comma_fields(s, cur)[k] == cur);
            }
        } else {
            assert(comma_fields(s, cur).len() == 0);
        }
    }
}

/// Later arguments only add to the linker's arguments: what the arguments
/// from `i` on give starts with the linker arguments gathered before.
pub proof fn law_lld_args_kept(args: Seq<Seq<char>>, i: int, acc: ArgsView)
    ensures
        spec_parse_args(args, i, acc) matches Ok(v) ==> acc.4.len() <= v.4.len() && v.4.subrange(
            0,
            acc.4.len() as int,
        ) == acc.4,
    decreases args.len() - i,
{
    if 0 <= i < args.len() {
        let a = args[i];
        if a == "-h"@ || a == "--help"@ {
            law_lld_args_kept(args, i + 1, (acc.0, acc.1, acc.2, true, acc.4));
        } else if a == "-c"@ {
            law_lld_args_kept(args, i + 1, (acc.0, acc.1, true, acc.3, acc.4));
        } else if a == "-o"@ || a == "--output"@ {
            if i + 1 < args.len() {
                law_lld_args_kept(args, i + 2, (acc.0, Some(args[i + 1]), acc.2, acc.3, acc.4));
            }
        } else if a == "-"@ {
        } else if starts_with(a, "-Wl,"@) {
            let acc2 = (acc.0, acc.1, acc.2, acc.3, acc.4 + comma_fields(a.skip(4), Seq::empty()));
            law_lld_args_kept(args, i + 1, acc2);
            if let Ok(v) = spec_parse_args(args, i, acc) {
                assert(v.4.subrange(0, acc.4.len() as int) =~= v.4.subrange(0, acc2.4.len() as int).subrange(
                    0,
                    acc.4.len() as int,
                ));
                assert(acc2.4.subrange(0, acc.4.len() as int) =~= acc.4);
            }
        } else if a.len() > 0 && a[0] == '-' {
        } else {
            law_lld_args_kept(args, i + 1, (acc.0.push(a), acc.1, acc.2, acc.3, acc.4));
        }
    }
}

/// A `-Wl,` option adds its non-empty comma-separated pieces, in order,
/// after the linker arguments gathered before it, and nothing after it
/// removes them.
pub proof fn law_wl_pieces_added(args: Seq<Seq<char>>, i: int, acc: ArgsView)
    requires
        0 <= i < args.len(),
        starts_with(args[i], "-Wl,"@),
    ensures
        spec_parse_args(args, i, acc) matches Ok(v) ==> {
            let added = acc.4 + comma_fields(args[i].skip(4), Seq::empty());
            added.len() <= v.4.len() && v.4.subrange(0, added.len() as int) == added
        },
{
    reveal_strlit("-Wl,");
    reveal_strlit("-h");
    reveal_strlit("--help");
    reveal_strlit("-c");
    reveal_strlit("-o");
    reveal_strlit("--output");
    reveal_strlit("-");
    let a = args[i];
    assert(a[0] == '-' && a[1] == 'W' && a[2] == 'l' && a[3] == ',') by {
        assert(a.subrange(0, 4)[0] == a[0]);
        assert(a.subrange(0, 4)[1] == a[1]);
        assert(a.subrange(0, 4)[2] == a[2]);
        assert(a.subrange(0, 4)[3] == a[3]);
    }
    assert(a != "-h"@ && a != "--help"@ && a != "-c"@ && a != "-o"@ && a != "--output"@ && a != "-"@) by {
        if a.len() == 2 {
            assert(a[1] == 'W');
        }
        if a.len() == 6 || a.len() == 8 {
            assert(a[1] == 'W');
        }
    }
    let acc2 = (acc.0, acc.1, acc.2, acc.3, acc.4 + comma_fields(a.skip(4), Seq::empty()));
    law_lld_args_kept(args, i + 1, acc2);
}

pub open spec fn no_options() -> ArgsView {
    (seq![], None, false, false, seq![])
}

proof fn lemma_comma_fields_step(s: Seq<char>, i: int, start: int)
    requires
        0 <= start <= i < s.len(),
    ensures
        s[i] == ',' ==> comma_fields(s.subrange(i, s.len() as int), s.subrange(start, i)) == (if i > start {
            seq![s.subrange(start, i)]
        } else {
            Seq::<Seq<char>>::empty()
        }) + comma_fields(s.subrange(i + 1, s.len() as int), s.subrange(i + 1, i + 1)),
        s[i] != ',' ==> comma_fields(s.subrange(i, s.len() as int), s.subrange(start, i)) == comma_fields(
            s.subrange(i + 1, s.len() as int),
            s.subrange(start, i + 1),
        ),
{
    let rest = s.subrange(i, s.len() as int);
    assert(rest[0] == s[i]);
    assert(rest.drop_first() =~= s.subrange(i + 1, s.len() as int));
    assert(s.subrange(start, i).push(s[i]) =~= s.subrange(start, i + 1));
    assert(s.subrange(i + 1, i + 1) =~= Seq::<char>::empty());
}

/// The non-empty pieces between the commas of `s` from character `from` on.
fn split_commas(s: &str, from: usize) -> (pieces: Vec<String>)
    requires
        from <= s@.len(),
    ensures
        pieces@.map_values(|p: String| p@) == comma_fields(s@.skip(from as int), Seq::empty()),
{
    let n = s.unicode_len();
    let mut pieces: Vec<String> = Vec::new();
    let mut start: usize = from;
    let mut i: usize = from;
    let ghost total = comma_fields(s@.skip(from as int), Seq::empty());
    proof {
        assert(s@.skip(from as int) =~= s@.subrange(from as int, n as int));
        assert(s@.subrange(from as int, from as int) =~= Seq::<char>::empty());
    }
    while i < n
        invariant
            n == s@.len(),
            from <= start <= i <= n,
            total == comma_fields(s@.skip(from as int), Seq::empty()),
            pieces@.map_values(|p: String| p@) + comma_fields(
                s@.subrange(i as int, n as int),
                s@.subrange(start as int, i as int),
            ) == total,
        decreases n - i,
    {
        let c = s.get_char(i);
        proof {
            lemma_comma_fields_step(s@, i as int, start as int);
        }
        let ghost before = pieces@.map_values(|p: String| p@);
        if c == ',' {
            if i > start {
                let piece = String::from_str(s.substring_char(start, i));
                pieces.push(piece);
                proof {
                    assert(pieces@.map_values(|p: String| p@) =~= before.push(s@.subrange(start as int, i as int)));
                }
            } else {
                proof {
                    assert(pieces@.map_values(|p: String| p@) =~= before);
                }
            }
            proof {
                let rest = comma_fields(s@.subrange(i + 1, n as int), s@.subrange(i + 1, i + 1));
                if i > start {
                    assert(before + (seq![s@.subrange(start as int, i as int)] + rest) =~= before.push(
                        s@.subrange(start as int, i as int),
                    ) + rest);
                } else {
                    assert(before + (Seq::<Seq<char>>::empty() + rest) =~= before + rest);
                }
            }
            start = i + 1;
        }
        i += 1;
    }
    proof {
        assert(s@.subrange(n as int, n as int) =~= Seq::<char>::empty());
    }
    let ghost before = pieces@.map_values(|p: String| p@);
    if n > start {
        let piece = String::from_str(s.substring_char(start, n));
        pieces.push(piece);
        proof {
            assert(pieces@.map_values(|p: String| p@) =~= before.push(s@.subrange(start as int, n as int)));
        }
    } else {
        proof {
            assert(before + Seq::<Seq<char>>::empty() =~= before);
        }
    }
    pieces
}

/// Reads the options of a run from its arguments.
pub fn parse_args(args: &Vec<String>) -> (res: Result<Args, ArgsError>)
    ensures
        match spec_parse_args(args@.map_values(|s: String| s@), 0, no_options()) {
            Ok(v) => res matches Ok(a) && args_view(a) == v,
            Err(e) => res matches Err(err) && args_error_view(err) == e,
        },
{
    let ghost strs = args@.map_values(|s: String| s@);
    let mut parsed = Args { inputs: Vec::new(), output: None, compile: false, help: false, lld_args: Vec::new() };
    proof {
        assert(args_view(parsed).0 =~= Seq::<Seq<char>>::empty());
        assert(args_view(parsed).4 =~= Seq::<Seq<char>>::empty());
    }
    let mut i: usize = 0;
    while i < args.len()
        invariant
            strs == args@.map_values(|s: String| s@),
            i <= args.len(),
            spec_parse_args(strs, 0, no_options()) == spec_parse_args(strs, i as int, args_view(parsed)),
        decreases args.len() - i,
    {
        let a = args[i].as_str();
        let ghost acc = args_view(parsed);
        assert(a@ == strs[i as int]);
        if str_eq(a, "-h") || str_eq(a, "--help") {
            parsed.help = true;
            i += 1;
        } else if str_eq(a, "-c") {
            parsed.compile = true;
            i += 1;
        } else if str_eq(a, "-o") || str_eq(a, "--output") {
            if i + 1 < args.len() {
                parsed.output = Some(args[i + 1].clone());
                i += 2;
            } else {
                return Err(ArgsError::MissingValue(String::from_str(a)));
            }
        } else if str_eq(a, "-") {
            return Err(ArgsError::StdinUnsupported);
        } else if str_starts_with(a, "-Wl,") {
            proof {
                reveal_strlit("-Wl,");
            }
            let mut pieces = split_commas(a, 4);
            let ghost added = pieces@.map_values(|p: String| p@);
            parsed.lld_args.append(&mut pieces);
            proof {
                assert(args_view(parsed).4 =~= acc.4 + added);
            }
            i += 1;
        } else if a.unicode_len() > 0 && a.get_char(0) == '-' {
            return Err(ArgsError::UnknownOption(String::from_str(a)));
        } else {
            parsed.inputs.push(args[i].clone());
            proof {
                assert(args_view(parsed).0 =~= acc.0.push(a@));
            }
            i += 1;
        }
    }
    Ok(parsed)
}

impl ArgsError {
    /// The human-readable message of the error.
    pub fn message(&self) -> (m: String)
        ensures
            m@ == match *self {
                ArgsError::MissingValue(a) => "missing value for `"@ + a@ + "`"@,
                ArgsError::StdinUnsupported => "stdin input is not supported; pass a wat file path"@,
                ArgsError::UnknownOption(a) => "unknown option `"@ + a@ + "`"@,
            },
    {
        match self {
            ArgsError::MissingValue(a) => {
                let mut m = String::from_str("missing value for `");
                m.append(a.as_str());
                m.append("`");
                m
            },
            ArgsError::StdinUnsupported => String::from_str("stdin input is not supported; pass a wat file path"),
            ArgsError::UnknownOption(a) => {
                let mut m = String::from_str("unknown option `");
                m.append(a.as_str());
                m.append("`");
                m
            },
        }
    }
}

/// What a run does.
#[derive(Debug, Clone, Copy, PartialEq, Eq, Structural)]
pub enum Action {
    /// Print how to use the program.
    Usage,
    /// Write one object file per input.
    CompileEach,
    /// Write objects for all inputs and link them into one module.
    Link,
}

/// Why a run cannot go ahead.
#[derive(Debug, Clone, Copy, PartialEq, Eq, Structural)]
pub enum RunError {
    NoInputs,
    /// `-o` with `-c` and more than one input.
    OutputForManyObjects,
}

impl RunError {
    /// The human-readable message of the error.
    pub fn message(&self) -> (m: &'static str)
        ensures
            m@ == match *self {
                RunError::NoInputs => "no input files"@,
                RunError::OutputForManyObjects => "cannot specify -o when generating multiple output files"@,
            },
    {
        match self {
            RunError::NoInputs => "no input files",
            RunError::OutputForManyObjects => "cannot specify -o when generating multiple output files",
        }
    }
}

/// How to use the program.
pub fn usage() -> (u: &'static str)
    ensures
        u@ == "usage: rwat [-c] <wat>... [-o|--output <path>] [-Wl,<arg>[,<arg>...]]"@,
{
    "usage: rwat [-c] <wat>... [-o|--output <path>] [-Wl,<arg>[,<arg>...]]"
}

/// What a run with these options does: print the usage where help is asked
/// for; otherwise there must be inputs, and with `-c` an output path only
/// for a single input.
pub fn decide(args: &Args) -> (res: Result<Action, RunError>)
    ensures
        res == (if args.help {
            Ok::<Action, RunError>(Action::Usage)
        } else if args.inputs.len() == 0 {
            Err(RunError::NoInputs)
        } else if args.compile {
            if args.output is Some && args.inputs.len() > 1 {
                Err(RunError::OutputForManyObjects)
            } else {
                Ok(Action::CompileEach)
            }
        } else {
            Ok(Action::Link)
        }),
{
    if args.help {
        Ok(Action::Usage)
    } else if args.inputs.len() == 0 {
        Err(RunError::NoInputs)
    } else if args.compile {
        if args.output.is_some() && args.inputs.len() > 1 {
            Err(RunError::OutputForManyObjects)
        } else {
            Ok(Action::CompileEach)
        }
    } else {
        Ok(Action::Link)
    }
}

} // verus!
