use vstd::prelude::*;

use crate::assets::AssetSourceRef;
use crate::lexical::string_views;
use crate::text::{chars_of, copy_string, push_chars, push_str_chars, str_eq, string_from_chars};

verus! {

broadcast use vstd::string::group_string_axioms;

/// How the asset generator is called.
pub open spec fn usage_text() -> Seq<char> {
    "Usage:\n  ferriki-asset-gen generate --upstream-dir <path> --output-dir <path> [--source-version <version>] [--source-commit <commit>]\n"@
}

/// How the asset generator is called.
pub fn usage() -> (r: &'static str)
    ensures
        r@ == usage_text(),
{
    "Usage:\n  ferriki-asset-gen generate --upstream-dir <path> --output-dir <path> [--source-version <version>] [--source-commit <commit>]\n"
}

/// An error message followed by a blank line and the usage text.
pub open spec fn with_usage(message: Seq<char>) -> Seq<char> {
    message + "\n\n"@ + usage_text()
}

/// The options of the `generate` command.
#[derive(Debug, Clone, PartialEq, Eq)]
pub struct GenerateOptions {
    pub upstream_dir: String,
    pub output_dir: String,
    pub source_version: Option<String>,
    pub source_commit: Option<String>,
}

/// The flags read so far: upstream dir, output dir, source version, source
/// commit.
pub type FlagValues = (Option<Seq<char>>, Option<Seq<char>>, Option<Seq<char>>, Option<Seq<char>>);

/// Reads flag and value pairs from position `i` on; a later flag overrides
/// an earlier one.
pub open spec fn read_flags(args: Seq<Seq<char>>, i: int, seen: FlagValues) -> Result<FlagValues, Seq<char>>
    decreases args.len() - i,
{
    if i < 0 || i >= args.len() {
        Ok(seen)
    } else if i + 1 >= args.len() {
        Err(with_usage("missing value for "@ + args[i]))
    } else {
        let flag = args[i];
        let value = args[i + 1];
        if flag == "--upstream-dir"@ {
            read_flags(args, i + 2, (Some(value), seen.1, seen.2, seen.3))
        } else if flag == "--output-dir"@ {
            read_flags(args, i + 2, (seen.0, Some(value), seen.2, seen.3))
        } else if flag == "--source-version"@ {
            read_flags(args, i + 2, (seen.0, seen.1, Some(value), seen.3))
        } else if flag == "--source-commit"@ {
            read_flags(args, i + 2, (seen.0, seen.1, seen.2, Some(value)))
        } else {
            Err(with_usage("unknown flag: "@ + flag))
        }
    }
}

/// The options that the arguments of `generate` give, or the error message:
/// both directories are required.
pub open spec fn generate_options(args: Seq<Seq<char>>) -> Result<FlagValues, Seq<char>> {
    match read_flags(args, 0, (None, None, None, None)) {
        Err(e) => Err(e),
        Ok(v) => if v.0 is None {
            Err(with_usage("missing --upstream-dir"@))
        } else if v.1 is None {
            Err(with_usage("missing --output-dir"@))
        } else {
            Ok(v)
        },
    }
}

pub open spec fn opt_view(o: Option<String>) -> Option<Seq<char>> {
    match o {
        Some(s) => Some(s@),
        None => None,
    }
}

/// The flags that a set of options holds.
pub open spec fn options_view(o: GenerateOptions) -> FlagValues {
    (Some(o.upstream_dir@), Some(o.output_dir@), opt_view(o.source_version), opt_view(o.source_commit))
}

/// `message`, a blank line and the usage text.
fn usage_error(message: &[char]) -> (r: String)
    ensures
        r@ == with_usage(message@),
{
    let mut out: Vec<char> = Vec::new();
    push_chars(&mut out, message);
    push_str_chars(&mut out, "\n\n");
    push_str_chars(&mut out, usage());
    assert(out@ =~= with_usage(message@));
    string_from_chars(out.as_slice())
}

/// `prefix` followed by `s`.
fn prefixed(prefix: &str, s: &str) -> (r: Vec<char>)
    ensures
        r@ == prefix@ + s@,
{
    let mut out = chars_of(prefix);
    push_str_chars(&mut out, s);
    out
}

/// Reads the arguments of the `generate` command: pairs of a flag and its
/// value.  Fails with a message that ends with the usage text on a flag
/// without a value, an unknown flag, or a missing directory.
pub fn parse_generate_args(args: &[String]) -> (r: Result<GenerateOptions, String>)
    ensures
        match (r, generate_options(string_views(args@))) {
            (Ok(o), Ok(v)) => options_view(o) == v,
            (Err(e), Err(m)) => e@ == m,
            _ => false,
        },
{
    let ghost av = string_views(args@);
    let mut upstream_dir: Option<String> = None;
    let mut output_dir: Option<String> = None;
    let mut source_version: Option<String> = None;
    let mut source_commit: Option<String> = None;
    let mut index: usize = 0;
    while index < args.len()
        invariant
            av == string_views(args@),
            index <= args.len() + 1,
            read_flags(av, 0, (None, None, None, None)) == read_flags(
                av,
                index as int,
                (opt_view(upstream_dir), opt_view(output_dir), opt_view(source_version), opt_view(source_commit)),
            ),
        decreases args.len() - index,
    {
        let flag = args[index].as_str();
        if index + 1 >= args.len() {
            let message = prefixed("missing value for ", flag);
            return Err(usage_error(message.as_slice()));
        }
        let value = copy_string(&args[index + 1]);
        if str_eq(flag, "--upstream-dir") {
            upstream_dir = Some(value);
        } else if str_eq(flag, "--output-dir") {
            output_dir = Some(value);
        } else if str_eq(flag, "--source-version") {
            source_version = Some(value);
        } else if str_eq(flag, "--source-commit") {
            source_commit = Some(value);
        } else {
            let message = prefixed("unknown flag: ", flag);
            return Err(usage_error(message.as_slice()));
        }
        index += 2;
    }
    let upstream_dir = match upstream_dir {
        Some(d) => d,
        None => {
            let message = chars_of("missing --upstream-dir");
            return Err(usage_error(message.as_slice()));
        },
    };
    let output_dir = match output_dir {
        Some(d) => d,
        None => {
            let message = chars_of("missing --output-dir");
            return Err(usage_error(message.as_slice()));
        },
    };
    Ok(GenerateOptions { upstream_dir, output_dir, source_version, source_commit })
}

/// The command line of the asset generator: the command `generate` and its
/// arguments.
pub open spec fn command_line_options(args: Seq<Seq<char>>) -> Result<FlagValues, Seq<char>> {
    if args.len() == 0 {
        Err(usage_text())
    } else if args[0] != "generate"@ {
        Err(with_usage("unknown command: "@ + args[0]))
    } else {
        generate_options(args.drop_first())
    }
}

/// Reads the command line of the asset generator (without the program
/// name).  With no command the error is the usage text itself.
pub fn parse_command_line(args: &[String]) -> (r: Result<GenerateOptions, String>)
    ensures
        match (r, command_line_options(string_views(args@))) {
            (Ok(o), Ok(v)) => options_view(o) == v,
            (Err(e), Err(m)) => e@ == m,
            _ => false,
        },
{
    if args.len() == 0 {
        let u = chars_of(usage());
        return Err(string_from_chars(u.as_slice()));
    }
    let command = args[0].as_str();
    if !str_eq(command, "generate") {
        let message = prefixed("unknown command: ", command);
        return Err(usage_error(message.as_slice()));
    }
    let rest = slice_from(args, 1);
    assert(string_views(rest@) =~= string_views(args@).drop_first());
    parse_generate_args(rest)
}

fn slice_from(args: &[String], from: usize) -> (r: &[String])
    requires
        from <= args.len(),
    ensures
        r@ == args@.skip(from as int),
{
    let (_, rest) = args.split_at(from);
    rest
}

/// The name of the upstream collection that catalogs are generated from.
pub open spec fn upstream_name() -> Seq<char> {
    "textmate-grammars-themes"@
}

/// The source reference recorded in generated catalogs.
pub fn generation_source(options: &GenerateOptions) -> (r: AssetSourceRef)
    ensures
        r.upstream@ == upstream_name(),
        r.version == options.source_version,
        r.commit == options.source_commit,
{
    let upstream = chars_of("textmate-grammars-themes");
    AssetSourceRef {
        upstream: string_from_chars(upstream.as_slice()),
        version: crate::text::copy_opt_string(&options.source_version),
        commit: crate::text::copy_opt_string(&options.source_commit),
    }
}

} // verus!
