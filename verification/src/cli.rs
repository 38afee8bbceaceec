//! The decisions of the command line: what the arguments ask for, how a file
//! argument is run, and which test files are run.
use vstd::prelude::*;
use vstd::string::StringExecFns;

use crate::text::{chars_le, chars_of, contains, starts_with, ends_with, lemma_text_order_total, occurs_in, same_text, text_order};
use vstd::relations::sorted_by;

verus! {

/// What a path becomes with its extension set to `extension` (an empty one
/// removes it), as `std::path::PathBuf::set_extension` makes it.
pub uninterp spec fn path_with_extension(path: Seq<char>, extension: Seq<char>) -> Seq<char>;

/// Whether `extension` holds no path separator (`/`, or `\` on Windows),
/// which `PathBuf::set_extension` does not accept.
pub open spec fn is_plain_extension(extension: Seq<char>) -> bool {
    !extension.contains('/') && !extension.contains('\\')
}

/// Calls `std::path::PathBuf::set_extension` on `path` and reads the path back
/// as a string. `set_extension` panics on an extension that holds a path
/// separator, so such extensions are not admitted. Claimed: the result is a
/// function of the two arguments, named `path_with_extension`; what it is on
/// given values is not stated.
#[verifier::external_body]
fn with_extension(path: &str, extension: &str) -> (res: String)
    requires
        is_plain_extension(extension@),
    ensures
        res@ == path_with_extension(path@, extension@),
{
    let mut buf = std::path::PathBuf::from(path);
    buf.set_extension(extension);
    buf.to_string_lossy().to_string()
}

/// What the command line asks for.
#[derive(Debug, PartialEq, Eq)]
pub enum CliCommand {
    /// No argument: the interactive prompt.
    Repl,
    /// `-v` or `--version`.
    Version,
    /// `-h` or `--help`.
    Help,
    /// `-e` or `--eval`, with the source that follows it, if any.
    Eval(Option<String>),
    /// `test`, with the arguments that follow it.
    Test(Vec<String>),
    /// `compile`: the input file, the output file, and whether a
    /// self-contained executable is made.
    Compile { input: String, output: String, executable: bool },
    /// `compile` without an input file.
    CompileWithoutInput,
    /// Anything else: a file to run.
    Run(String),
}

/// The characters of each argument.
pub open spec fn arg_views(args: Seq<String>) -> Seq<Seq<char>> {
    args.map_values(|a: String| a@)
}

/// The literal arguments and extensions that the command line looks for.
pub open spec fn lit_v() -> Seq<char> { seq!['-', 'v'] }
pub open spec fn lit_version() -> Seq<char> { seq!['-', '-', 'v', 'e', 'r', 's', 'i', 'o', 'n'] }
pub open spec fn lit_h() -> Seq<char> { seq!['-', 'h'] }
pub open spec fn lit_help() -> Seq<char> { seq!['-', '-', 'h', 'e', 'l', 'p'] }
pub open spec fn lit_e() -> Seq<char> { seq!['-', 'e'] }
pub open spec fn lit_eval() -> Seq<char> { seq!['-', '-', 'e', 'v', 'a', 'l'] }
pub open spec fn lit_test() -> Seq<char> { seq!['t', 'e', 's', 't'] }
pub open spec fn lit_compile() -> Seq<char> { seq!['c', 'o', 'm', 'p', 'i', 'l', 'e'] }
pub open spec fn lit_executable() -> Seq<char> {
    seq!['-', '-', 'e', 'x', 'e', 'c', 'u', 't', 'a', 'b', 'l', 'e']
}
pub open spec fn lit_lrt() -> Seq<char> { seq!['l', 'r', 't'] }
pub open spec fn lit_d() -> Seq<char> { seq!['-', 'd'] }
pub open spec fn lit_cjs() -> Seq<char> { seq!['.', 'c', 'j', 's'] }

/// Where `compile` writes: the second argument after it, or the input without
/// its extension when that argument is `--executable`, or the input with the
/// extension `lrt` when there is no such argument.
pub open spec fn spec_compile_output(a: Seq<Seq<char>>) -> Seq<char> {
    if a.len() > 3 {
        if a[3] == lit_executable() {
            path_with_extension(a[2], Seq::empty())
        } else {
            a[3]
        }
    } else {
        path_with_extension(a[2], lit_lrt())
    }
}

/// Whether `compile` makes a self-contained executable: `--executable` is
/// the second or third argument after it.
pub open spec fn spec_compile_executable(a: Seq<Seq<char>>) -> bool {
    (a.len() > 3 && a[3] == lit_executable()) || (a.len() > 4 && a[4] == lit_executable())
}

/// Whether `arg` is `expected`.
fn is_arg(arg: &String, expected: &str) -> (res: bool)
    ensures
        res == (arg@ == expected@),
{
    same_text(arg.as_str(), expected)
}

/// Copies of `args[from..]`.
fn clone_from(args: &[String], from: usize) -> (res: Vec<String>)
    requires
        from <= args@.len(),
    ensures
        arg_views(res@) == arg_views(args@).skip(from as int),
{
    let mut out: Vec<String> = Vec::new();
    let mut i = from;
    while i < args.len()
        invariant
            from <= i <= args@.len(),
            arg_views(out@) == arg_views(args@).subrange(from as int, i as int),
        decreases args@.len() - i,
    {
        let ghost before = out@;
        let c = args[i].clone();
        assert(c@ == args@[i as int]@);
        out.push(c);
        proof {
            assert(out@ == before.push(c));
            assert(arg_views(out@) =~= arg_views(before).push(c@));
            assert(arg_views(out@) =~= arg_views(args@).subrange(from as int, i + 1));
        }
        i = i + 1;
    }
    proof {
        assert(arg_views(args@).subrange(from as int, args@.len() as int) =~= arg_views(args@).skip(from as int));
    }
    out
}

/// Reads the command line `args` (the program's name first).
pub fn parse_command(args: &[String]) -> (res: CliCommand)
    ensures
        ({
            let a = arg_views(args@);
            if a.len() <= 1 {
                res is Repl
            } else if a[1] == lit_v() || a[1] == lit_version() {
                res is Version
            } else if a[1] == lit_h() || a[1] == lit_help() {
                res is Help
            } else if a[1] == lit_e() || a[1] == lit_eval() {
                res matches CliCommand::Eval(source) && (match source {
                    Some(s) => a.len() > 2 && s@ == a[2],
                    None => a.len() <= 2,
                })
            } else if a[1] == lit_test() {
                res matches CliCommand::Test(rest) && arg_views(rest@) == a.skip(2)
            } else if a[1] == lit_compile() {
                if a.len() > 2 {
                    res matches CliCommand::Compile { input, output, executable }
                        && input@ == a[2] && output@ == spec_compile_output(a)
                        && executable == spec_compile_executable(a)
                } else {
                    res is CompileWithoutInput
                }
            } else {
                res matches CliCommand::Run(file) && file@ == a[1]
            }
        }),
        ({
            let a = arg_views(args@);
            a.len() > 3 && a[1] == lit_compile() && a[3] != lit_executable()
                ==> (res matches CliCommand::Compile { output, .. } && output@ == a[3])
        }),
{
    proof {
        reveal_strlit("-v");
        reveal_strlit("--version");
        reveal_strlit("-h");
        reveal_strlit("--help");
        reveal_strlit("-e");
        reveal_strlit("--eval");
        reveal_strlit("test");
        reveal_strlit("compile");
        reveal_strlit("--executable");
        reveal_strlit("lrt");
        reveal_strlit("");
        assert("-v"@ =~= lit_v());
        assert("--version"@ =~= lit_version());
        assert("-h"@ =~= lit_h());
        assert("--help"@ =~= lit_help());
        assert("-e"@ =~= lit_e());
        assert("--eval"@ =~= lit_eval());
        assert("test"@ =~= lit_test());
        assert("compile"@ =~= lit_compile());
        assert("--executable"@ =~= lit_executable());
        assert("lrt"@ =~= lit_lrt());
        assert(""@ =~= Seq::<char>::empty());
        assert(is_plain_extension(Seq::<char>::empty()));
        assert(is_plain_extension(lit_lrt())) by {
            assert forall|i: int| 0 <= i < lit_lrt().len() implies lit_lrt()[i] != '/' && lit_lrt()[i] != '\\' by {}
        }
    }
    let ghost a = arg_views(args@);
    if args.len() <= 1 {
        return CliCommand::Repl;
    }
    let arg = &args[1];
    assert(arg@ == a[1]);
    if is_arg(arg, "-v") || is_arg(arg, "--version") {
        return CliCommand::Version;
    }
    if is_arg(arg, "-h") || is_arg(arg, "--help") {
        return CliCommand::Help;
    }
    if is_arg(arg, "-e") || is_arg(arg, "--eval") {
        if args.len() > 2 {
            assert(args@[2]@ == a[2]);
            return CliCommand::Eval(Some(args[2].clone()));
        }
        return CliCommand::Eval(None);
    }
    if is_arg(arg, "test") {
        return CliCommand::Test(clone_from(args, 2));
    }
    if is_arg(arg, "compile") {
        if args.len() <= 2 {
            return CliCommand::CompileWithoutInput;
        }
        let filename = &args[2];
        assert(filename@ == a[2]);
        let third_is_executable = args.len() > 3 && is_arg(&args[3], "--executable");
        let fourth_is_executable = args.len() > 4 && is_arg(&args[4], "--executable");
        proof {
            if args.len() > 3 {
                assert(args@[3]@ == a[3]);
            }
            if args.len() > 4 {
                assert(args@[4]@ == a[4]);
            }
        }
        let output = if args.len() > 3 {
            if third_is_executable {
                with_extension(filename.as_str(), "")
            } else {
                args[3].clone()
            }
        } else {
            with_extension(filename.as_str(), "lrt")
        };
        return CliCommand::Compile {
            input: filename.clone(),
            output,
            executable: third_is_executable || fourth_is_executable,
        };
    }
    CliCommand::Run(arg.clone())
}

/// How a file argument is run.
#[derive(Debug, Clone, Copy, PartialEq, Eq)]
pub enum RunDecision {
    /// Run the file; `global` runs it as a script in the global scope.
    Run { global: bool },
    /// A file with a supported extension that does not exist.
    NoSuchFile,
    /// Neither a supported file nor an existing one.
    UnknownCommand,
}

/// Decides how a file argument with extension `ext` is run: a supported file
/// runs (globally when it is `.cjs`) if it exists; any other existing file
/// runs as a module.
pub fn run_decision(ext: &str, supported: bool, file_exists: bool) -> (res: RunDecision)
    ensures
        res == (if supported {
            if file_exists { RunDecision::Run { global: ext@ == lit_cjs() } } else { RunDecision::NoSuchFile }
        } else {
            if file_exists { RunDecision::Run { global: false } } else { RunDecision::UnknownCommand }
        }),
{
    proof {
        reveal_strlit(".cjs");
        assert(".cjs"@ =~= lit_cjs());
    }
    let global = same_text(ext, ".cjs");
    if supported {
        if file_exists {
            RunDecision::Run { global }
        } else {
            RunDecision::NoSuchFile
        }
    } else {
        if file_exists {
            RunDecision::Run { global: false }
        } else {
            RunDecision::UnknownCommand
        }
    }
}

/// The arguments of `test`: the directories given with `-d`, in order, and
/// the filters.
#[derive(Debug, PartialEq, Eq)]
pub struct TestArgs {
    pub dirs: Vec<String>,
    pub filters: Vec<String>,
}

/// Reads `args[i..]`: `-d` takes the next argument as a directory (a `-d`
/// with nothing after it is dropped), and every other argument is a filter.
pub open spec fn spec_test_args(args: Seq<Seq<char>>, i: int) -> (Seq<Seq<char>>, Seq<Seq<char>>)
    decreases args.len() - i,
{
    if i < 0 || i >= args.len() {
        (Seq::empty(), Seq::empty())
    } else if args[i] == lit_d() {
        if i + 1 < args.len() {
            let (dirs, filters) = spec_test_args(args, i + 2);
            (seq![args[i + 1]] + dirs, filters)
        } else {
            (Seq::empty(), Seq::empty())
        }
    } else {
        let (dirs, filters) = spec_test_args(args, i + 1);
        (dirs, seq![args[i]] + filters)
    }
}

/// Splits the arguments of `test` into directories and filters; see
/// `spec_test_args`.
pub fn parse_test_args(args: &[String]) -> (res: TestArgs)
    ensures
        (arg_views(res.dirs@), arg_views(res.filters@)) == spec_test_args(arg_views(args@), 0),
{
    proof {
        reveal_strlit("-d");
        assert("-d"@ =~= lit_d());
    }
    let ghost a = arg_views(args@);
    let mut dirs: Vec<String> = Vec::new();
    let mut filters: Vec<String> = Vec::new();
    let n = args.len();
    let mut i: usize = 0;
    while i < n
        invariant
            n == args@.len(),
            a == arg_views(args@),
            0 <= i <= n + 1,
            spec_test_args(a, 0).0 == arg_views(dirs@) + spec_test_args(a, i as int).0,
            spec_test_args(a, 0).1 == arg_views(filters@) + spec_test_args(a, i as int).1,
        decreases n + 1 - i,
    {
        let ghost old_dirs = dirs@;
        let ghost old_filters = filters@;
        proof {
            reveal_strlit("-d");
            assert("-d"@ =~= lit_d());
        }
        let arg = &args[i];
        assert(arg@ == a[i as int]);
        if is_arg(arg, "-d") {
            if i + 1 < n {
                let dir = args[i + 1].clone();
                assert(dir@ == a[i + 1]);
                dirs.push(dir);
                proof {
                    assert(arg_views(dirs@) =~= arg_views(old_dirs) + seq![a[i + 1]]);
                    let rest = spec_test_args(a, i + 2);
                    assert(spec_test_args(a, i as int) == (seq![a[i + 1]] + rest.0, rest.1));
                    assert(arg_views(old_dirs) + (seq![a[i + 1]] + rest.0) =~= arg_views(dirs@) + rest.0);
                    assert(arg_views(filters@) == arg_views(old_filters));
                }
                i = i + 2;
            } else {
                proof {
                    assert(spec_test_args(a, i as int) == (Seq::<Seq<char>>::empty(), Seq::<Seq<char>>::empty()));
                    assert(spec_test_args(a, n as int) == (Seq::<Seq<char>>::empty(), Seq::<Seq<char>>::empty()));
                }
                i = n;
            }
        } else {
            let filter = arg.clone();
            filters.push(filter);
            proof {
                assert(arg_views(filters@) =~= arg_views(old_filters) + seq![a[i as int]]);
                let rest = spec_test_args(a, i + 1);
                assert(a[i as int] != lit_d());
                assert(spec_test_args(a, i as int) == (rest.0, seq![a[i as int]] + rest.1));
                assert(arg_views(old_filters) + (seq![a[i as int]] + rest.1) =~= arg_views(filters@) + rest.1);
            }
            i = i + 1;
        }
    }
    proof {
        assert(arg_views(dirs@) + Seq::<Seq<char>>::empty() =~= arg_views(dirs@));
        assert(arg_views(filters@) + Seq::<Seq<char>>::empty() =~= arg_views(filters@));
    }
    TestArgs { dirs, filters }
}

/// The suffixes of test files: `.test` followed by each supported extension
/// other than the bytecode one, in order.
pub open spec fn spec_test_extensions(supported: Seq<Seq<char>>, bytecode_ext: Seq<char>) -> Seq<Seq<char>>
    decreases supported.len(),
{
    if supported.len() == 0 {
        Seq::empty()
    } else {
        let rest = spec_test_extensions(supported.drop_last(), bytecode_ext);
        if supported.last() == bytecode_ext {
            rest
        } else {
            rest.push(seq!['.', 't', 'e', 's', 't'] + supported.last())
        }
    }
}

/// The characters of each string slice.
pub open spec fn str_views(items: Seq<&str>) -> Seq<Seq<char>> {
    items.map_values(|s: &str| s@)
}

/// The suffixes that mark test files; see `spec_test_extensions`.
pub fn test_extensions(supported: &[&str], bytecode_ext: &str) -> (res: Vec<String>)
    ensures
        arg_views(res@) == spec_test_extensions(str_views(supported@), bytecode_ext@),
{
    proof {
        reveal_strlit(".test");
    }
    let ghost all = str_views(supported@);
    let mut out: Vec<String> = Vec::new();
    let mut i: usize = 0;
    while i < supported.len()
        invariant
            0 <= i <= supported@.len(),
            all == str_views(supported@),
            arg_views(out@) == spec_test_extensions(all.take(i as int), bytecode_ext@),
        decreases supported@.len() - i,
    {
        let ext = supported[i];
        let ghost before = out@;
        proof {
            assert(all.take(i + 1).drop_last() =~= all.take(i as int));
            assert(all.take(i + 1).last() == ext@);
        }
        if !same_text(ext, bytecode_ext) {
            let mut name = String::from_str(".test");
            name.append(ext);
            out.push(name);
            proof {
                reveal_strlit(".test");
                assert(".test"@ =~= seq!['.', 't', 'e', 's', 't']);
                assert(arg_views(out@) =~= arg_views(before).push(".test"@ + ext@));
            }
        }
        i = i + 1;
    }
    proof {
        assert(all.take(supported@.len() as int) =~= all);
    }
    out
}

/// Whether the file `name` is a test file for the suffix `ext` under
/// `filters`: it ends with `ext`, and contains one of the filters if there are
/// any.
pub open spec fn test_file_matches(name: Seq<char>, ext: Seq<char>, filters: Seq<Seq<char>>) -> bool {
    ext.is_suffix_of(name) && (filters.len() == 0 || exists|j: int| 0 <= j < filters.len() && occurs_in(#[trigger] filters[j], name))
}

/// The entries a test file adds: its path once for each suffix it matches.
pub open spec fn spec_test_entries(name: Seq<char>, path: Seq<char>, exts: Seq<Seq<char>>, filters: Seq<Seq<char>>) -> Seq<Seq<char>>
    decreases exts.len(),
{
    if exts.len() == 0 {
        Seq::empty()
    } else {
        let rest = spec_test_entries(name, path, exts.drop_last(), filters);
        if test_file_matches(name, exts.last(), filters) {
            rest.push(path)
        } else {
            rest
        }
    }
}

/// Whether `name` contains one of `filters`.
fn matches_filter(name: &str, filters: &Vec<String>) -> (res: bool)
    ensures
        res == exists|j: int| 0 <= j < filters@.len() && occurs_in(#[trigger] arg_views(filters@)[j], name@),
{
    let mut j: usize = 0;
    while j < filters.len()
        invariant
            0 <= j <= filters@.len(),
            forall|k: int| 0 <= k < j ==> !occurs_in(#[trigger] arg_views(filters@)[k], name@),
        decreases filters@.len() - j,
    {
        if contains(name, filters[j].as_str()) {
            assert(occurs_in(arg_views(filters@)[j as int], name@));
            return true;
        }
        j = j + 1;
    }
    false
}

/// Adds the entries of the test file `name`, found at `path`; see
/// `spec_test_entries`.
pub fn push_test_entries(name: &str, path: &str, exts: &Vec<String>, filters: &Vec<String>, entries: &mut Vec<String>)
    ensures
        arg_views(final(entries)@) == arg_views(old(entries)@)
            + spec_test_entries(name@, path@, arg_views(exts@), arg_views(filters@)),
{
    let ghost e = arg_views(exts@);
    let ghost f = arg_views(filters@);
    let has_filters = filters.len() > 0;
    let filtered_in = !has_filters || matches_filter(name, filters);
    let mut i: usize = 0;
    while i < exts.len()
        invariant
            0 <= i <= exts@.len(),
            e == arg_views(exts@),
            f == arg_views(filters@),
            filtered_in == (f.len() == 0 || exists|j: int| 0 <= j < f.len() && occurs_in(#[trigger] f[j], name@)),
            arg_views(entries@) == arg_views(old(entries)@) + spec_test_entries(name@, path@, e.take(i as int), f),
        decreases exts@.len() - i,
    {
        let ghost before = entries@;
        proof {
            assert(e.take(i + 1).drop_last() =~= e.take(i as int));
            assert(e.take(i + 1).last() == exts@[i as int]@);
        }
        if ends_with(name, exts[i].as_str()) && filtered_in {
            entries.push(path.to_owned());
            proof {
                assert(arg_views(entries@) =~= arg_views(before).push(path@));
            }
        }
        i = i + 1;
    }
    proof {
        assert(e.take(exts@.len() as int) =~= e);
    }
}

/// Sorts the test entries in the order of `text_le` (for strings the order
/// of their bytes), keeping every entry.
pub fn sort_entries(entries: &mut Vec<String>)
    ensures
        sorted_by(arg_views(final(entries)@), text_order()),
        arg_views(final(entries)@).to_multiset() == arg_views(old(entries)@).to_multiset(),
{
    proof {
        lemma_text_order_total();
    }
    let mut input: Vec<String> = Vec::new();
    std::mem::swap(&mut input, entries);
    let ghost all = arg_views(input@);
    let ghost items = input@;
    let mut out: Vec<String> = Vec::new();
    assert(arg_views(out@) =~= all.take(0));
    for item in it: input.into_iter()
        invariant
            it.seq() == items,
            all == arg_views(items),
            vstd::relations::total_ordering(text_order()),
            sorted_by(arg_views(out@), text_order()),
            arg_views(out@).to_multiset() == all.take(it.index() as int).to_multiset(),
    {
        let ghost i = it.index();
        let ghost before = arg_views(out@);
        let item_chars = chars_of(item.as_str());
        let mut p: usize = 0;
        while p < out.len() && chars_le(&chars_of(out[p].as_str()), &item_chars)
            invariant
                p <= out@.len(),
                arg_views(out@) == before,
                item_chars@ == item@,
                forall|k: int| 0 <= k < p ==> text_order()(#[trigger] arg_views(out@)[k], item@),
            decreases out@.len() - p,
        {
            p = p + 1;
        }
        let ghost x = item@;
        out.insert(p, item);
        proof {
            let after = arg_views(out@);
            assert(after =~= before.insert(p as int, x));
            assert(sorted_by(after, text_order())) by {
                assert forall|a: int, b: int| 0 <= a < b < after.len() implies #[trigger] text_order()(after[a], after[b]) by {
                    if b < p {
                        assert(text_order()(before[a], before[b]));
                    } else if b == p {
                        assert(text_order()(before[a], x));
                    } else if a == p {
                        assert(!text_order()(before[p as int], x));
                        assert(text_order()(x, before[p as int]));
                        if b - 1 > p {
                            assert(text_order()(before[p as int], before[b - 1]));
                        }
                    } else if a < p {
                        assert(text_order()(before[a], before[b - 1]));
                    } else {
                        assert(text_order()(before[a - 1], before[b - 1]));
                    }
                }
            }
            assert(x == all[i as int]);
            assert(all.take(i + 1) =~= all.take(i as int).push(x));
            vstd::seq_lib::to_multiset_insert(before, p as int, x);
            vstd::seq_lib::to_multiset_build(all.take(i as int), x);
            assert(after.to_multiset() == before.to_multiset().insert(x));
            assert(all.take(i + 1).to_multiset() == all.take(i as int).to_multiset().insert(x));
        }
    }
    proof {
        assert(all.take(items.len() as int) =~= all);
    }
    *entries = out;
}

/// Sorting is unique: two sortings of the same entries are the same sequence.
pub proof fn lemma_sorted_entries_unique(x: Seq<Seq<char>>, y: Seq<Seq<char>>)
    requires
        sorted_by(x, text_order()),
        sorted_by(y, text_order()),
        x.to_multiset() == y.to_multiset(),
    ensures
        x == y,
{
    lemma_text_order_total();
    vstd::seq_lib::lemma_sorted_unique(x, y, text_order());
}

/// Whether the running binary is the runtime itself, whose file name starts
/// with `llrt`; only other binaries are searched for an embedded program.
pub fn is_runtime_binary(file_name: &str) -> (res: bool)
    ensures
        res == seq!['l', 'l', 'r', 't'].is_prefix_of(file_name@),
{
    proof {
        reveal_strlit("llrt");
        assert("llrt"@ =~= seq!['l', 'l', 'r', 't']);
    }
    starts_with(file_name, "llrt")
}

/// Whether `ext` is one of the `supported` extensions.
pub fn is_supported_ext(ext: &str, supported: &[&str]) -> (res: bool)
    ensures
        res == str_views(supported@).contains(ext@),
{
    let mut i: usize = 0;
    while i < supported.len()
        invariant
            0 <= i <= supported@.len(),
            forall|j: int| 0 <= j < i ==> str_views(supported@)[j] != ext@,
        decreases supported@.len() - i,
    {
        if same_text(supported[i], ext) {
            assert(str_views(supported@)[i as int] == ext@);
            return true;
        }
        i = i + 1;
    }
    false
}

/// The output of `compile` is the argument after the input whenever that
/// argument is not `--executable`, whatever follows it; the input without its
/// extension is the output only when `--executable` comes right after the
/// input; with nothing after the input it is the input with extension `lrt`.
/// `--executable` after the input or after the output makes an executable.
pub proof fn lemma_compile_output(a: Seq<Seq<char>>, rest: Seq<Seq<char>>)
    requires
        a.len() > 2,
    ensures
        a.len() > 3 && a[3] != lit_executable() ==> spec_compile_output(a) == a[3],
        a.len() > 3 && a[3] != lit_executable() ==> spec_compile_output(a + rest) == a[3],
        a.len() > 3 && a[3] == lit_executable() ==> spec_compile_output(a) == path_with_extension(a[2], Seq::empty()),
        a.len() == 3 ==> spec_compile_output(a) == path_with_extension(a[2], lit_lrt()),
        a.len() == 4 ==> spec_compile_executable(a) == (a[3] == lit_executable()),
        a.len() == 5 ==> spec_compile_executable(a) == (a[3] == lit_executable() || a[4] == lit_executable()),
{
    if a.len() > 3 {
        assert((a + rest)[3] == a[3]);
        assert((a + rest).len() > 3);
    }
}

/// Shifting the reading of the test arguments past a prefix.
proof fn lemma_test_args_shift(prefix: Seq<Seq<char>>, rest: Seq<Seq<char>>, k: int)
    requires
        0 <= k,
    ensures
        spec_test_args(prefix + rest, prefix.len() + k) == spec_test_args(rest, k),
    decreases rest.len() - k,
{
    let all = prefix + rest;
    let n = prefix.len();
    if k < rest.len() {
        assert(all[n + k] == rest[k]);
        if rest[k] == lit_d() {
            if k + 1 < rest.len() {
                assert(all[n + k + 1] == rest[k + 1]);
                lemma_test_args_shift(prefix, rest, k + 2);
            }
        } else {
            lemma_test_args_shift(prefix, rest, k + 1);
        }
    }
}

/// `-d dir` in front of other arguments adds `dir` as the first directory and
/// leaves the rest as it was; any other argument in front is the first filter;
/// a lone trailing `-d` is dropped.
pub proof fn lemma_test_args_prepend(dir: Seq<char>, arg: Seq<char>, rest: Seq<Seq<char>>)
    ensures
        spec_test_args(seq![lit_d(), dir] + rest, 0)
            == (seq![dir] + spec_test_args(rest, 0).0, spec_test_args(rest, 0).1),
        arg != lit_d() ==> spec_test_args(seq![arg] + rest, 0)
            == (spec_test_args(rest, 0).0, seq![arg] + spec_test_args(rest, 0).1),
        spec_test_args(seq![lit_d(), dir], 0) == (seq![dir], Seq::<Seq<char>>::empty()),
        spec_test_args(seq![lit_d()], 0) == (Seq::<Seq<char>>::empty(), Seq::<Seq<char>>::empty()),
{
    let p2 = seq![lit_d(), dir];
    let a2 = p2 + rest;
    assert(a2[0] == lit_d());
    assert(a2[1] == dir);
    lemma_test_args_shift(p2, rest, 0);
    let p1 = seq![arg];
    let a1 = p1 + rest;
    assert(a1[0] == arg);
    lemma_test_args_shift(p1, rest, 0);
    let e = Seq::<Seq<char>>::empty();
    assert(p2 + e =~= p2);
    lemma_test_args_shift(p2, e, 0);
    assert(spec_test_args(e, 0) == (e, e));
    assert(seq![dir] + e =~= seq![dir]);
}

/// A file is a test file for a suffix exactly when its name ends with that
/// suffix and, where there are filters, one of them occurs somewhere in the
/// name (not only at its start); each such suffix adds the path once.
pub proof fn lemma_test_entry_selection(
    name: Seq<char>,
    path: Seq<char>,
    exts: Seq<Seq<char>>,
    ext: Seq<char>,
    filters: Seq<Seq<char>>,
    j: int,
    at: int,
)
    ensures
        ext.len() <= name.len() && name.subrange(name.len() - ext.len(), name.len() as int) == ext
            && 0 <= j < filters.len() && 0 <= at && at + filters[j].len() <= name.len()
            && name.subrange(at, at + filters[j].len()) == filters[j]
            ==> spec_test_entries(name, path, exts.push(ext), filters) == spec_test_entries(name, path, exts, filters).push(path),
        ext.len() <= name.len() && name.subrange(name.len() - ext.len(), name.len() as int) == ext && filters.len() == 0
            ==> spec_test_entries(name, path, exts.push(ext), filters) == spec_test_entries(name, path, exts, filters).push(path),
        !(ext.len() <= name.len() && name.subrange(name.len() - ext.len(), name.len() as int) == ext)
            ==> spec_test_entries(name, path, exts.push(ext), filters) == spec_test_entries(name, path, exts, filters),
        filters.len() > 0 && (forall|k: int, b: int| 0 <= k < filters.len() && 0 <= b && b + filters[k].len() <= name.len()
            ==> #[trigger] name.subrange(b, b + filters[k].len()) != filters[k])
            ==> spec_test_entries(name, path, exts.push(ext), filters) == spec_test_entries(name, path, exts, filters),
{
    let all = exts.push(ext);
    assert(all.drop_last() =~= exts);
    assert(all.last() == ext);
    if 0 <= j < filters.len() && 0 <= at && at + filters[j].len() <= name.len()
        && name.subrange(at, at + filters[j].len()) == filters[j] {
        assert(occurs_in(filters[j], name));
    }
    if filters.len() > 0 && (forall|k: int, b: int| 0 <= k < filters.len() && 0 <= b && b + filters[k].len() <= name.len()
        ==> #[trigger] name.subrange(b, b + filters[k].len()) != filters[k]) {
        assert forall|k: int| 0 <= k < filters.len() implies !occurs_in(#[trigger] filters[k], name) by {
            if occurs_in(filters[k], name) {
                let b = choose|b: int| 0 <= b <= name.len() - filters[k].len() && #[trigger] name.subrange(b, b + filters[k].len()) == filters[k];
                assert(name.subrange(b, b + filters[k].len()) == filters[k]);
            }
        }
    }
}

} // verus!
