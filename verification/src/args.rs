//! Command-line argument parsing: from an argument vector to the program's
//! settings.
//!
//! Flags may be clustered (`-Ln`); `-C` and `-u` take a value, either glued
//! on (`-Cpath`) or as the next argument; the first non-flag argument, a
//! lone `-`, or `--` ends flag parsing and the rest is the command to run.
//! The surrounding program collects the argument vector from the
//! environment and hands it in.

use vstd::prelude::*;

use vstd::string::StringExecFns;

verus! {

/// Why an argument vector was rejected.
#[derive(Debug, Clone, Copy, PartialEq, Eq, Structural)]
pub enum ArgError {
    /// `-C` or `-u` stood last, with no value to take.
    MissingValue(char),
    /// A flag character that is none of `L`, `n`, `s`, `C`, `u`.
    UnknownFlag(char),
}

/// The parsed command line.
#[derive(Debug, Clone)]
pub struct RunaArgs {
    /// Configuration file path given with `-C`.
    pub conf_path: Option<String>,
    /// Target user given with `-u`.
    pub user: Option<String>,
    /// `-L`: clear the cached session timestamp.
    pub clear_timestamp: bool,
    /// `-n`: fail instead of prompting.
    pub non_interactive: bool,
    /// `-s`: run a shell instead of a command.
    pub shell: bool,
    /// The command to run, with its arguments.
    pub command: Vec<String>,
}

/// The mathematical image of `RunaArgs`.
pub struct RunaArgsV {
    pub conf_path: Option<Seq<char>>,
    pub user: Option<Seq<char>>,
    pub clear_timestamp: bool,
    pub non_interactive: bool,
    pub shell: bool,
    pub command: Seq<Seq<char>>,
}

/// The settings before any flag is read: nothing set, no command.
pub open spec fn default_args() -> RunaArgsV {
    RunaArgsV {
        conf_path: None,
        user: None,
        clear_timestamp: false,
        non_interactive: false,
        shell: false,
        command: Seq::empty(),
    }
}

impl View for RunaArgs {
    type V = RunaArgsV;

    open spec fn view(&self) -> RunaArgsV {
        RunaArgsV {
            conf_path: self.conf_path.deep_view(),
            user: self.user.deep_view(),
            clear_timestamp: self.clear_timestamp,
            non_interactive: self.non_interactive,
            shell: self.shell,
            command: self.command.deep_view(),
        }
    }
}

impl Default for RunaArgs {
    /// Nothing set, no command.
    fn default() -> (r: Self)
        ensures
            r@ == default_args(),
    {
        let r = RunaArgs {
            conf_path: None,
            user: None,
            clear_timestamp: false,
            non_interactive: false,
            shell: false,
            command: Vec::new(),
        };
        proof {
            assert(r@.command =~= default_args().command);
        }
        r
    }
}

/// Outcome of reading one `-`-led argument's flag characters.
pub enum FlagsOut {
    /// Flags applied; parsing continues at argument `next_i`.
    Continue { acc: RunaArgsV, next_i: int },
    /// A flag was unknown or missed its value.
    Fail { e: ArgError },
}

/// Reading the flag characters of argument `i` (a `-`-led word) from
/// position `idx` on. `L`, `n` and `s` set their switch; `C` and `u` take
/// the rest of the word as their value, or the next whole argument when
/// nothing is glued on, and end the word.
pub open spec fn scan_flags(
    args: Seq<Seq<char>>,
    i: int,
    a: Seq<char>,
    idx: int,
    acc: RunaArgsV,
) -> FlagsOut
    decreases a.len() - idx,
{
    if idx < 0 || idx >= a.len() {
        FlagsOut::Continue { acc, next_i: i + 1 }
    } else {
        let c = a[idx];
        if c == 'L' {
            scan_flags(args, i, a, idx + 1, set_clear_flag(acc))
        } else if c == 'n' {
            scan_flags(args, i, a, idx + 1, set_non_interactive_flag(acc))
        } else if c == 's' {
            scan_flags(args, i, a, idx + 1, set_shell_flag(acc))
        } else if c == 'C' || c == 'u' {
            if idx + 1 < a.len() {
                FlagsOut::Continue {
                    acc: set_value(acc, c, a.subrange(idx + 1, a.len() as int)),
                    next_i: i + 1,
                }
            } else if i + 1 >= args.len() {
                FlagsOut::Fail { e: ArgError::MissingValue(c) }
            } else {
                FlagsOut::Continue { acc: set_value(acc, c, args[i + 1]), next_i: i + 2 }
            }
        } else {
            FlagsOut::Fail { e: ArgError::UnknownFlag(c) }
        }
    }
}

/// `acc` with the timestamp-clearing switch set.
pub open spec fn set_clear_flag(acc: RunaArgsV) -> RunaArgsV {
    RunaArgsV { clear_timestamp: true, ..acc }
}

/// `acc` with the non-interactive switch set.
pub open spec fn set_non_interactive_flag(acc: RunaArgsV) -> RunaArgsV {
    RunaArgsV { non_interactive: true, ..acc }
}

/// `acc` with the shell switch set.
pub open spec fn set_shell_flag(acc: RunaArgsV) -> RunaArgsV {
    RunaArgsV { shell: true, ..acc }
}

/// `acc` with the value of `-C` or `-u` filled in.
pub open spec fn set_value(acc: RunaArgsV, c: char, v: Seq<char>) -> RunaArgsV {
    if c == 'C' {
        RunaArgsV { conf_path: Some(v), ..acc }
    } else {
        RunaArgsV { user: Some(v), ..acc }
    }
}

/// The whole argument vector from position `i` on: flag words until the
/// first non-flag argument, a lone `-`, or `--`; everything after that is
/// the command.
pub open spec fn spec_parse_args(args: Seq<Seq<char>>, i: int, acc: RunaArgsV) -> Result<
    RunaArgsV,
    ArgError,
>
    decreases args.len() - i,
        when 0 <= i
        via spec_parse_args_dec
{
    if i >= args.len() {
        Ok(acc)
    } else {
        let a = args[i];
        if a.len() == 0 || a[0] != '-' || a == seq!['-'] {
            Ok(RunaArgsV { command: args.skip(i), ..acc })
        } else if a == seq!['-', '-'] {
            Ok(RunaArgsV { command: args.skip(i + 1), ..acc })
        } else {
            match scan_flags(args, i, a, 1, acc) {
                FlagsOut::Fail { e } => Err(e),
                FlagsOut::Continue { acc: acc2, next_i } => spec_parse_args(args, next_i, acc2),
            }
        }
    }
}

#[via_fn]
proof fn spec_parse_args_dec(args: Seq<Seq<char>>, i: int, acc: RunaArgsV) {
    if 0 <= i < args.len() {
        lemma_scan_flags_next(args, i, args[i], 1, acc);
    }
}

/// Reading one flag word moves on by one argument, or by two when the
/// following argument was taken as a value.
pub proof fn lemma_scan_flags_next(
    args: Seq<Seq<char>>,
    i: int,
    a: Seq<char>,
    idx: int,
    acc: RunaArgsV,
)
    ensures
        match scan_flags(args, i, a, idx, acc) {
            FlagsOut::Continue { acc: a2, next_i } => i + 1 <= next_i <= i + 2 && (next_i == i + 2
                ==> i + 1 < args.len()),
            FlagsOut::Fail { .. } => true,
        },
    decreases a.len() - idx,
{
    if 0 <= idx < a.len() {
        let c = a[idx];
        if c == 'L' {
            lemma_scan_flags_next(args, i, a, idx + 1, set_clear_flag(acc));
        } else if c == 'n' {
            lemma_scan_flags_next(args, i, a, idx + 1, set_non_interactive_flag(acc));
        } else if c == 's' {
            lemma_scan_flags_next(args, i, a, idx + 1, set_shell_flag(acc));
        }
    }
}

/// Copy of the arguments from position `i` on.
fn clone_suffix(args: &Vec<String>, i: usize) -> (r: Vec<String>)
    requires
        i <= args@.len(),
    ensures
        r.deep_view() == args.deep_view().skip(i as int),
{
    let mut r: Vec<String> = Vec::new();
    let mut j: usize = i;
    proof {
        assert(r.deep_view() =~= Seq::<Seq<char>>::empty());
    }
    while j < args.len()
        invariant
            i <= j <= args@.len(),
            r.deep_view() =~= args.deep_view().subrange(i as int, j as int),
        decreases args@.len() - j,
    {
        let ghost dv = r.deep_view();
        let cl = args[j].clone();
        r.push(cl);
        j = j + 1;
        proof {
            assert(r.deep_view() =~= dv.push(args.deep_view()[j - 1]));
            assert(r.deep_view() =~= args.deep_view().subrange(i as int, j as int));
        }
    }
    proof {
        assert(args.deep_view().subrange(i as int, args.deep_view().len() as int)
            =~= args.deep_view().skip(i as int));
    }
    r
}

/// Read the flag characters of argument `i`, which begins with `-`,
/// applying each to `out`; the result is the position parsing continues
/// at.
#[verifier::loop_isolation(false)]
fn scan_flag_group(args: &Vec<String>, i: usize, out: &mut RunaArgs) -> (r: Result<
    usize,
    ArgError,
>)
    requires
        i < args@.len(),
    ensures
        match scan_flags(args.deep_view(), i as int, args.deep_view()[i as int], 1, old(out)@) {
            FlagsOut::Continue { acc, next_i } => {
                &&& r matches Ok(n) && n as int == next_i
                &&& final(out)@ == acc
                &&& i < next_i <= args@.len()
            },
            FlagsOut::Fail { e } => r matches Err(e2) && e2 == e,
        },
{
    let ghost dv = args.deep_view();
    let ghost a = dv[i as int];
    let total: usize = args.len();
    let n: usize = args[i].as_str().unicode_len();
    let mut idx: usize = 1;
    loop
        invariant
            1 <= idx,
            n == a.len(),
            scan_flags(dv, i as int, a, idx as int, out@) == scan_flags(
                dv,
                i as int,
                a,
                1,
                old(out)@,
            ),
        decreases n - idx,
    {
        if idx >= n {
            return Ok(i + 1);
        }
        let c = args[i].as_str().get_char(idx);
        if c == 'L' {
            out.clear_timestamp = true;
        } else if c == 'n' {
            out.non_interactive = true;
        } else if c == 's' {
            out.shell = true;
        } else if c == 'C' || c == 'u' {
            if idx + 1 < n {
                let v = String::from_str(args[i].as_str().substring_char(idx + 1, n));
                if c == 'C' {
                    out.conf_path = Some(v);
                } else {
                    out.user = Some(v);
                }
                return Ok(i + 1);
            } else if i + 1 >= total {
                return Err(ArgError::MissingValue(c));
            } else {
                let v = args[i + 1].clone();
                if c == 'C' {
                    out.conf_path = Some(v);
                } else {
                    out.user = Some(v);
                }
                return Ok(i + 2);
            }
        } else {
            return Err(ArgError::UnknownFlag(c));
        }
        idx = idx + 1;
    }
}

/// Parse an argument vector into the program's settings, or reject it on
/// the first unknown flag or missing value.
#[verifier::loop_isolation(false)]
pub fn parse(args: &Vec<String>) -> (r: Result<RunaArgs, ArgError>)
    ensures
        match spec_parse_args(args.deep_view(), 0, default_args()) {
            Ok(v) => r matches Ok(out) && out@ == v,
            Err(e) => r matches Err(e2) && e2 == e,
        },
{
    let ghost dv = args.deep_view();
    let mut out = RunaArgs::default();
    let mut i: usize = 0;
    loop
        invariant
            i <= args@.len(),
            spec_parse_args(dv, i as int, out@) == spec_parse_args(dv, 0, default_args()),
        decreases args@.len() - i,
    {
        if i >= args.len() {
            return Ok(out);
        }
        let n: usize = args[i].as_str().unicode_len();
        let starts_dash = n >= 1 && args[i].as_str().get_char(0) == '-';
        if !starts_dash || n == 1 {
            proof {
                if starts_dash && n == 1 {
                    assert(dv[i as int] =~= seq!['-']);
                }
            }
            let cmd = clone_suffix(args, i);
            out.command = cmd;
            return Ok(out);
        }
        let is_ddash = n == 2 && args[i].as_str().get_char(1) == '-';
        if is_ddash {
            proof {
                assert(dv[i as int] =~= seq!['-', '-']);
            }
            let cmd = clone_suffix(args, i + 1);
            out.command = cmd;
            return Ok(out);
        }
        proof {
            assert(!(dv[i as int] == seq!['-']) && !(dv[i as int] == seq!['-', '-'])) by {
                if dv[i as int] == seq!['-'] {
                    assert(dv[i as int].len() == 1);
                }
                if dv[i as int] == seq!['-', '-'] {
                    assert(dv[i as int][1] == '-');
                }
            }
        }
        match scan_flag_group(args, i, &mut out) {
            Ok(n2) => {
                i = n2;
            },
            Err(e) => {
                return Err(e);
            },
        }
    }
}

} // verus!
