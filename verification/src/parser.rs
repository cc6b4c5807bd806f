//! The parser: consumes the token stream and builds the ordered rule list.
//!
//! Parsing is fail-fast: the first lexical or syntax error aborts and is
//! returned; a single malformed rule invalidates the whole configuration.
//! Per rule the grammar is
//!
//! ```text
//! rule   := action option* identity ("as" target)? ("cmd" path args?)?
//! action := "permit" | "deny"
//! option := "nopass" | "nolog" | "persist" | "keepenv"
//!         | "setenv" ("{" ... "}")?
//! ```
//!
//! The spec-level model is `spec_parse_rules`: a recursive function from the
//! text and cursor to the rule list or the first error, built on the lexer's
//! `spec_next`. `Parser::parse_rules` is proved to follow it exactly.

use vstd::prelude::*;

use vstd::string::StringExecFns;

use crate::ast::{default_options, Action, Rule, RuleOptions, RuleOptionsV, RuleV};
use crate::error::{ParseError, ParseErrorKind};
use crate::lexer::{line_at, spec_next, LexOut, Lexer, Token, TokenV};
use crate::lexer::{
    lemma_find_token_start_bounds, lemma_find_token_start_char, lemma_quoted_content_bounds,
    lemma_word_end_bounds,
};
use crate::lexer::{find_token_start, is_word_end};

verus! {

/// One advance of the token stream: the next token and the cursor after it,
/// or the lexical error.
pub enum TokStep {
    Next { t: TokenV, pos: int },
    Fail { line: int },
}

/// `spec_next`, reshaped as a stream step.
pub open spec fn step(s: Seq<char>, pos: int) -> TokStep {
    match spec_next(s, pos) {
        LexOut::Tok { t, end } => TokStep::Next { t, pos: end },
        LexOut::Unclosed { line } => TokStep::Fail { line },
    }
}

/// Ranks a lookahead token for termination: everything strictly consumes
/// input except `EOF`, which the stream repeats in place.
pub open spec fn tok_rank(t: TokenV) -> int {
    if t is Eof {
        0
    } else {
        1
    }
}

/// Advancing the stream never moves the cursor backwards, and moves it
/// strictly forward whenever a token other than `EOF` comes out.
pub proof fn lemma_step_progress(s: Seq<char>, pos: int)
    requires
        0 <= pos <= s.len(),
    ensures
        match step(s, pos) {
            TokStep::Next { t, pos: p2 } => pos <= p2 <= s.len() && (!(t is Eof) ==> pos < p2),
            TokStep::Fail { line } => true,
        },
{
    lemma_find_token_start_bounds(s, pos, false);
    lemma_find_token_start_char(s, pos, false);
    let start = find_token_start(s, pos, false);
    if start < s.len() {
        if s[start] == '{' || s[start] == '}' {
        } else if s[start] == '"' {
            lemma_quoted_content_bounds(s, start + 1, Seq::empty());
        } else {
            assert(!is_word_end(s[start]));
            lemma_word_end_bounds(s, start + 1);
        }
    }
}

/// Outcome of skipping a braced `setenv` body: the cursor and lookahead at
/// the closing brace (or at end of input), or the lexical error hit inside.
pub enum PSkip {
    Done { pos: int, cur: TokenV },
    Fail { kind: ParseErrorKind, line: int },
}

/// Skipping the tokens of a braced `setenv` body: everything up to, and
/// excluding, the next `}` or end of input.
pub open spec fn parse_setenv_body(s: Seq<char>, pos: int, cur: TokenV) -> PSkip
    decreases s.len() - pos, tok_rank(cur),
        when 0 <= pos <= s.len()
        via parse_setenv_body_dec
{
    if cur is RBrace || cur is Eof {
        PSkip::Done { pos, cur }
    } else {
        match step(s, pos) {
            TokStep::Next { t, pos: p2 } => parse_setenv_body(s, p2, t),
            TokStep::Fail { line } => PSkip::Fail {
                kind: ParseErrorKind::UnclosedQuote,
                line,
            },
        }
    }
}

#[via_fn]
proof fn parse_setenv_body_dec(s: Seq<char>, pos: int, cur: TokenV) {
    lemma_step_progress(s, pos);
}

/// A skipped body ends at or after where it began, still inside the text.
pub proof fn lemma_parse_setenv_body_bounds(s: Seq<char>, pos: int, cur: TokenV)
    requires
        0 <= pos <= s.len(),
    ensures
        match parse_setenv_body(s, pos, cur) {
            PSkip::Done { pos: p2, cur: c2 } => pos <= p2 <= s.len(),
            PSkip::Fail { .. } => true,
        },
    decreases s.len() - pos, tok_rank(cur),
{
    lemma_step_progress(s, pos);
    if !(cur is RBrace || cur is Eof) {
        match step(s, pos) {
            TokStep::Next { t, pos: p2 } => {
                lemma_parse_setenv_body_bounds(s, p2, t);
            },
            TokStep::Fail { .. } => {},
        }
    }
}

/// Outcome of the option-scanning loop: the accumulated flags and the first
/// token that is not an option keyword, or the first error.
pub enum POpts {
    Done { opts: RuleOptionsV, pos: int, cur: TokenV },
    Fail { kind: ParseErrorKind, line: int },
}

/// The option-scanning loop. Options may repeat and come in any order; the
/// scan stops at the first token that is not an option keyword. A `setenv`
/// keyword may be followed by a whole braced body, which is skipped; a bare
/// `setenv` is an option on its own, and the scan goes on at the token
/// after it.
pub open spec fn parse_options(s: Seq<char>, pos: int, cur: TokenV, opts: RuleOptionsV) -> POpts
    decreases s.len() - pos, tok_rank(cur),
        when 0 <= pos <= s.len()
        via parse_options_dec
{
    match cur {
        TokenV::Nopass => match step(s, pos) {
            TokStep::Next { t, pos: p2 } => parse_options(
                s,
                p2,
                t,
                RuleOptionsV { nopass: true, ..opts },
            ),
            TokStep::Fail { line } => POpts::Fail { kind: ParseErrorKind::UnclosedQuote, line },
        },
        TokenV::Nolog => match step(s, pos) {
            TokStep::Next { t, pos: p2 } => parse_options(
                s,
                p2,
                t,
                RuleOptionsV { nolog: true, ..opts },
            ),
            TokStep::Fail { line } => POpts::Fail { kind: ParseErrorKind::UnclosedQuote, line },
        },
        TokenV::Persist => match step(s, pos) {
            TokStep::Next { t, pos: p2 } => parse_options(
                s,
                p2,
                t,
                RuleOptionsV { persist: true, ..opts },
            ),
            TokStep::Fail { line } => POpts::Fail { kind: ParseErrorKind::UnclosedQuote, line },
        },
        TokenV::KeepEnv => match step(s, pos) {
            TokStep::Next { t, pos: p2 } => parse_options(
                s,
                p2,
                t,
                RuleOptionsV { keepenv: true, ..opts },
            ),
            TokStep::Fail { line } => POpts::Fail { kind: ParseErrorKind::UnclosedQuote, line },
        },
        TokenV::SetEnv => match step(s, pos) {
            TokStep::Fail { line } => POpts::Fail { kind: ParseErrorKind::UnclosedQuote, line },
            TokStep::Next { t: t1, pos: p1 } => {
                if t1 is LBrace {
                    match parse_setenv_body(s, p1, t1) {
                        PSkip::Fail { kind, line } => POpts::Fail { kind, line },
                        PSkip::Done { pos: p2, cur: c2 } => match step(s, p2) {
                            TokStep::Fail { line } => POpts::Fail {
                                kind: ParseErrorKind::UnclosedQuote,
                                line,
                            },
                            TokStep::Next { t: t3, pos: p3 } => parse_options(s, p3, t3, opts),
                        },
                    }
                } else {
                    parse_options(s, p1, t1, opts)
                }
            },
        },
        _ => POpts::Done { opts, pos, cur },
    }
}

#[via_fn]
proof fn parse_options_dec(s: Seq<char>, pos: int, cur: TokenV, opts: RuleOptionsV) {
    if 0 <= pos <= s.len() {
        lemma_step_progress(s, pos);
        if cur is SetEnv {
            match step(s, pos) {
                TokStep::Next { t: t1, pos: p1 } => {
                    lemma_step_progress(s, p1);
                    lemma_parse_setenv_body_bounds(s, p1, t1);
                    match parse_setenv_body(s, p1, t1) {
                        PSkip::Done { pos: p2, cur: c2 } => {
                            lemma_step_progress(s, p2);
                        },
                        PSkip::Fail { .. } => {},
                    }
                },
                TokStep::Fail { .. } => {},
            }
        }
    }
}

/// The option scan ends at or after where it began, still inside the text.
pub proof fn lemma_parse_options_bounds(s: Seq<char>, pos: int, cur: TokenV, opts: RuleOptionsV)
    requires
        0 <= pos <= s.len(),
    ensures
        match parse_options(s, pos, cur, opts) {
            POpts::Done { opts: o2, pos: p2, cur: c2 } => pos <= p2 <= s.len(),
            POpts::Fail { .. } => true,
        },
    decreases s.len() - pos, tok_rank(cur),
{
    lemma_step_progress(s, pos);
    match cur {
        TokenV::Nopass | TokenV::Nolog | TokenV::Persist | TokenV::KeepEnv => {
            match step(s, pos) {
                TokStep::Next { t, pos: p2 } => {
                    let o2 = if cur is Nopass {
                        RuleOptionsV { nopass: true, ..opts }
                    } else if cur is Nolog {
                        RuleOptionsV { nolog: true, ..opts }
                    } else if cur is Persist {
                        RuleOptionsV { persist: true, ..opts }
                    } else {
                        RuleOptionsV { keepenv: true, ..opts }
                    };
                    lemma_parse_options_bounds(s, p2, t, o2);
                },
                TokStep::Fail { .. } => {},
            }
        },
        TokenV::SetEnv => {
            match step(s, pos) {
                TokStep::Next { t: t1, pos: p1 } => {
                    lemma_step_progress(s, p1);
                    lemma_parse_setenv_body_bounds(s, p1, t1);
                    if t1 is LBrace {
                        match parse_setenv_body(s, p1, t1) {
                            PSkip::Done { pos: p2, cur: c2 } => {
                                lemma_step_progress(s, p2);
                                match step(s, p2) {
                                    TokStep::Next { t: t3, pos: p3 } => {
                                        lemma_parse_options_bounds(s, p3, t3, opts);
                                    },
                                    TokStep::Fail { .. } => {},
                                }
                            },
                            PSkip::Fail { .. } => {},
                        }
                    } else {
                        lemma_parse_options_bounds(s, p1, t1, opts);
                    }
                },
                TokStep::Fail { .. } => {},
            }
        },
        _ => {},
    }
}

/// Outcome of the optional `as target` clause.
pub enum PTarget {
    Done { target: Seq<char>, pos: int, cur: TokenV },
    Fail { kind: ParseErrorKind, line: int },
}

/// The optional `as target` clause; without one the target defaults to
/// `root`. A target is never empty: an explicitly empty string falls back
/// to the default identity as well.
pub open spec fn spec_parse_target(s: Seq<char>, pos: int, cur: TokenV) -> PTarget {
    if cur is As {
        match step(s, pos) {
            TokStep::Fail { line } => PTarget::Fail { kind: ParseErrorKind::UnclosedQuote, line },
            TokStep::Next { t: t1, pos: p1 } => match t1 {
                TokenV::Text(tgt) => match step(s, p1) {
                    TokStep::Fail { line } => PTarget::Fail {
                        kind: ParseErrorKind::UnclosedQuote,
                        line,
                    },
                    TokStep::Next { t: t2, pos: p2 } => PTarget::Done {
                        target: if tgt.len() == 0 {
                            "root"@
                        } else {
                            tgt
                        },
                        pos: p2,
                        cur: t2,
                    },
                },
                _ => PTarget::Fail { kind: ParseErrorKind::ExpectedTarget, line: line_at(s, p1) },
            },
        }
    } else {
        PTarget::Done { target: "root"@, pos, cur }
    }
}

/// The target of the `as` clause is never empty: either a non-empty name
/// was given, or the default identity stands in.
pub proof fn lemma_parse_target_nonempty(s: Seq<char>, pos: int, cur: TokenV)
    ensures
        match spec_parse_target(s, pos, cur) {
            PTarget::Done { target, pos: p2, cur: c2 } => target.len() > 0,
            PTarget::Fail { .. } => true,
        },
{
    reveal_strlit("root");
}

/// Every rule a successful parse yields carries a non-empty target.
pub proof fn lemma_parse_rule_target_nonempty(s: Seq<char>, pos: int, cur: TokenV)
    ensures
        match spec_parse_rule(s, pos, cur) {
            PRule::Done { rule, pos: p2, cur: c2 } => rule.target.len() > 0,
            PRule::Fail { .. } => true,
        },
{
    if cur is Permit || cur is Deny {
        match step(s, pos) {
            TokStep::Next { t: t1, pos: p1 } => {
                match parse_options(s, p1, t1, default_options()) {
                    POpts::Done { opts, pos: p2, cur: c2 } => {
                        if c2 is Text {
                            match step(s, p2) {
                                TokStep::Next { t: t3, pos: p3 } => {
                                    lemma_parse_target_nonempty(s, p3, t3);
                                },
                                TokStep::Fail { .. } => {},
                            }
                        }
                    },
                    POpts::Fail { .. } => {},
                }
            },
            TokStep::Fail { .. } => {},
        }
    }
}

/// Outcome of the optional `cmd path` clause.
pub enum PCmd {
    Done { cmd: Option<Seq<char>>, pos: int, cur: TokenV },
    Fail { kind: ParseErrorKind, line: int },
}

/// The optional `cmd path` clause; absent means any command.
pub open spec fn spec_parse_cmd(s: Seq<char>, pos: int, cur: TokenV) -> PCmd {
    if cur is Cmd {
        match step(s, pos) {
            TokStep::Fail { line } => PCmd::Fail { kind: ParseErrorKind::UnclosedQuote, line },
            TokStep::Next { t: t1, pos: p1 } => match t1 {
                TokenV::Text(c) => match step(s, p1) {
                    TokStep::Fail { line } => PCmd::Fail {
                        kind: ParseErrorKind::UnclosedQuote,
                        line,
                    },
                    TokStep::Next { t: t2, pos: p2 } => PCmd::Done {
                        cmd: Some(c),
                        pos: p2,
                        cur: t2,
                    },
                },
                _ => PCmd::Fail { kind: ParseErrorKind::ExpectedCommand, line: line_at(s, p1) },
            },
        }
    } else {
        PCmd::Done { cmd: None, pos, cur }
    }
}

/// Outcome of collecting literal argument tokens.
pub enum PArgs {
    Done { items: Seq<Seq<char>>, pos: int, cur: TokenV },
    Fail { kind: ParseErrorKind, line: int },
}

/// Collecting consecutive free-text tokens after `args`.
pub open spec fn parse_args_list(s: Seq<char>, pos: int, cur: TokenV, items: Seq<Seq<char>>) -> PArgs
    decreases s.len() - pos, tok_rank(cur),
        when 0 <= pos <= s.len()
        via parse_args_list_dec
{
    match cur {
        TokenV::Text(a) => match step(s, pos) {
            TokStep::Next { t, pos: p2 } => parse_args_list(s, p2, t, items.push(a)),
            TokStep::Fail { line } => PArgs::Fail { kind: ParseErrorKind::UnclosedQuote, line },
        },
        _ => PArgs::Done { items, pos, cur },
    }
}

#[via_fn]
proof fn parse_args_list_dec(s: Seq<char>, pos: int, cur: TokenV, items: Seq<Seq<char>>) {
    lemma_step_progress(s, pos);
}

/// Collecting arguments ends at or after where it began, still inside the
/// text.
pub proof fn lemma_parse_args_list_bounds(
    s: Seq<char>,
    pos: int,
    cur: TokenV,
    items: Seq<Seq<char>>,
)
    requires
        0 <= pos <= s.len(),
    ensures
        match parse_args_list(s, pos, cur, items) {
            PArgs::Done { items: i2, pos: p2, cur: c2 } => pos <= p2 <= s.len(),
            PArgs::Fail { .. } => true,
        },
    decreases s.len() - pos, tok_rank(cur),
{
    lemma_step_progress(s, pos);
    match cur {
        TokenV::Text(a) => {
            match step(s, pos) {
                TokStep::Next { t, pos: p2 } => {
                    lemma_parse_args_list_bounds(s, p2, t, items.push(a));
                },
                TokStep::Fail { .. } => {},
            }
        },
        _ => {},
    }
}

/// Outcome of the optional `args` clause.
pub enum PArgsOpt {
    Done { args: Option<Seq<Seq<char>>>, pos: int, cur: TokenV },
    Fail { kind: ParseErrorKind, line: int },
}

/// The optional `args` clause. An `args` keyword followed by no argument
/// token leaves the constraint absent, exactly like no `args` at all.
pub open spec fn spec_parse_args(s: Seq<char>, pos: int, cur: TokenV) -> PArgsOpt {
    if cur is Args {
        match step(s, pos) {
            TokStep::Fail { line } => PArgsOpt::Fail { kind: ParseErrorKind::UnclosedQuote, line },
            TokStep::Next { t: t1, pos: p1 } => match parse_args_list(s, p1, t1, Seq::empty()) {
                PArgs::Fail { kind, line } => PArgsOpt::Fail { kind, line },
                PArgs::Done { items, pos: p2, cur: c2 } => PArgsOpt::Done {
                    args: if items.len() > 0 {
                        Some(items)
                    } else {
                        None
                    },
                    pos: p2,
                    cur: c2,
                },
            },
        }
    } else {
        PArgsOpt::Done { args: None, pos, cur }
    }
}

/// Outcome of parsing one rule: the rule with the cursor and lookahead
/// after it, or the first error.
pub enum PRule {
    Done { rule: RuleV, pos: int, cur: TokenV },
    Fail { kind: ParseErrorKind, line: int },
}

/// One whole rule: action, options, identity, then the optional `as`,
/// `cmd` and `args` clauses in that order. Every missing required token is
/// a fatal error citing the line the cursor stands on.
pub open spec fn spec_parse_rule(s: Seq<char>, pos: int, cur: TokenV) -> PRule {
    if !(cur is Permit || cur is Deny) {
        PRule::Fail { kind: ParseErrorKind::ExpectedAction, line: line_at(s, pos) }
    } else {
        let action = if cur is Permit {
            Action::Permit
        } else {
            Action::Deny
        };
        match step(s, pos) {
            TokStep::Fail { line } => PRule::Fail { kind: ParseErrorKind::UnclosedQuote, line },
            TokStep::Next { t: t1, pos: p1 } => match parse_options(s, p1, t1, default_options()) {
                POpts::Fail { kind, line } => PRule::Fail { kind, line },
                POpts::Done { opts, pos: p2, cur: c2 } => match c2 {
                    TokenV::Text(ident) => match step(s, p2) {
                        TokStep::Fail { line } => PRule::Fail {
                            kind: ParseErrorKind::UnclosedQuote,
                            line,
                        },
                        TokStep::Next { t: t3, pos: p3 } => match spec_parse_target(s, p3, t3) {
                            PTarget::Fail { kind, line } => PRule::Fail { kind, line },
                            PTarget::Done { target, pos: p4, cur: c4 } => match spec_parse_cmd(
                                s,
                                p4,
                                c4,
                            ) {
                                PCmd::Fail { kind, line } => PRule::Fail { kind, line },
                                PCmd::Done { cmd, pos: p5, cur: c5 } => match spec_parse_args(
                                    s,
                                    p5,
                                    c5,
                                ) {
                                    PArgsOpt::Fail { kind, line } => PRule::Fail { kind, line },
                                    PArgsOpt::Done { args, pos: p6, cur: c6 } => PRule::Done {
                                        rule: RuleV {
                                            action,
                                            options: opts,
                                            identity: ident,
                                            target,
                                            cmd,
                                            args,
                                        },
                                        pos: p6,
                                        cur: c6,
                                    },
                                },
                            },
                        },
                    },
                    _ => PRule::Fail {
                        kind: ParseErrorKind::ExpectedIdentity,
                        line: line_at(s, p2),
                    },
                },
            },
        }
    }
}

/// A successfully parsed rule consumed at least one token: the cursor moved
/// strictly forward and stayed inside the text.
pub proof fn lemma_parse_rule_progress(s: Seq<char>, pos: int, cur: TokenV)
    requires
        0 <= pos <= s.len(),
    ensures
        match spec_parse_rule(s, pos, cur) {
            PRule::Done { rule, pos: p2, cur: c2 } => pos < p2 <= s.len(),
            PRule::Fail { .. } => true,
        },
{
    lemma_step_progress(s, pos);
    if cur is Permit || cur is Deny {
        match step(s, pos) {
            TokStep::Next { t: t1, pos: p1 } => {
                lemma_parse_options_bounds(s, p1, t1, default_options());
                match parse_options(s, p1, t1, default_options()) {
                    POpts::Done { opts, pos: p2, cur: c2 } => {
                        if c2 is Text {
                            lemma_step_progress(s, p2);
                            match step(s, p2) {
                                TokStep::Next { t: t3, pos: p3 } => {
                                    lemma_step_progress(s, p3);
                                    if t3 is As {
                                        match step(s, p3) {
                                            TokStep::Next { t: t4, pos: p4 } => {
                                                lemma_step_progress(s, p4);
                                            },
                                            TokStep::Fail { .. } => {},
                                        }
                                    }
                                    match spec_parse_target(s, p3, t3) {
                                        PTarget::Done { target, pos: p4, cur: c4 } => {
                                            lemma_step_progress(s, p4);
                                            if c4 is Cmd {
                                                match step(s, p4) {
                                                    TokStep::Next { t: t5, pos: p5 } => {
                                                        lemma_step_progress(s, p5);
                                                    },
                                                    TokStep::Fail { .. } => {},
                                                }
                                            }
                                            match spec_parse_cmd(s, p4, c4) {
                                                PCmd::Done { cmd, pos: p5, cur: c5 } => {
                                                    lemma_step_progress(s, p5);
                                                    if c5 is Args {
                                                        match step(s, p5) {
                                                            TokStep::Next { t: t6, pos: p6 } => {
                                                                lemma_parse_args_list_bounds(
                                                                    s,
                                                                    p6,
                                                                    t6,
                                                                    Seq::empty(),
                                                                );
                                                            },
                                                            TokStep::Fail { .. } => {},
                                                        }
                                                    }
                                                },
                                                PCmd::Fail { .. } => {},
                                            }
                                        },
                                        PTarget::Fail { .. } => {},
                                    }
                                },
                                TokStep::Fail { .. } => {},
                            }
                        }
                    },
                    POpts::Fail { .. } => {},
                }
            },
            TokStep::Fail { .. } => {},
        }
    }
}

/// Outcome of parsing a whole configuration.
pub enum PRules {
    Done { rules: Seq<RuleV> },
    Fail { kind: ParseErrorKind, line: int },
}

/// The whole configuration: rules until `EOF`, fail-fast on the first
/// error. `acc` is the rules already built.
pub open spec fn spec_parse_rules(s: Seq<char>, pos: int, cur: TokenV, acc: Seq<RuleV>) -> PRules
    decreases s.len() - pos, tok_rank(cur),
        when 0 <= pos <= s.len()
        via spec_parse_rules_dec
{
    if cur is Eof {
        PRules::Done { rules: acc }
    } else {
        match spec_parse_rule(s, pos, cur) {
            PRule::Fail { kind, line } => PRules::Fail { kind, line },
            PRule::Done { rule, pos: p2, cur: c2 } => spec_parse_rules(s, p2, c2, acc.push(rule)),
        }
    }
}

#[via_fn]
proof fn spec_parse_rules_dec(s: Seq<char>, pos: int, cur: TokenV, acc: Seq<RuleV>) {
    if 0 <= pos <= s.len() {
        lemma_parse_rule_progress(s, pos, cur);
    }
}

/// The rule invariant carried through a whole parse: every rule of a
/// successful parse has a non-empty target, given the rules already
/// accumulated do.
pub proof fn lemma_parse_rules_target_nonempty(s: Seq<char>, pos: int, cur: TokenV, acc: Seq<RuleV>)
    requires
        0 <= pos <= s.len(),
        forall|i: int| 0 <= i < acc.len() ==> #[trigger] acc[i].target.len() > 0,
    ensures
        match spec_parse_rules(s, pos, cur, acc) {
            PRules::Done { rules } => forall|i: int|
                0 <= i < rules.len() ==> #[trigger] rules[i].target.len() > 0,
            PRules::Fail { .. } => true,
        },
    decreases s.len() - pos, tok_rank(cur),
{
    if !(cur is Eof) {
        lemma_parse_rule_progress(s, pos, cur);
        lemma_parse_rule_target_nonempty(s, pos, cur);
        match spec_parse_rule(s, pos, cur) {
            PRule::Done { rule, pos: p2, cur: c2 } => {
                assert(forall|i: int|
                    0 <= i < acc.len() ==> acc.push(rule)[i] == #[trigger] acc[i]);
                lemma_parse_rules_target_nonempty(s, p2, c2, acc.push(rule));
            },
            PRule::Fail { .. } => {},
        }
    }
}

/// Fail-fast on lexical errors: where the token stream fails — an
/// unterminated quoted string — the whole parse fails and no rule list
/// comes back. Standing on a rule's opening action keyword, the parse
/// reports exactly that lexical error, with the line its quote opened on
/// (which is what `spec_next` fixes the line to be).
pub proof fn lemma_lex_error_fails_parse(s: Seq<char>, pos: int, cur: TokenV, acc: Seq<RuleV>)
    requires
        0 <= pos <= s.len(),
        !(cur is Eof),
        step(s, pos) is Fail,
    ensures
        spec_parse_rules(s, pos, cur, acc) is Fail,
        (cur is Permit || cur is Deny) ==> (match step(s, pos) {
            TokStep::Fail { line } => spec_parse_rules(s, pos, cur, acc) == (PRules::Fail {
                kind: ParseErrorKind::UnclosedQuote,
                line,
            }),
            TokStep::Next { .. } => true,
        }),
{
}

/// The parser: a lexer, one token of lookahead, and the lexical error, if
/// any, that producing the first lookahead token raised.
pub struct Parser {
    pub lexer: Lexer,
    pub current_token: Token,
    pub pending: Option<ParseError>,
}

impl Parser {
    pub open spec fn wf(self) -> bool {
        self.lexer.wf()
    }

    /// The text being parsed.
    pub open spec fn text(self) -> Seq<char> {
        self.lexer.input@
    }

    /// The cursor: everything before it, the lookahead token included, has
    /// been consumed.
    pub open spec fn at(self) -> int {
        self.lexer.pos as int
    }

    /// The lookahead token.
    pub open spec fn cur(self) -> TokenV {
        self.current_token@
    }

    pub fn new(input: &str) -> (p: Parser)
        requires
            input@.len() < usize::MAX,
        ensures
            p.wf(),
            p.text() == input@,
            match step(input@, 0) {
                TokStep::Next { t, pos } => p.cur() == t && p.at() == pos && p.pending is None,
                TokStep::Fail { line } => p.pending matches Some(e) && e.kind
                    == ParseErrorKind::UnclosedQuote && e.line as int == line,
            },
    {
        let mut lexer = Lexer::new(input);
        match lexer.next_token() {
            Ok(t) => Parser { lexer, current_token: t, pending: None },
            Err(e) => Parser { lexer, current_token: Token::EOF, pending: Some(e) },
        }
    }

    /// Replace the lookahead with the next token of the stream.
    fn advance(&mut self) -> (r: Result<(), ParseError>)
        requires
            old(self).wf(),
        ensures
            final(self).wf(),
            final(self).text() == old(self).text(),
            final(self).pending == old(self).pending,
            match step(old(self).text(), old(self).at()) {
                TokStep::Next { t, pos } => r is Ok && final(self).cur() == t && final(self).at()
                    == pos,
                TokStep::Fail { line } => r matches Err(e) && e.kind
                    == ParseErrorKind::UnclosedQuote && e.line as int == line,
            },
    {
        match self.lexer.next_token() {
            Ok(t) => {
                self.current_token = t;
                Ok(())
            },
            Err(e) => Err(e),
        }
    }

    /// Skip the tokens of a braced `setenv` body, the lookahead standing
    /// just after the opening brace (or on it).
    #[verifier::loop_isolation(false)]
    fn skip_setenv_body(&mut self) -> (r: Result<(), ParseError>)
        requires
            old(self).wf(),
        ensures
            final(self).wf(),
            final(self).text() == old(self).text(),
            final(self).pending == old(self).pending,
            match parse_setenv_body(old(self).text(), old(self).at(), old(self).cur()) {
                PSkip::Done { pos, cur } => r is Ok && final(self).at() == pos && final(self).cur()
                    == cur,
                PSkip::Fail { kind, line } => r matches Err(e) && e.kind == kind && e.line as int
                    == line,
            },
    {
        let ghost s = self.text();
        loop
            invariant
                self.wf(),
                self.text() == s,
                self.pending == old(self).pending,
                parse_setenv_body(s, self.at(), self.cur()) == parse_setenv_body(
                    s,
                    old(self).at(),
                    old(self).cur(),
                ),
            decreases s.len() - self.at(), tok_rank(self.cur()),
        {
            proof {
                lemma_step_progress(s, self.at());
            }
            let done = matches!(self.current_token, Token::RBrace | Token::EOF);
            if done {
                break;
            }
            match self.advance() {
                Err(e) => {
                    return Err(e);
                },
                Ok(_) => {},
            }
        }
        Ok(())
    }

    /// Scan the option keywords before the identity, setting each flag as
    /// the grammar directs, and stop on the first token that is not one.
    #[verifier::loop_isolation(false)]
    fn scan_options(&mut self) -> (r: Result<RuleOptions, ParseError>)
        requires
            old(self).wf(),
        ensures
            final(self).wf(),
            final(self).text() == old(self).text(),
            final(self).pending == old(self).pending,
            match parse_options(old(self).text(), old(self).at(), old(self).cur(), default_options()) {
                POpts::Done { opts, pos, cur } => {
                    &&& r matches Ok(o) && o@ == opts
                    &&& final(self).at() == pos
                    &&& final(self).cur() == cur
                },
                POpts::Fail { kind, line } => r matches Err(e) && e.kind == kind && e.line as int
                    == line,
            },
    {
        let ghost s = self.text();
        let mut option = RuleOptions::default();
        let ghost opts_goal = parse_options(s, old(self).at(), old(self).cur(), default_options());
        loop
            invariant
                self.wf(),
                self.text() == s,
                self.pending == old(self).pending,
                parse_options(s, self.at(), self.cur(), option@) == opts_goal,
            decreases s.len() - self.at(), tok_rank(self.cur()),
        {
            proof {
                lemma_step_progress(s, self.at());
            }
            match &self.current_token {
                Token::Nopass => {
                    option.nopass = true;
                },
                Token::Nolog => {
                    option.nolog = true;
                },
                Token::Persist => {
                    option.persist = true;
                },
                Token::KeepEnv => {
                    option.keepenv = true;
                },
                Token::SetEnv => {
                    match self.advance() {
                        Err(e) => {
                            return Err(e);
                        },
                        Ok(_) => {},
                    }
                    let is_lb = matches!(self.current_token, Token::LBrace);
                    if is_lb {
                        proof {
                            lemma_parse_setenv_body_bounds(s, self.at(), self.cur());
                        }
                        match self.skip_setenv_body() {
                            Err(e) => {
                                return Err(e);
                            },
                            Ok(_) => {},
                        }
                    } else {
                        // A bare `setenv`: the token after it is already the
                        // lookahead, and the option scan goes on from it.
                        continue;
                    }
                },
                _ => {
                    break;
                },
            }
            proof {
                lemma_step_progress(s, self.at());
            }
            match self.advance() {
                Err(e) => {
                    return Err(e);
                },
                Ok(_) => {},
            }
        }
        Ok(option)
    }

    /// Collect the consecutive free-text tokens after `args`.
    #[verifier::loop_isolation(false)]
    fn collect_args(&mut self) -> (r: Result<Vec<String>, ParseError>)
        requires
            old(self).wf(),
        ensures
            final(self).wf(),
            final(self).text() == old(self).text(),
            final(self).pending == old(self).pending,
            match parse_args_list(old(self).text(), old(self).at(), old(self).cur(), Seq::empty()) {
                PArgs::Done { items, pos, cur } => {
                    &&& r matches Ok(v) && v.deep_view() == items
                    &&& final(self).at() == pos
                    &&& final(self).cur() == cur
                },
                PArgs::Fail { kind, line } => r matches Err(e) && e.kind == kind && e.line as int
                    == line,
            },
    {
        let ghost s = self.text();
        let mut args_list: Vec<String> = Vec::new();
        proof {
            assert(args_list.deep_view() =~= Seq::<Seq<char>>::empty());
        }
        loop
            invariant
                self.wf(),
                self.text() == s,
                self.pending == old(self).pending,
                parse_args_list(s, self.at(), self.cur(), args_list.deep_view())
                    == parse_args_list(s, old(self).at(), old(self).cur(), Seq::empty()),
            decreases s.len() - self.at(), tok_rank(self.cur()),
        {
            proof {
                lemma_step_progress(s, self.at());
            }
            let ghost dv = args_list.deep_view();
            match &self.current_token {
                Token::Text(a) => {
                    let cl = a.clone();
                    args_list.push(cl);
                    proof {
                        assert(args_list.deep_view() =~= dv.push(a@));
                    }
                },
                _ => {
                    break;
                },
            }
            match self.advance() {
                Err(e) => {
                    return Err(e);
                },
                Ok(_) => {},
            }
        }
        Ok(args_list)
    }

    /// Parse one rule, the lookahead standing on its first token.
    #[verifier::rlimit(100)]
    fn parse_rule(&mut self) -> (r: Result<Rule, ParseError>)
        requires
            old(self).wf(),
        ensures
            final(self).wf(),
            final(self).text() == old(self).text(),
            final(self).pending == old(self).pending,
            match spec_parse_rule(old(self).text(), old(self).at(), old(self).cur()) {
                PRule::Done { rule, pos, cur } => {
                    &&& r matches Ok(x) && x@ == rule
                    &&& final(self).at() == pos
                    &&& final(self).cur() == cur
                },
                PRule::Fail { kind, line } => r matches Err(e) && e.kind == kind && e.line as int
                    == line,
            },
    {
        let ghost s = self.text();

        let action: Action;
        match &self.current_token {
            Token::Permit => {
                action = Action::Permit;
            },
            Token::Deny => {
                action = Action::Deny;
            },
            _ => {
                return Err(
                    ParseError { kind: ParseErrorKind::ExpectedAction, line: self.lexer.line },
                );
            },
        }
        match self.advance() {
            Err(e) => {
                return Err(e);
            },
            Ok(_) => {},
        }

        let option: RuleOptions;
        match self.scan_options() {
            Ok(o) => {
                option = o;
            },
            Err(e) => {
                return Err(e);
            },
        }

        let identity: String;
        match &self.current_token {
            Token::Text(t) => {
                identity = t.clone();
            },
            _ => {
                return Err(
                    ParseError { kind: ParseErrorKind::ExpectedIdentity, line: self.lexer.line },
                );
            },
        }
        match self.advance() {
            Err(e) => {
                return Err(e);
            },
            Ok(_) => {},
        }

        let mut target = String::from_str("root");
        let is_as = matches!(self.current_token, Token::As);
        if is_as {
            match self.advance() {
                Err(e) => {
                    return Err(e);
                },
                Ok(_) => {},
            }
            match &self.current_token {
                Token::Text(t) => {
                    if !t.as_str().is_empty() {
                        target = t.clone();
                    }
                },
                _ => {
                    return Err(
                        ParseError { kind: ParseErrorKind::ExpectedTarget, line: self.lexer.line },
                    );
                },
            }
            match self.advance() {
                Err(e) => {
                    return Err(e);
                },
                Ok(_) => {},
            }
        }

        let mut cmd: Option<String> = None;
        let is_cmd = matches!(self.current_token, Token::Cmd);
        if is_cmd {
            match self.advance() {
                Err(e) => {
                    return Err(e);
                },
                Ok(_) => {},
            }
            match &self.current_token {
                Token::Text(c) => {
                    cmd = Some(c.clone());
                },
                _ => {
                    return Err(
                        ParseError { kind: ParseErrorKind::ExpectedCommand, line: self.lexer.line },
                    );
                },
            }
            match self.advance() {
                Err(e) => {
                    return Err(e);
                },
                Ok(_) => {},
            }
        }

        let mut args: Option<Vec<String>> = None;
        let is_args = matches!(self.current_token, Token::Args);
        if is_args {
            match self.advance() {
                Err(e) => {
                    return Err(e);
                },
                Ok(_) => {},
            }
            let args_list: Vec<String>;
            match self.collect_args() {
                Ok(v) => {
                    args_list = v;
                },
                Err(e) => {
                    return Err(e);
                },
            }
            if args_list.len() > 0 {
                args = Some(args_list);
            }
        }

        Ok(Rule { action, options: option, identity, target, cmd, args })
    }

    /// Parse the whole configuration: the ordered rule list, or the first
    /// error encountered, with no recovery.
    #[verifier::loop_isolation(false)]
    pub fn parse_rules(&mut self) -> (r: Result<Vec<Rule>, ParseError>)
        requires
            old(self).wf(),
        ensures
            final(self).wf(),
            final(self).text() == old(self).text(),
            match old(self).pending {
                Some(pe) => r matches Err(e) && e == pe,
                None => match spec_parse_rules(
                    old(self).text(),
                    old(self).at(),
                    old(self).cur(),
                    Seq::empty(),
                ) {
                    PRules::Done { rules } => r matches Ok(v) && v.deep_view() == rules,
                    PRules::Fail { kind, line } => r matches Err(e) && e.kind == kind && e.line
                        as int == line,
                },
            },
    {
        match self.pending {
            Some(e) => {
                return Err(e);
            },
            None => {},
        }
        let ghost s = self.text();
        let mut rules: Vec<Rule> = Vec::new();
        proof {
            assert(rules.deep_view() =~= Seq::<RuleV>::empty());
        }
        loop
            invariant
                self.wf(),
                self.text() == s,
                spec_parse_rules(s, self.at(), self.cur(), rules.deep_view()) == spec_parse_rules(
                    s,
                    old(self).at(),
                    old(self).cur(),
                    Seq::empty(),
                ),
            decreases s.len() - self.at(), tok_rank(self.cur()),
        {
            proof {
                lemma_parse_rule_progress(s, self.at(), self.cur());
            }
            let done = matches!(self.current_token, Token::EOF);
            if done {
                break;
            }
            let ghost dv = rules.deep_view();
            match self.parse_rule() {
                Ok(rule) => {
                    let ghost rv = rule@;
                    rules.push(rule);
                    proof {
                        assert(rules.deep_view() =~= dv.push(rv));
                    }
                },
                Err(e) => {
                    return Err(e);
                },
            }
        }
        Ok(rules)
    }
}

} // verus!
