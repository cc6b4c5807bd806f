//! The rule model: one authorization statement and its modifiers.
//!
//! Rules are immutable once built; the parser is their only producer. Each
//! executable type has a mathematical image (`RuleV`, `RuleOptionsV`) over
//! character sequences, which the parser's and matcher's contracts speak of.

use vstd::prelude::*;

verus! {

/// The terminal disposition of a matching rule.
#[derive(Debug, Clone, Copy, PartialEq, Eq, Structural)]
pub enum Action {
    Permit,
    Deny,
}

/// Modifier flags attached to a rule. They are pure metadata handed back to
/// the caller beside the decision; the decision engine never reads them.
#[derive(Debug, Clone)]
pub struct RuleOptions {
    /// Skip re-authentication.
    pub nopass: bool,
    /// Allow a cached-session grace period.
    pub persist: bool,
    /// Preserve the caller's environment.
    pub keepenv: bool,
    /// Suppress audit logging.
    pub nolog: bool,
    /// Environment variables to forward. The parser recognizes the braced
    /// `setenv { ... }` body but does not yet transcribe it, so this stays
    /// absent.
    pub setenv: Option<Vec<String>>,
}

/// The mathematical image of `RuleOptions`.
pub struct RuleOptionsV {
    pub nopass: bool,
    pub persist: bool,
    pub keepenv: bool,
    pub nolog: bool,
    pub setenv: Option<Seq<Seq<char>>>,
}

/// The options value every rule starts from: all flags clear, nothing
/// forwarded.
pub open spec fn default_options() -> RuleOptionsV {
    RuleOptionsV { nopass: false, persist: false, keepenv: false, nolog: false, setenv: None }
}

impl View for RuleOptions {
    type V = RuleOptionsV;

    open spec fn view(&self) -> RuleOptionsV {
        RuleOptionsV {
            nopass: self.nopass,
            persist: self.persist,
            keepenv: self.keepenv,
            nolog: self.nolog,
            setenv: self.setenv.deep_view(),
        }
    }
}

impl Default for RuleOptions {
    /// All flags clear, nothing forwarded.
    fn default() -> (r: Self)
        ensures
            r@ == default_options(),
    {
        let r = RuleOptions {
            nopass: false,
            persist: false,
            keepenv: false,
            nolog: false,
            setenv: None,
        };
        proof {
            assert(r@.setenv =~= default_options().setenv);
        }
        r
    }
}

/// One authorization statement: who may act, as whom, on which command.
#[derive(Debug, Clone)]
pub struct Rule {
    pub action: Action,
    pub options: RuleOptions,
    /// A bare username, or a group reference written `:group`.
    pub identity: String,
    /// The identity the invoker may assume; `root` when the source had no
    /// `as` clause, and also when the clause named an empty string. Never
    /// empty.
    pub target: String,
    /// Exact command path constraint; absent means any command.
    pub cmd: Option<String>,
    /// Exact argument-vector constraint; absent means any arguments. Present
    /// only when at least one argument token was given.
    pub args: Option<Vec<String>>,
}

/// The mathematical image of a `Rule`.
pub struct RuleV {
    pub action: Action,
    pub options: RuleOptionsV,
    pub identity: Seq<char>,
    pub target: Seq<char>,
    pub cmd: Option<Seq<char>>,
    pub args: Option<Seq<Seq<char>>>,
}

impl View for Rule {
    type V = RuleV;

    open spec fn view(&self) -> RuleV {
        RuleV {
            action: self.action,
            options: self.options@,
            identity: self.identity@,
            target: self.target@,
            cmd: self.cmd.deep_view(),
            args: self.args.deep_view(),
        }
    }
}

impl DeepView for Rule {
    type V = RuleV;

    open spec fn deep_view(&self) -> RuleV {
        self.view()
    }
}

} // verus!
