//! The decision engine: given the parsed rule list and a fully resolved
//! request, select the governing rule.
//!
//! The engine scans the rules in source order and the **last** rule whose
//! four predicates all hold governs; later rules override earlier ones. If
//! no rule matches there is no decision, which the caller must treat as
//! Deny. The engine is a pure function of its inputs: it performs no I/O
//! and no lookups of its own. In particular, group references are resolved
//! against a caller-supplied table of resolved groups (`GroupEntry`); a
//! group name with no entry there matches nothing — never an error, so an
//! unresolvable group fails closed.

use vstd::prelude::*;

use crate::ast::{Rule, RuleV};
use crate::user::{Gid, User};

verus! {

/// One resolved group: a name and the id the system knows it by. The
/// caller resolves the group names its rules mention and hands the table
/// in; the engine never asks the system itself.
#[derive(Debug, Clone)]
pub struct GroupEntry {
    pub name: String,
    pub gid: Gid,
}

/// The mathematical image of a `GroupEntry`.
pub struct GroupEntryV {
    pub name: Seq<char>,
    pub gid: Gid,
}

impl View for GroupEntry {
    type V = GroupEntryV;

    open spec fn view(&self) -> GroupEntryV {
        GroupEntryV { name: self.name@, gid: self.gid }
    }
}

impl DeepView for GroupEntry {
    type V = GroupEntryV;

    open spec fn deep_view(&self) -> GroupEntryV {
        self.view()
    }
}

/// The id of the first entry carrying `name`, if any.
pub open spec fn resolve_group(db: Seq<GroupEntryV>, name: Seq<char>) -> Option<Gid>
    decreases db.len(),
{
    if db.len() == 0 {
        None
    } else if db[0].name == name {
        Some(db[0].gid)
    } else {
        resolve_group(db.drop_first(), name)
    }
}

/// The four predicates of a match: the rule applies to the request iff
/// the targets agree exactly, a constrained command agrees exactly, a
/// constrained argument vector agrees element for element, and the
/// identity covers the invoker — by name, or through a resolved group the
/// invoker is a member of.
pub open spec fn rule_matches(
    rule: RuleV,
    db: Seq<GroupEntryV>,
    user_name: Seq<char>,
    user_groups: Seq<Gid>,
    target: Seq<char>,
    cmd: Seq<char>,
    args: Seq<Seq<char>>,
) -> bool {
    &&& rule.target == target
    &&& (rule.cmd matches Some(rc) ==> rc == cmd)
    &&& ((rule.cmd is Some && rule.args is Some) ==> rule.args->Some_0 == args)
    &&& (if rule.identity.len() > 0 && rule.identity[0] == ':' {
        match resolve_group(db, rule.identity.subrange(1, rule.identity.len() as int)) {
            Some(g) => user_groups.contains(g),
            None => false,
        }
    } else {
        rule.identity == user_name
    })
}

/// The index of the last matching rule, if any.
pub open spec fn last_match(
    rules: Seq<RuleV>,
    db: Seq<GroupEntryV>,
    user_name: Seq<char>,
    user_groups: Seq<Gid>,
    target: Seq<char>,
    cmd: Seq<char>,
    args: Seq<Seq<char>>,
) -> Option<int>
    decreases rules.len(),
{
    if rules.len() == 0 {
        None
    } else if rule_matches(rules.last(), db, user_name, user_groups, target, cmd, args) {
        Some(rules.len() - 1)
    } else {
        last_match(rules.drop_last(), db, user_name, user_groups, target, cmd, args)
    }
}

/// Where no rule matches the request, there is no decision: the caller
/// must deny.
pub proof fn lemma_default_deny(
    rules: Seq<RuleV>,
    db: Seq<GroupEntryV>,
    user_name: Seq<char>,
    user_groups: Seq<Gid>,
    target: Seq<char>,
    cmd: Seq<char>,
    args: Seq<Seq<char>>,
)
    requires
        forall|i: int|
            0 <= i < rules.len() ==> !rule_matches(
                #[trigger] rules[i],
                db,
                user_name,
                user_groups,
                target,
                cmd,
                args,
            ),
    ensures
        last_match(rules, db, user_name, user_groups, target, cmd, args) is None,
    decreases rules.len(),
{
    if rules.len() > 0 {
        lemma_default_deny(rules.drop_last(), db, user_name, user_groups, target, cmd, args);
    }
}

/// The last match wins: the selected rule matches, every rule after it
/// does not, and where nothing is selected nothing matches.
pub proof fn lemma_last_match_wins(
    rules: Seq<RuleV>,
    db: Seq<GroupEntryV>,
    user_name: Seq<char>,
    user_groups: Seq<Gid>,
    target: Seq<char>,
    cmd: Seq<char>,
    args: Seq<Seq<char>>,
)
    ensures
        match last_match(rules, db, user_name, user_groups, target, cmd, args) {
            Some(i) => 0 <= i < rules.len() && rule_matches(
                rules[i],
                db,
                user_name,
                user_groups,
                target,
                cmd,
                args,
            ) && forall|j: int|
                i < j < rules.len() ==> !rule_matches(
                    #[trigger] rules[j],
                    db,
                    user_name,
                    user_groups,
                    target,
                    cmd,
                    args,
                ),
            None => forall|i: int|
                0 <= i < rules.len() ==> !rule_matches(
                    #[trigger] rules[i],
                    db,
                    user_name,
                    user_groups,
                    target,
                    cmd,
                    args,
                ),
        },
    decreases rules.len(),
{
    if rules.len() > 0 {
        if !rule_matches(rules.last(), db, user_name, user_groups, target, cmd, args) {
            lemma_last_match_wins(
                rules.drop_last(),
                db,
                user_name,
                user_groups,
                target,
                cmd,
                args,
            );
            assert(forall|j: int|
                0 <= j < rules.len() - 1 ==> rules.drop_last()[j] == #[trigger] rules[j]);
        }
    }
}

/// A rule never reaches across targets: where the targets differ, it does
/// not match, whatever the identity and command.
pub proof fn lemma_target_scoping(
    rule: RuleV,
    db: Seq<GroupEntryV>,
    user_name: Seq<char>,
    user_groups: Seq<Gid>,
    target: Seq<char>,
    cmd: Seq<char>,
    args: Seq<Seq<char>>,
)
    requires
        rule.target != target,
    ensures
        !rule_matches(rule, db, user_name, user_groups, target, cmd, args),
{
}

/// A rule constrained to one command matches no other, even with identical
/// identity and target.
pub proof fn lemma_command_specificity(
    rule: RuleV,
    db: Seq<GroupEntryV>,
    user_name: Seq<char>,
    user_groups: Seq<Gid>,
    target: Seq<char>,
    cmd: Seq<char>,
    args: Seq<Seq<char>>,
)
    requires
        rule.cmd matches Some(rc) && rc != cmd,
    ensures
        !rule_matches(rule, db, user_name, user_groups, target, cmd, args),
{
}

/// A rule constrained to one argument vector matches no other: the
/// comparison is element for element, count included — no prefix or subset
/// matching.
pub proof fn lemma_argument_exactness(
    rule: RuleV,
    db: Seq<GroupEntryV>,
    user_name: Seq<char>,
    user_groups: Seq<Gid>,
    target: Seq<char>,
    cmd: Seq<char>,
    args: Seq<Seq<char>>,
)
    requires
        rule.cmd is Some,
        rule.args matches Some(ra) && ra != args,
    ensures
        !rule_matches(rule, db, user_name, user_groups, target, cmd, args),
{
}

/// A group identity whose name resolves to nothing matches no invoker at
/// all — a non-match, never an error: unresolvable groups fail closed.
pub proof fn lemma_group_fail_closed(
    rule: RuleV,
    db: Seq<GroupEntryV>,
    user_name: Seq<char>,
    user_groups: Seq<Gid>,
    target: Seq<char>,
    cmd: Seq<char>,
    args: Seq<Seq<char>>,
)
    requires
        rule.identity.len() > 0,
        rule.identity[0] == ':',
        resolve_group(db, rule.identity.subrange(1, rule.identity.len() as int)) is None,
    ensures
        !rule_matches(rule, db, user_name, user_groups, target, cmd, args),
{
}

/// Whether two strings hold the same characters.
fn str_eq(a: &str, b: &str) -> (r: bool)
    ensures
        r == (a@ == b@),
{
    let n: usize = a.unicode_len();
    if n != b.unicode_len() {
        return false;
    }
    let mut i: usize = 0;
    while i < n
        invariant
            i <= n,
            n == a@.len(),
            n == b@.len(),
            forall|j: int| 0 <= j < i ==> a@[j] == b@[j],
        decreases n - i,
    {
        if a.get_char(i) != b.get_char(i) {
            return false;
        }
        i = i + 1;
    }
    proof {
        assert(a@ =~= b@);
    }
    true
}

/// Whether two argument vectors agree element for element, count included.
fn str_vec_eq(a: &Vec<String>, b: &Vec<String>) -> (r: bool)
    ensures
        r == (a.deep_view() == b.deep_view()),
{
    let n: usize = a.len();
    if n != b.len() {
        proof {
            assert(a.deep_view().len() != b.deep_view().len());
        }
        return false;
    }
    let mut i: usize = 0;
    while i < n
        invariant
            i <= n,
            n == a@.len(),
            n == b@.len(),
            forall|j: int| 0 <= j < i ==> a.deep_view()[j] == b.deep_view()[j],
        decreases n - i,
    {
        if !str_eq(a[i].as_str(), b[i].as_str()) {
            proof {
                assert(a.deep_view()[i as int] != b.deep_view()[i as int]);
            }
            return false;
        }
        i = i + 1;
    }
    proof {
        assert(a.deep_view() =~= b.deep_view());
    }
    true
}

/// Whether `g` is among the invoker's groups.
fn contains_gid(groups: &Vec<Gid>, g: Gid) -> (r: bool)
    ensures
        r == groups@.contains(g),
{
    let mut i: usize = 0;
    while i < groups.len()
        invariant
            i <= groups@.len(),
            forall|j: int| 0 <= j < i ==> groups@[j] != g,
        decreases groups@.len() - i,
    {
        if groups[i] == g {
            return true;
        }
        i = i + 1;
    }
    false
}

/// Look `name` up in the resolved-group table: the first entry wins.
#[verifier::loop_isolation(false)]
fn lookup_group(group_db: &Vec<GroupEntry>, name: &str) -> (r: Option<Gid>)
    ensures
        r == resolve_group(group_db.deep_view(), name@),
{
    let ghost db = group_db.deep_view();
    proof {
        assert(db.skip(0) =~= db);
    }
    let mut i: usize = 0;
    while i < group_db.len()
        invariant
            i <= group_db@.len(),
            db == group_db.deep_view(),
            db.len() == group_db@.len(),
            resolve_group(db.skip(i as int), name@) == resolve_group(db, name@),
        decreases group_db@.len() - i,
    {
        if str_eq(group_db[i].name.as_str(), name) {
            proof {
                assert(db.skip(i as int)[0] == db[i as int]);
            }
            return Some(group_db[i].gid);
        }
        proof {
            assert(db.skip(i as int).drop_first() =~= db.skip(i as int + 1));
        }
        i = i + 1;
    }
    proof {
        assert(db.skip(db.len() as int).len() == 0);
    }
    None
}

/// Whether one rule applies to the request: the four predicates of
/// `rule_matches`, decided executably.
pub fn match_rule(
    rule: &Rule,
    user: &User,
    user_groups: &Vec<Gid>,
    group_db: &Vec<GroupEntry>,
    target_user: &str,
    cmd: &str,
    cmd_args: &Vec<String>,
) -> (r: bool)
    ensures
        r == rule_matches(
            rule@,
            group_db.deep_view(),
            user.name@,
            user_groups@,
            target_user@,
            cmd@,
            cmd_args.deep_view(),
        ),
{
    if !str_eq(rule.target.as_str(), target_user) {
        return false;
    }

    match &rule.cmd {
        Some(rc) => {
            if !str_eq(rc.as_str(), cmd) {
                return false;
            }
            match &rule.args {
                Some(ra) => {
                    if !str_vec_eq(ra, cmd_args) {
                        return false;
                    }
                },
                None => {},
            }
        },
        None => {},
    }

    let n: usize = rule.identity.as_str().unicode_len();
    if n > 0 && rule.identity.as_str().get_char(0) == ':' {
        let group_name = rule.identity.as_str().substring_char(1, n);
        match lookup_group(group_db, group_name) {
            Some(g) => contains_gid(user_groups, g),
            None => false,
        }
    } else {
        str_eq(rule.identity.as_str(), user.name.as_str())
    }
}

/// The decision: the last rule in source order that matches the request,
/// or nothing — which the caller must treat as Deny.
#[verifier::loop_isolation(false)]
pub fn permit<'a>(
    rules: &'a Vec<Rule>,
    user: &User,
    user_groups: &Vec<Gid>,
    group_db: &Vec<GroupEntry>,
    target_user: &str,
    cmd: &str,
    cmd_args: &Vec<String>,
) -> (r: Option<&'a Rule>)
    ensures
        match last_match(
            rules.deep_view(),
            group_db.deep_view(),
            user.name@,
            user_groups@,
            target_user@,
            cmd@,
            cmd_args.deep_view(),
        ) {
            Some(i) => r matches Some(rule) && rule@ == rules.deep_view()[i],
            None => r is None,
        },
{
    let ghost rv = rules.deep_view();
    let ghost db = group_db.deep_view();
    let mut i: usize = rules.len();
    proof {
        assert(rv.take(rules@.len() as int) =~= rv);
    }
    loop
        invariant
            i <= rules@.len(),
            rv == rules.deep_view(),
            rv.len() == rules@.len(),
            last_match(
                rv.take(i as int),
                db,
                user.name@,
                user_groups@,
                target_user@,
                cmd@,
                cmd_args.deep_view(),
            ) == last_match(
                rv,
                db,
                user.name@,
                user_groups@,
                target_user@,
                cmd@,
                cmd_args.deep_view(),
            ),
        decreases i,
    {
        if i == 0 {
            proof {
                assert(rv.take(0).len() == 0);
            }
            return None;
        }
        i = i - 1;
        proof {
            assert(rv.take(i as int + 1).last() == rv[i as int]);
            assert(rv.take(i as int + 1).drop_last() =~= rv.take(i as int));
        }
        if match_rule(&rules[i], user, user_groups, group_db, target_user, cmd, cmd_args) {
            return Some(&rules[i]);
        }
    }
}

} // verus!
