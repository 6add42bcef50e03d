//! What applying a role or rule proposal does, by its type and status: an
//! applied proposal is only summarised again; any other is carried out by
//! the change its type names, and an unknown type is refused.
use vstd::prelude::*;

use crate::text::{append_chars, str_eq, string_from_chars};

verus! {

pub const PROPOSAL_RENAME_ROLE: &'static str = "rename_role";
pub const PROPOSAL_DEPRECATE_ROLE: &'static str = "deprecate_role";
pub const PROPOSAL_REMOVE_ROLE: &'static str = "remove_role";
pub const PROPOSAL_MERGE_ROLES: &'static str = "merge_roles";
pub const PROPOSAL_SPLIT_ROLE: &'static str = "split_role";
pub const PROPOSAL_CREATE_ROLE_ALIAS: &'static str = "create_role_alias";
pub const PROPOSAL_DRAFT_RULE: &'static str = "draft_rule";
pub const PROPOSAL_EDIT_RULE: &'static str = "edit_rule";
pub const PROPOSAL_ACTIVATE_RULE: &'static str = "activate_rule";
pub const PROPOSAL_DISABLE_RULE: &'static str = "disable_rule";

/// The change a proposal carries out.
#[derive(Debug, Clone, Copy, PartialEq, Eq, Structural)]
pub enum ProposalChange {
    RenameRole,
    /// A role's lifecycle changes; its assignments take the status.
    RoleLifecycle { deprecate: bool },
    MergeRoles,
    SplitRole,
    CreateAlias,
    DraftRule,
    EditRule,
    /// A rule becomes active, or disabled.
    RuleLifecycle { activate: bool },
}

/// What applying a proposal comes to.
#[derive(Debug, Clone, Copy, PartialEq, Eq, Structural)]
pub enum ProposalApplication {
    /// It was applied before: summarise it again.
    AlreadyApplied,
    /// Carry out the change, mark the proposal applied, and summarise it.
    Apply(ProposalChange),
}

/// The change a proposal type names, if any.
pub open spec fn change_of(proposal_type: Seq<char>) -> Option<ProposalChange> {
    if proposal_type == PROPOSAL_RENAME_ROLE@ {
        Some(ProposalChange::RenameRole)
    } else if proposal_type == PROPOSAL_DEPRECATE_ROLE@ {
        Some(ProposalChange::RoleLifecycle { deprecate: true })
    } else if proposal_type == PROPOSAL_REMOVE_ROLE@ {
        Some(ProposalChange::RoleLifecycle { deprecate: false })
    } else if proposal_type == PROPOSAL_MERGE_ROLES@ {
        Some(ProposalChange::MergeRoles)
    } else if proposal_type == PROPOSAL_SPLIT_ROLE@ {
        Some(ProposalChange::SplitRole)
    } else if proposal_type == PROPOSAL_CREATE_ROLE_ALIAS@ {
        Some(ProposalChange::CreateAlias)
    } else if proposal_type == PROPOSAL_DRAFT_RULE@ {
        Some(ProposalChange::DraftRule)
    } else if proposal_type == PROPOSAL_EDIT_RULE@ {
        Some(ProposalChange::EditRule)
    } else if proposal_type == PROPOSAL_ACTIVATE_RULE@ {
        Some(ProposalChange::RuleLifecycle { activate: true })
    } else if proposal_type == PROPOSAL_DISABLE_RULE@ {
        Some(ProposalChange::RuleLifecycle { activate: false })
    } else {
        None
    }
}

/// The lifecycle a role change gives the role, and the status its
/// assignments take.
pub open spec fn role_lifecycle_texts(deprecate: bool) -> (Seq<char>, Seq<char>) {
    if deprecate {
        ("deprecated"@, "needs_review"@)
    } else {
        ("removed"@, "stale"@)
    }
}

pub open spec fn unsupported_proposal_message(proposal_type: Seq<char>) -> Seq<char> {
    "unsupported proposal type `"@ + proposal_type + "`"@
}

/// What applying a proposal with this status and type comes to; the
/// refusal message when its type is unknown.
pub open spec fn application_of(status: Seq<char>, proposal_type: Seq<char>) -> Result<ProposalApplication, Seq<char>> {
    if status == "applied"@ {
        Ok(ProposalApplication::AlreadyApplied)
    } else {
        match change_of(proposal_type) {
            Some(c) => Ok(ProposalApplication::Apply(c)),
            None => Err(unsupported_proposal_message(proposal_type)),
        }
    }
}

fn proposal_change(proposal_type: &str) -> (r: Option<ProposalChange>)
    ensures
        r == change_of(proposal_type@),
{
    if str_eq(proposal_type, PROPOSAL_RENAME_ROLE) {
        Some(ProposalChange::RenameRole)
    } else if str_eq(proposal_type, PROPOSAL_DEPRECATE_ROLE) {
        Some(ProposalChange::RoleLifecycle { deprecate: true })
    } else if str_eq(proposal_type, PROPOSAL_REMOVE_ROLE) {
        Some(ProposalChange::RoleLifecycle { deprecate: false })
    } else if str_eq(proposal_type, PROPOSAL_MERGE_ROLES) {
        Some(ProposalChange::MergeRoles)
    } else if str_eq(proposal_type, PROPOSAL_SPLIT_ROLE) {
        Some(ProposalChange::SplitRole)
    } else if str_eq(proposal_type, PROPOSAL_CREATE_ROLE_ALIAS) {
        Some(ProposalChange::CreateAlias)
    } else if str_eq(proposal_type, PROPOSAL_DRAFT_RULE) {
        Some(ProposalChange::DraftRule)
    } else if str_eq(proposal_type, PROPOSAL_EDIT_RULE) {
        Some(ProposalChange::EditRule)
    } else if str_eq(proposal_type, PROPOSAL_ACTIVATE_RULE) {
        Some(ProposalChange::RuleLifecycle { activate: true })
    } else if str_eq(proposal_type, PROPOSAL_DISABLE_RULE) {
        Some(ProposalChange::RuleLifecycle { activate: false })
    } else {
        None
    }
}

/// What applying a proposal with this status and type comes to.
pub fn proposal_application(status: &str, proposal_type: &str) -> (r: Result<ProposalApplication, String>)
    ensures
        match r {
            Ok(a) => application_of(status@, proposal_type@) == Ok::<ProposalApplication, Seq<char>>(a),
            Err(m) => application_of(status@, proposal_type@) == Err::<ProposalApplication, Seq<char>>(m@),
        },
{
    if str_eq(status, "applied") {
        return Ok(ProposalApplication::AlreadyApplied);
    }
    match proposal_change(proposal_type) {
        Some(c) => Ok(ProposalApplication::Apply(c)),
        None => {
            let mut m: Vec<char> = Vec::new();
            append_chars(&mut m, "unsupported proposal type `");
            append_chars(&mut m, proposal_type);
            append_chars(&mut m, "`");
            Err(string_from_chars(m.as_slice()))
        },
    }
}

/// The role lifecycle and assignment status a role lifecycle change sets.
pub fn role_lifecycle_change(deprecate: bool) -> (r: (&'static str, &'static str))
    ensures
        (r.0@, r.1@) == role_lifecycle_texts(deprecate),
{
    if deprecate {
        ("deprecated", "needs_review")
    } else {
        ("removed", "stale")
    }
}

/// The lifecycle a rule lifecycle change sets.
pub fn rule_lifecycle_change(activate: bool) -> (r: &'static str)
    ensures
        r@ == (if activate { "active"@ } else { "disabled"@ }),
{
    if activate {
        "active"
    } else {
        "disabled"
    }
}

} // verus!
