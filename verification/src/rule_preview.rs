//! Pieces of a rule preview: how targets are keyed, which paths make a
//! rule unsafe to apply unbounded, and lifecycle names of managed rules.
use vstd::prelude::*;

use crate::model::{RoleTarget, TargetKind, TargetV};
use crate::text::{concat, split, split_pieces, str_eq, views};

verus! {

/// The key a previewed target is counted under: `file:<path>`,
/// `artefact:<id>` or `symbol:<id>`, a missing identifier replaced by the
/// path.
pub open spec fn preview_key_of(t: TargetV) -> Seq<char> {
    match t.kind {
        TargetKind::File => "file:"@ + t.path,
        TargetKind::Artefact => "artefact:"@ + match t.artefact_id {
            Some(a) => a,
            None => t.path,
        },
        TargetKind::Symbol => "symbol:"@ + match t.symbol_id {
            Some(s) => s,
            None => t.path,
        },
    }
}

pub fn preview_target_key(target: &RoleTarget) -> (r: String)
    ensures
        r@ == preview_key_of(target@),
{
    match target.target_kind {
        TargetKind::File => concat("file:", target.path.as_str()),
        TargetKind::Artefact => match &target.artefact_id {
            Some(a) => concat("artefact:", a.as_str()),
            None => concat("artefact:", target.path.as_str()),
        },
        TargetKind::Symbol => match &target.symbol_id {
            Some(s) => concat("symbol:", s.as_str()),
            None => concat("symbol:", target.path.as_str()),
        },
    }
}

pub open spec fn unbounded_segments() -> Seq<Seq<char>> {
    seq!["test"@, "tests"@, "__tests__"@, "generated"@, "vendor"@, "vendors"@]
}

/// Whether a segment of the path (split at `/`) names tests, generated
/// code or vendored code.
pub open spec fn has_unbounded_segment(path: Seq<char>) -> bool {
    exists|i: int| 0 <= i < split(path, '/').len() && unbounded_segments().contains(#[trigger] split(path, '/')[i])
}

pub fn path_has_test_generated_or_vendor_segment(path: &str) -> (r: bool)
    ensures
        r == has_unbounded_segment(path@),
{
    let chars = crate::text::chars_of(path);
    let pieces = split_pieces(chars.as_slice(), '/');
    let names = vec!["test", "tests", "__tests__", "generated", "vendor", "vendors"];
    assert(crate::unknown_policy::str_views(names@) =~= unbounded_segments());
    let mut i: usize = 0;
    while i < pieces.len()
        invariant
            i <= pieces@.len(),
            views(pieces@) == split(path@, '/'),
            crate::unknown_policy::str_views(names@) == unbounded_segments(),
            forall|j: int| 0 <= j < i ==> !unbounded_segments().contains(#[trigger] split(path@, '/')[j]),
        decreases pieces@.len() - i,
    {
        assert(views(pieces@)[i as int] == pieces@[i as int]@);
        if crate::unknown_policy::member(pieces[i].as_slice(), &names) {
            assert(unbounded_segments().contains(split(path@, '/')[i as int]));
            return true;
        }
        i = i + 1;
    }
    false
}

/// Where a managed rule is in its life.
#[derive(Debug, Clone, Copy, PartialEq, Eq, Structural)]
pub enum RoleRuleLifecycle {
    Draft,
    Active,
    Disabled,
    Deprecated,
}

/// The lifecycle a management status names; anything else is refused with
/// ``unsupported rule lifecycle status `<value>` ``.
pub open spec fn lifecycle_named(value: Seq<char>) -> Option<RoleRuleLifecycle> {
    if value == "draft"@ {
        Some(RoleRuleLifecycle::Draft)
    } else if value == "active"@ {
        Some(RoleRuleLifecycle::Active)
    } else if value == "disabled"@ {
        Some(RoleRuleLifecycle::Disabled)
    } else if value == "deprecated"@ {
        Some(RoleRuleLifecycle::Deprecated)
    } else {
        None
    }
}

pub fn role_rule_lifecycle_from_management(value: &str) -> (r: Result<RoleRuleLifecycle, String>)
    ensures
        match r {
            Ok(l) => lifecycle_named(value@) == Some(l),
            Err(e) => lifecycle_named(value@) is None && e@ == "unsupported rule lifecycle status `"@ + value@ + "`"@,
        },
{
    if str_eq(value, "draft") {
        Ok(RoleRuleLifecycle::Draft)
    } else if str_eq(value, "active") {
        Ok(RoleRuleLifecycle::Active)
    } else if str_eq(value, "disabled") {
        Ok(RoleRuleLifecycle::Disabled)
    } else if str_eq(value, "deprecated") {
        Ok(RoleRuleLifecycle::Deprecated)
    } else {
        Err(crate::text::concat3("unsupported rule lifecycle status `", value, "`"))
    }
}

} // verus!
