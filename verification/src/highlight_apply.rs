//! Stable tier indices for highlight roles.
//!
//! The renderer keeps one highlight layer per tier; themes persist
//! per-tier overrides by index, so the mapping is fixed and every
//! role has its own tier inside `[0, TIER_COUNT)`.

use vstd::prelude::*;
use crate::highlight::HighlightRole;

verus! {

/// Number of highlight tiers.
pub const TIER_COUNT: usize = 14;

pub open spec fn spec_role_to_tier(role: HighlightRole) -> usize {
    match role {
        HighlightRole::Command => 0,
        HighlightRole::Subcommand => 1,
        HighlightRole::LongFlag => 2,
        HighlightRole::ShortFlag => 3,
        HighlightRole::FlagValue => 4,
        HighlightRole::Path => 5,
        HighlightRole::GitRef => 6,
        HighlightRole::Url => 7,
        HighlightRole::EnvVar => 8,
        HighlightRole::ProcessId => 9,
        HighlightRole::EnumLiteral => 10,
        HighlightRole::Positional => 11,
        HighlightRole::Separator => 12,
        HighlightRole::Error => 13,
    }
}

/// Tier index of a role.
pub fn role_to_tier(role: HighlightRole) -> (r: usize)
    ensures
        r == spec_role_to_tier(role),
        r < TIER_COUNT,
{
    match role {
        HighlightRole::Command => 0,
        HighlightRole::Subcommand => 1,
        HighlightRole::LongFlag => 2,
        HighlightRole::ShortFlag => 3,
        HighlightRole::FlagValue => 4,
        HighlightRole::Path => 5,
        HighlightRole::GitRef => 6,
        HighlightRole::Url => 7,
        HighlightRole::EnvVar => 8,
        HighlightRole::ProcessId => 9,
        HighlightRole::EnumLiteral => 10,
        HighlightRole::Positional => 11,
        HighlightRole::Separator => 12,
        HighlightRole::Error => 13,
    }
}

/// Every role has its own tier, and every tier in `[0, TIER_COUNT)`
/// belongs to some role.
pub proof fn lemma_role_tiers_are_a_bijection(a: HighlightRole, b: HighlightRole, t: usize)
    ensures
        spec_role_to_tier(a) < TIER_COUNT,
        spec_role_to_tier(a) == spec_role_to_tier(b) ==> a == b,
        t < TIER_COUNT ==> exists|r: HighlightRole| spec_role_to_tier(r) == t,
{
    if t < TIER_COUNT {
        if t == 0 { assert(spec_role_to_tier(HighlightRole::Command) == t); }
        else if t == 1 { assert(spec_role_to_tier(HighlightRole::Subcommand) == t); }
        else if t == 2 { assert(spec_role_to_tier(HighlightRole::LongFlag) == t); }
        else if t == 3 { assert(spec_role_to_tier(HighlightRole::ShortFlag) == t); }
        else if t == 4 { assert(spec_role_to_tier(HighlightRole::FlagValue) == t); }
        else if t == 5 { assert(spec_role_to_tier(HighlightRole::Path) == t); }
        else if t == 6 { assert(spec_role_to_tier(HighlightRole::GitRef) == t); }
        else if t == 7 { assert(spec_role_to_tier(HighlightRole::Url) == t); }
        else if t == 8 { assert(spec_role_to_tier(HighlightRole::EnvVar) == t); }
        else if t == 9 { assert(spec_role_to_tier(HighlightRole::ProcessId) == t); }
        else if t == 10 { assert(spec_role_to_tier(HighlightRole::EnumLiteral) == t); }
        else if t == 11 { assert(spec_role_to_tier(HighlightRole::Positional) == t); }
        else if t == 12 { assert(spec_role_to_tier(HighlightRole::Separator) == t); }
        else { assert(spec_role_to_tier(HighlightRole::Error) == t); }
    }
}

} // verus!
