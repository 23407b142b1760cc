use std::collections::HashSet;
use carrot::highlight::HighlightRole;
use carrot::highlight_apply::{role_to_tier, TIER_COUNT};

#[test]
fn role_to_tier_is_distinct_for_every_role() {
    let roles = [
        HighlightRole::Command,
        HighlightRole::Subcommand,
        HighlightRole::LongFlag,
        HighlightRole::ShortFlag,
        HighlightRole::FlagValue,
        HighlightRole::Path,
        HighlightRole::GitRef,
        HighlightRole::Url,
        HighlightRole::EnvVar,
        HighlightRole::ProcessId,
        HighlightRole::EnumLiteral,
        HighlightRole::Positional,
        HighlightRole::Separator,
        HighlightRole::Error,
    ];
    let mut seen = HashSet::new();
    for r in roles {
        let tier = role_to_tier(r);
        assert!(tier < TIER_COUNT, "tier out of bounds for {r:?}");
        assert!(seen.insert(tier), "duplicate tier for {r:?}");
    }
    assert_eq!(seen.len(), TIER_COUNT);
}
