use carrot::cli_agents::diff_stats::{parse_shortstat, DiffStats};
#[test]
fn shortstat_parses_full_three_field_line() {
    let out = " 2 files changed, 10 insertions(+), 3 deletions(-)\n";
    let stats = parse_shortstat(out).unwrap();
    assert_eq!(stats.files_changed, 2);
    assert_eq!(stats.insertions, 10);
    assert_eq!(stats.deletions, 3);
}

#[test]
fn shortstat_parses_singular_file() {
    let out = " 1 file changed, 5 insertions(+)\n";
    let stats = parse_shortstat(out).unwrap();
    assert_eq!(stats.files_changed, 1);
    assert_eq!(stats.insertions, 5);
    assert_eq!(stats.deletions, 0);
}

#[test]
fn shortstat_parses_deletions_only() {
    let out = " 1 file changed, 2 deletions(-)\n";
    let stats = parse_shortstat(out).unwrap();
    assert_eq!(stats.files_changed, 1);
    assert_eq!(stats.insertions, 0);
    assert_eq!(stats.deletions, 2);
}

#[test]
fn shortstat_empty_input_means_clean_tree() {
    assert_eq!(parse_shortstat(""), Some(DiffStats::default()));
    assert_eq!(parse_shortstat("\n"), Some(DiffStats::default()));
    assert_eq!(parse_shortstat("   "), Some(DiffStats::default()));
}

#[test]
fn shortstat_unknown_shape_returns_none() {
    assert_eq!(parse_shortstat("totally unexpected"), None);
    assert_eq!(parse_shortstat("nothing"), None);
}

#[test]
fn shortstat_is_zero_helper() {
    assert!(DiffStats::default().is_zero());
    assert!(
        !DiffStats {
            files_changed: 1,
            insertions: 0,
            deletions: 0
        }
        .is_zero()
    );
}

#[test]
fn shortstat_handles_leading_whitespace() {
    // Git indents the output with a leading space; we already
    // trim, but double-check extra whitespace variants.
    let out = "    3 files changed, 15 insertions(+), 7 deletions(-)";
    let stats = parse_shortstat(out).unwrap();
    assert_eq!(stats.files_changed, 3);
    assert_eq!(stats.insertions, 15);
    assert_eq!(stats.deletions, 7);
}
