use r5r_launcher::matchmaking_fix::{
    apply_fix_content, inspect_script, is_affected_version, restore_fix_content, MatchmakingFixState,
};

const ORIGINAL: &str = "ClientCommand( \"LeaveMatch\" )";
const FIXED: &str = "ClientCommand( \"disconnect\" )";

#[test]
fn only_the_affected_live_version_is_applicable() {
    assert!(is_affected_version(Some("2.6.51-live"), "LIVE"));
    assert!(is_affected_version(Some("2.6.51-LIVE"), "live_game"));
    assert!(!is_affected_version(Some("2.6.50-live"), "LIVE"));
    assert!(!is_affected_version(Some("2.6.51-ptu"), "PTU"));
}

#[test]
fn apply_and_restore_are_reversible() {
    let original = format!("before\r\n{}\r\nafter", ORIGINAL);
    assert_eq!(inspect_script(Some(&original), false, None, None).state, MatchmakingFixState::Unfixed);
    let fixed = apply_fix_content(&original).unwrap();
    assert!(fixed.contains(FIXED));
    assert_eq!(inspect_script(Some(&fixed), true, None, None).state, MatchmakingFixState::Fixed);
    let restored = restore_fix_content(&fixed).unwrap();
    assert!(restored.contains(ORIGINAL));
    assert_eq!(restored, original);
}

#[test]
fn apply_refuses_a_script_without_exactly_one_call() {
    assert!(apply_fix_content("nothing here").is_err());
    let twice = format!("{}\n{}", ORIGINAL, ORIGINAL);
    assert!(apply_fix_content(&twice).is_err());
    assert_eq!(inspect_script(None, false, None, None).state, MatchmakingFixState::FileMissing);
    assert_eq!(inspect_script(Some(&twice), false, None, None).state, MatchmakingFixState::UnexpectedContent);
}
