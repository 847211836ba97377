use random_ramble::dict;

#[test]
fn empty_selection_keeps_all() {
    assert!(dict::is_selected(&vec![], "en"));
}

#[test]
fn named_lists_are_kept() {
    let sel = vec!["en", "pt"];
    assert!(dict::is_selected(&sel, "en"));
    assert!(!dict::is_selected(&sel, "fr"));
}

#[test]
fn exclusions_leave_lists_out() {
    let sel = vec!["!en", "pt"];
    assert!(!dict::is_selected(&sel, "en"));
    assert!(dict::is_selected(&sel, "fr"));
    assert!(dict::is_selected(&sel, "pt"));
}

#[test]
fn optional_selection() {
    assert!(dict::is_chosen(&None, "en"));
    assert!(!dict::is_chosen(&Some(vec![]), "en"));
    assert!(dict::is_chosen(&Some(vec!["en".to_string()]), "en"));
    assert!(!dict::is_chosen(&Some(vec!["!en".to_string()]), "en"));
    assert!(dict::is_chosen(&Some(vec!["!en".to_string()]), "pt"));
    assert_eq!(dict::exclusion_for("en"), "!en");
}
