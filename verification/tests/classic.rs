use random_ramble::classic;
use random_ramble::dict::DictFile;

fn file(name: &str, lines: &[&str]) -> DictFile {
    DictFile { name: name.to_string(), path: format!("dict/{}", name), lines: lines.iter().map(|l| l.to_string()).collect() }
}

fn adjs() -> Vec<DictFile> {
    vec![file("en", &["Adventurous", "Brave", "Calm"]), file("pt", &["Tímido", "Alegre"])]
}

fn themes() -> Vec<DictFile> {
    vec![file("foobar", &["bar", "foo"]), file("country", &["Portugal", "Brazil"])]
}

#[test]
fn pools_follow_selection_and_pattern() {
    assert_eq!(classic::get_adjs(&adjs(), &None, None), vec!["Adventurous", "Brave", "Calm", "Tímido", "Alegre"]);
    assert_eq!(classic::get_adjs(&adjs(), &Some(vec!["pt".to_string()]), None), vec!["Tímido", "Alegre"]);
    assert_eq!(classic::get_adjs(&adjs(), &Some(vec!["!pt".to_string()]), Some("b")), vec!["Brave"]);
    assert_eq!(
        classic::get_themes(&themes(), &None, Some("b")),
        vec![("bar".to_string(), "foobar".to_string()), ("Brazil".to_string(), "country".to_string())]
    );
}

#[test]
fn random_pairs_are_drawn_without_repetition() {
    let r = classic::get_random_ramble(&adjs(), None, &themes(), None, None, 10);
    assert_eq!(r.len(), 4);
    let mut seen = std::collections::HashSet::new();
    for line in &r {
        let (a, t) = line.split_once(' ').unwrap();
        assert!(["Adventurous", "Brave", "Calm", "Tímido", "Alegre"].contains(&a));
        assert!(["bar", "foo", "Portugal", "Brazil"].contains(&t));
        assert!(seen.insert(a.to_string()));
    }
}

#[test]
fn pattern_limits_the_pairs() {
    let r = classic::get_random_ramble(&adjs(), None, &themes(), None, Some("b"), 3);
    assert_eq!(r.len(), 1);
    assert!(r[0] == "Brave bar" || r[0] == "Brave Brazil");
}

#[test]
fn provenance_line_format() {
    let r = classic::get_random_ramble_with_provenance(&adjs(), Some(vec!["en".to_string()]), &themes(), Some(vec!["country".to_string()]), Some("b"), 5);
    assert_eq!(r, vec![format!("[{:^15}]\t{} {}", "country", "Brave", "Brazil")]);
}

#[test]
fn new_keeps_selected_lists_without_entries() {
    let rr = classic::RandomRamble::new(&adjs(), Some(vec!["!en".to_string()]), &themes(), None);
    let names: Vec<&str> = rr.adjectives().iter().map(|t| t.name()).collect();
    assert_eq!(names, vec!["pt"]);
    assert_eq!(rr.themes().len(), 2);
    assert_eq!(rr.themes()[1].path(), "dict/country");
    let none = classic::RandomRamble::new(&adjs(), Some(vec![]), &themes(), Some(vec![]));
    assert_eq!(none.adjectives().len(), 0);
    assert_eq!(none.themes().len(), 0);
}

#[test]
fn first_config_keeps_verbosity() {
    let c = classic::Config::new(2, 10, vec!["country".to_string()], Some("b".to_string()));
    assert_eq!(c.verbose(), 2);
    assert_eq!(c.list_length, 10);
}
