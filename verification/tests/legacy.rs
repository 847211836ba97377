use random_ramble::random_ramble::asks_for;
use random_ramble::json::Json;
use random_ramble::random_ramble::round_context;
use random_ramble::dict::DictFile;
use random_ramble::random_ramble::Type;
use random_ramble::RandomRamble;

fn file(name: &str, lines: &[&str]) -> DictFile {
    DictFile { name: name.to_string(), path: format!("dict/{}", name), lines: lines.iter().map(|l| l.to_string()).collect() }
}

fn generator(adjs: Vec<&str>, themes: Vec<&str>) -> RandomRamble {
    let a = vec![file("en", &["Adventurous", "Brave"]), file("pt", &["Tímido"]), file("empty", &[])];
    let t = vec![file("foobar", &["bar", "foo"]), file("country", &["Portugal"])];
    RandomRamble::new(&a, adjs, &t, themes).expect("always loads")
}

#[test]
fn type_entries_filter_by_prefix() {
    let t = Type::new(&file("en", &["Adventurous", "brave", "Bold"]));
    assert_eq!(t.name(), "en");
    assert_eq!(t.path(), "dict/en");
    assert_eq!(t.entries(Some("B")), vec!["brave", "Bold"]);
    assert_eq!(t.entries(None).len(), 3);
    assert_eq!(t.random_entries(Some("b"), 5).len(), 2);
    assert_eq!(t.random_entries(None, 1).len(), 1);
    assert_eq!(t.random_entry(Some("adv")).unwrap(), "Adventurous");
}

#[test]
fn random_entry_errors_name_the_list() {
    let t = Type::new(&file("en", &["Adventurous"]));
    match t.random_entry(Some("z")) {
        Err(random_ramble::RambleError::Custom(m)) => assert_eq!(m, "could not find any entry in en with pattern 'z'"),
        other => panic!("{:?}", other),
    }
    let e = Type::new(&file("empty", &[]));
    match e.random_entry(None) {
        Err(random_ramble::RambleError::Custom(m)) => assert_eq!(m, "could not find any entry in empty"),
        other => panic!("{:?}", other),
    }
}

#[test]
fn randomize_pairs_with_pattern() {
    let rr = generator(vec![], vec![]);
    let r = rr.randomize(Some("b"), 5, None, false).unwrap();
    assert_eq!(r, vec!["Brave bar"; 5]);
}

#[test]
fn randomize_with_details() {
    let rr = generator(vec!["pt"], vec!["country"]);
    let r = rr.randomize(None, 2, None, true).unwrap();
    let line = format!("[ {:^12} | {:^12} ]\t\t{} {}", "pt", "country", "Tímido", "Portugal");
    assert_eq!(r, vec![line.clone(), line]);
}

#[test]
fn randomize_without_matches_is_empty() {
    let rr = generator(vec![], vec![]);
    assert_eq!(rr.randomize(Some("zzz"), 5, None, false).unwrap(), Vec::<String>::new());
}

#[test]
fn randomize_without_pattern_skips_empty_lists() {
    let rr = generator(vec!["!pt"], vec![]);
    let r = rr.randomize(None, 30, None, false).unwrap();
    assert_eq!(r.len(), 30);
    for line in &r {
        let (a, t) = line.split_once(' ').unwrap();
        assert!(a == "Adventurous" || a == "Brave");
        assert!(["bar", "foo", "Portugal"].contains(&t));
    }
}

#[test]
fn randomize_with_template() {
    let rr = generator(vec!["pt"], vec!["country"]);
    let r = rr.randomize(None, 3, Some("{{ adj }} {{ theme }}"), false).unwrap();
    assert_eq!(r, vec!["Tímido Portugal"; 3]);
    let r = rr.randomize(None, 2, Some("{{ adjs.pt | length }}"), false).unwrap();
    assert_eq!(r, vec!["1"; 2]);
}

#[test]
fn try_randomize_refuses_a_template_without_lists() {
    let rr = generator(vec!["none"], vec![]);
    assert!(rr.try_randomize(None, 1, Some("{{ adj }} x"), false).is_none());
    assert!(rr.try_randomize(None, 1, Some("{{ theme }}!"), false).is_some());
    assert!(rr.try_randomize(None, 1, None, false).is_some());
    match rr.try_randomize(None, 0, Some("{{ adj }} x"), false) {
        Some(Ok(v)) => assert!(v.is_empty()),
        other => panic!("{:?}", other),
    }
}

#[test]
fn regex_find_answers() {
    assert_eq!(random_ramble::random_ramble::regex_find("adj[^s]", "{{ adj }}"), Some(true));
    assert_eq!(random_ramble::random_ramble::regex_find("adj[^s]", "{{ adjs }}"), Some(false));
    assert_eq!(random_ramble::random_ramble::regex_find("(", "x"), None);
}

fn table(rows: &[(&str, &[&str])]) -> Vec<(String, Vec<String>)> {
    rows.iter().map(|(n, v)| (n.to_string(), v.iter().map(|s| s.to_string()).collect())).collect()
}

#[test]
fn round_context_fills_the_asked_names() {
    let adjs = table(&[("en", &["Brave"])]);
    let themes = table(&[("country", &["Portugal"]), ("empty", &[])]);
    let m = round_context(&adjs, &themes, true, false, true, true);
    let keys: Vec<&str> = m.iter().map(|(k, _)| k.as_str()).collect();
    assert_eq!(keys, vec!["adj", "adjs", "themes"]);
    match &m[0].1 {
        Json::Str(s) => assert_eq!(s, "Brave"),
        other => panic!("{:?}", other),
    }
    match &m[2].1 {
        Json::Object(rows) => {
            assert_eq!(rows.len(), 2);
            assert_eq!(rows[0].0, "country");
            assert_eq!(rows[1].0, "empty");
            match &rows[1].1 {
                Json::Array(a) => assert!(a.is_empty()),
                other => panic!("{:?}", other),
            }
        }
        other => panic!("{:?}", other),
    }
}

#[test]
fn round_context_gives_null_for_an_empty_table_row() {
    let adjs = table(&[("empty", &[])]);
    let themes = table(&[("empty", &[])]);
    let m = round_context(&adjs, &themes, true, true, false, false);
    assert_eq!(m.len(), 2);
    assert!(matches!(m[0].1, Json::Null));
    assert!(matches!(m[1].1, Json::Null));
    assert!(round_context(&adjs, &themes, false, false, false, false).is_empty());
}

#[test]
fn round_picks_pass_the_pattern() {
    let en = Type::new(&file("en", &["Adventurous", "Brave", "Bold"]));
    let adjs = vec![("en".to_string(), en.random_entries(Some("br"), 3))];
    let themes = vec![("country".to_string(), Type::new(&file("country", &["Portugal"])).random_entries(Some("p"), 3))];
    for _ in 0..10 {
        let m = round_context(&adjs, &themes, true, true, false, false);
        match (&m[0].1, &m[1].1) {
            (Json::Str(a), Json::Str(t)) => {
                assert_eq!(a, "Brave");
                assert_eq!(t, "Portugal");
            }
            other => panic!("{:?}", other),
        }
    }
}

#[test]
fn randomize_with_template_one_line() {
    let a = vec![file("en", &["Adventurous"])];
    let t = vec![file("foo", &["apple"])];
    let rr = RandomRamble::new(&a, vec![], &t, vec![]).expect("always loads");
    assert_eq!(rr.randomize(None, 1, Some("{{ adj }} {{ theme }}"), false).unwrap(), vec!["Adventurous apple".to_string()]);
}

#[test]
fn asks_for_follows_the_patterns() {
    assert!(asks_for("adj[^s]", "{{ adj }}"));
    assert!(!asks_for("adj[^s]", "{{ adjs }}"));
    assert!(asks_for("theme[^s]", "{{theme}}"));
}
