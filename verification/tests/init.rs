use random_ramble::dict::DictFile;
use random_ramble::refactor::{Ramble, RambleKind, RandomRamble};

fn only(values: &[&str]) -> Vec<Ramble> {
    vec![Ramble { category: None, values: values.iter().map(|v| v.to_string()).collect() }]
}

#[test]
fn init_default() {
    let rr = RandomRamble::default();

    assert_eq!(rr.rambles.len(), 0);
    assert!(rr.templates.is_empty());
    assert!(rr.context.is_none());
    assert!(rr.tera.is_none());
}

#[test]
fn init_with_adjs() {
    let adjs = vec!["Happy", "Sad"];

    let rr = RandomRamble::new().with_rambles("adj", adjs);

    assert_eq!(rr.rambles.len(), 1);
    assert_eq!(rr.rambles.get("adj"), Some(&only(&["Happy", "Sad"])));
    assert!(rr.templates.is_empty());
    assert!(rr.context.is_none());
}

#[test]
fn init_with_adj_from_str() {
    let adj = "Pretty";

    let rr: RandomRamble = RandomRamble::default().with_ramble("adj", adj);

    assert_eq!(rr.rambles.len(), 1);
    assert_eq!(rr.rambles.get("adj"), Some(&only(&["Pretty"])));
    assert!(rr.templates.is_empty());
    assert!(rr.context.is_none());
}

#[test]
fn init_with_adjs_from_string() {
    let adj1 = "Kind";
    let adj2 = "Ruthless";

    let rr = RandomRamble::new().with_rambles("adj", vec![adj1, adj2]);

    assert_eq!(rr.rambles.len(), 1);
    assert_eq!(rr.rambles.get("adj"), Some(&only(&["Kind", "Ruthless"])));
    assert!(rr.templates.is_empty());
    assert!(rr.context.is_none());
}

#[test]
fn init_with_adjectives_from_file_path() {
    let files = vec![DictFile { name: "pt".into(), path: "resources/tests/adjectives/pt".into(), lines: vec!["Tímido".into()] }];

    let rr = RandomRamble::new().with_rambles_path("adj", &files);

    assert_eq!(rr.rambles.len(), 1);
    assert_eq!(
        rr.rambles.get("adj"),
        Some(&vec![Ramble { category: Some("pt".into()), values: vec!["Tímido".into()] }])
    );
}

#[test]
fn init_with_themes() {
    let themes = vec!["King"];

    let rr = RandomRamble::new().with_rambles("theme", themes);

    assert_eq!(rr.rambles.len(), 1);
    assert_eq!(rr.rambles.get("theme"), Some(&only(&["King"])));
    assert!(rr.templates.is_empty());
    assert!(rr.context.is_none());
}

#[test]
fn init_with_theme_from_string() {
    let theme = "Toto";

    let rr = RandomRamble::new().with_ramble("theme", theme);

    assert_eq!(rr.rambles.len(), 1);
    assert_eq!(rr.rambles.get("theme"), Some(&only(&["Toto"])));
    assert!(rr.templates.is_empty());
    assert!(rr.context.is_none());
}

#[test]
fn init_with_themes_from_file_path() {
    let files = vec![DictFile { name: "country".into(), path: "resources/tests/themes/country".into(), lines: vec!["Portugal".into()] }];

    let rr = RandomRamble::new().with_rambles_path("theme", &files);

    assert_eq!(
        rr.rambles.get("theme"),
        Some(&vec![Ramble { category: Some("country".into()), values: vec!["Portugal".into()] }])
    );
}

#[test]
fn init_with_themes_from_dir_path() {
    let files = vec![
        DictFile { name: "country".into(), path: "resources/tests/themes/country".into(), lines: vec!["Portugal".into()] },
        DictFile { name: "foobar".into(), path: "resources/tests/themes/foobar".into(), lines: vec!["bar".into(), "foo".into()] },
    ];

    let rr = RandomRamble::new().with_rambles_path("theme", &files);

    assert_eq!(rr.rambles.len(), 1);
    assert_eq!(rr.rambles.get("theme").map(|v| v.len()), Some(2));
}

#[test]
fn init_with_others() {
    let others = vec!["🦀"];

    let rr = RandomRamble::new().with_rambles("emoji", others);

    assert_eq!(rr.rambles.len(), 1);
    assert_eq!(rr.rambles.get("emoji"), Some(&only(&["🦀"])));
    assert!(rr.templates.is_empty());
    assert!(rr.context.is_none());
}

#[test]
fn init_with_other_from_string() {
    let other = "🦀";

    let rr = RandomRamble::new().with_ramble("emoji", other);

    assert_eq!(rr.rambles.len(), 1);
    assert_eq!(rr.rambles.get("emoji"), Some(&only(&["🦀"])));
    assert!(rr.templates.is_empty());
    assert!(rr.context.is_none());
}

#[test]
fn init_with_template() {
    let rr = RandomRamble::new().with_template("A {{adj}} for {{theme}}");

    assert_eq!(rr.rambles.len(), 0);
    assert_eq!(rr.templates, vec!["A {{adj}} for {{theme}}"]);
    assert!(rr.context.is_none());
}

#[test]
fn second_setting_of_a_kind_wins() {
    let rr = RandomRamble::new()
        .with_ramble("adj", "Happy")
        .with_ramble("theme", "King")
        .with_rambles("adj", vec!["Sad", "Glad"]);
    assert_eq!(rr.rambles.len(), 2);
    assert_eq!(rr.rambles.get("adj"), Some(&only(&["Sad", "Glad"])));
    assert_eq!(rr.rambles.get("theme"), Some(&only(&["King"])));
    assert_eq!(rr.rambles.get("emoji"), None);
}

#[test]
fn with_templates_replaces_templates() {
    let rr = RandomRamble::new().with_template("a").with_templates(vec!["b", "c"]);
    assert_eq!(rr.templates, vec!["b", "c"]);
}

#[test]
fn kind_and_ramble_from_str() {
    assert_eq!(RambleKind::from("adj"), RambleKind("adj"));
    assert_eq!(RambleKind::from("adj").to_string(), "adj");
    assert_eq!(Ramble::from("x"), Ramble { category: None, values: vec!["x".to_string()] });
}
