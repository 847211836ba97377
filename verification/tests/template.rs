use random_ramble::refactor::RandomRamble;

#[test]
fn template_replace() {
    let adj = "Clever";
    let theme = "Toto";

    let r = RandomRamble::new()
        .with_template("A {{ adj | rr | lower }} {{ theme | rr }}")
        .with_ramble("adj", adj)
        .with_ramble("theme", theme)
        .build()
        .expect("we gud");

    assert_eq!(r.to_string(), "A clever Toto".to_string());
}

#[test]
fn template_replace_empty_map() {
    let r = RandomRamble::new()
        .with_rambles("adj", vec![])
        .with_rambles("theme", vec![])
        .with_template("Nothing {{ theme | rr }}to{{ adj | rr }} see here.")
        .build()
        .expect("we gud");

    assert_eq!(r.to_string(), "Nothing to see here.".to_string());
}

#[test]
fn template_replace_default() {
    let adj = "Clever";
    let theme = "Toto";

    let r = RandomRamble::new()
        .with_ramble("adj", adj)
        .with_ramble("theme", theme)
        .build()
        .expect("we gud");

    assert_eq!(r.to_string(), "Clever Toto".to_string());
}

#[test]
fn template_replace_default_with_multiple() {
    let adj = "Clever";
    let theme = "Toto";

    let r = RandomRamble::new()
        .with_ramble("adj", adj)
        .with_ramble("theme", theme)
        .build()
        .expect("we gud")
        .take(2);

    assert_eq!(r, vec!["Clever Toto", "Clever Toto"]);

    assert_eq!(r.len(), 2);
}

#[test]
fn template_replace_default_vec() {
    let adjs = vec!["Clever", "Stupid"];
    let themes = vec!["Titi", "Fifi"];

    let r = RandomRamble::new()
        .with_rambles("adj", adjs)
        .with_rambles("theme", themes)
        .build()
        .expect("we gud");

    println!("{}", r.to_string());
    assert_eq!(r.to_string().len(), "Clever Titi".len());
}

#[test]
fn template_replace_custom_ramble_vec() {
    let adjs = vec!["Clever", "Stupid"];

    let emojis = vec!["🦀", "🐕"];

    let r = RandomRamble::new()
        .with_rambles("adj", adjs)
        .with_rambles("emoji", emojis)
        .with_template("{{ adj | rr }} {{ emoji | rr }}")
        .build()
        .expect("we gud");

    assert_eq!(r.to_string().len(), "Clever 🦀".len());
}

#[test]
fn template_replace_custom_ramble_vec_multiple() {
    let adjs = vec!["Clever", "Stupid"];

    let emojis = vec!["🦀", "🐕", "🐈", "🐖", "🐄"];

    let r = RandomRamble::new()
        .with_rambles("adj", adjs)
        .with_rambles("emoji", emojis)
        .with_template("{{ adj | rr }} {{ emoji | rr }}")
        .build()
        .expect("we gud")
        .take(15);

    assert_eq!(r.len(), 15);
}

#[test]
fn render_before_build_fails() {
    let r = RandomRamble::new().with_ramble("adj", "Clever");
    assert!(r.render().is_err());
    assert_eq!(r.to_string(), "???");
    assert_eq!(r.take(3), vec!["???", "???", "???"]);
}

#[test]
fn render_picks_one_of_several_templates() {
    let r = RandomRamble::new()
        .with_ramble("adj", "Clever")
        .with_ramble("theme", "Toto")
        .with_templates(vec!["one {{ adj | rr }}", "two {{ theme | rr }}"])
        .build()
        .expect("we gud");
    for _ in 0..20 {
        let s = r.render().expect("renders");
        assert!(s == "one Clever" || s == "two Toto", "{}", s);
    }
}

#[test]
fn build_refuses_a_broken_template() {
    let r = RandomRamble::new().with_template("{{ adj ").build();
    assert!(matches!(r, Err(random_ramble::RambleError::Tera(_))));
}

#[test]
fn filter_by_category_argument() {
    let files = vec![
        random_ramble::dict::DictFile { name: "en".to_string(), path: "a/en".to_string(), lines: vec!["Adventurous".to_string()] },
        random_ramble::dict::DictFile { name: "pt".to_string(), path: "a/pt".to_string(), lines: vec!["Tímido".to_string()] },
    ];
    let r = RandomRamble::new()
        .with_rambles_path("adj", &files)
        .with_template("{{ adj | rr(c='en') }}")
        .build()
        .expect("we gud");
    for _ in 0..10 {
        assert_eq!(r.to_string(), "Adventurous");
    }
    let missing = RandomRamble::new()
        .with_rambles_path("adj", &files)
        .with_template("{{ adj | rr(c='fr') }}")
        .build()
        .expect("we gud");
    assert!(missing.render().is_err());
}

#[test]
fn with_context_replaces_the_rendering_context() {
    let mut ctx = tera::Context::new();
    ctx.insert("name", "Ramble");
    let r = RandomRamble::new()
        .with_template("Hello {{ name }}")
        .build()
        .expect("we gud")
        .with_context(ctx);
    assert_eq!(r.render().expect("renders"), "Hello Ramble");
    let unbuilt = RandomRamble::new().with_context(tera::Context::new());
    assert_eq!(unbuilt.to_string(), "???");
}

fn word_list(name: &str, dir: &str, lines: &[&str]) -> random_ramble::dict::DictFile {
    random_ramble::dict::DictFile {
        name: name.to_string(),
        path: format!("resources/tests/{}/{}", dir, name),
        lines: lines.iter().map(|l| l.to_string()).collect(),
    }
}

fn adjective_files() -> Vec<random_ramble::dict::DictFile> {
    vec![word_list("en", "adjectives", &["Adventurous", "Brilliantly"]), word_list("pt", "adjectives", &["Tímido"])]
}

fn theme_files() -> Vec<random_ramble::dict::DictFile> {
    vec![word_list("foobar", "themes", &["bar", "foo"]), word_list("toto", "themes", &["Toto"])]
}

#[test]
fn template_replace_themes_adjs_from_files() {
    let adjs = adjective_files();
    let themes = theme_files();
    let rr = RandomRamble::new()
        .with_rambles_path("adj", &adjs)
        .with_rambles_path("theme", &themes)
        .with_template("{{ adj | rr(c='en') }} {{ theme | rr(c='toto') }}")
        .build()
        .expect("we gud")
        .to_string();
    assert_eq!(rr.len(), 16);
}

#[test]
fn template_filter_by_categories_and_starting_pattern() {
    let adjs = adjective_files();
    let themes = theme_files();
    let rr = RandomRamble::new()
        .with_rambles_path("adj", &adjs)
        .with_rambles_path("theme", &themes)
        .with_template("{{ adj | rr(c='en', starts_with='a') }} {{ theme | rr(c='foobar', starts_with='b') }}")
        .build()
        .expect("we gud")
        .to_string();
    assert_eq!(rr, "Adventurous bar");
    assert_eq!(rr.len(), 15);
}
