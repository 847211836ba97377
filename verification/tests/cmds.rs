use random_ramble::cmds;
use random_ramble::text::split_lines;

fn strings(v: &[&str]) -> Vec<String> {
    v.iter().map(|s| s.to_string()).collect()
}

#[test]
fn add_appends_missing_entries() {
    let r = cmds::add("bar\nfoo\n", &strings(&["foo", "baz", "qux"]));
    assert_eq!(r, Some("baz\nqux\n".to_string()));
    let after = format!("bar\nfoo\n{}", r.unwrap());
    assert_eq!(split_lines(&after), strings(&["bar", "foo", "baz", "qux"]));
}

#[test]
fn add_nothing_when_all_present() {
    assert_eq!(cmds::add("bar\nfoo\n", &strings(&["foo", "bar"])), None);
    assert_eq!(cmds::add("", &strings(&[])), None);
}

#[test]
fn add_to_an_empty_file() {
    assert_eq!(cmds::add("", &strings(&["a"])), Some("a\n".to_string()));
}

#[test]
fn delete_keeps_other_lines() {
    let r = cmds::delete("bar\nfoo\nbaz\n", &strings(&["foo", "nope"]));
    assert_eq!(r, "bar\nbaz\n".to_string());
    assert_eq!(split_lines(&r), strings(&["bar", "baz"]));
}

#[test]
fn delete_everything_empties_the_file() {
    assert_eq!(cmds::delete("foo\n", &strings(&["foo"])), "");
    assert_eq!(split_lines(&cmds::delete("a\nb\n", &strings(&["b", "a"]))), Vec::<String>::new());
}

#[test]
fn delete_without_a_match_keeps_every_line() {
    assert_eq!(cmds::delete("a\nb", &strings(&["c"])), "a\nb\n");
}

#[test]
fn add_twice_adds_nothing() {
    let first = cmds::add("x\n", &strings(&["y", "z"])).unwrap();
    let after = format!("x\n{}", first);
    assert_eq!(cmds::add(&after, &strings(&["y", "z"])), None);
}

#[test]
fn add_then_delete_gives_back_the_other_lines() {
    let content = "a\nb\n";
    let entries = strings(&["b", "c"]);
    let added = cmds::add(content, &entries).unwrap();
    let after = format!("{}{}", content, added);
    assert_eq!(split_lines(&cmds::delete(&after, &entries)), strings(&["a"]));
}
