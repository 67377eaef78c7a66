use bench_harness::vars::{split_template, Variables};

fn vars(entries: &[(&str, &str)]) -> Variables {
    let mut vars = Variables::default();
    for (key, value) in entries {
        vars.insert(key.to_string(), value.to_string());
    }
    vars
}

fn listed(vars: &Variables) -> Vec<(String, String)> {
    vars.iter().into_iter().map(|(k, v)| (k.clone(), v.clone())).collect()
}

#[test]
fn a_value_is_read_back() {
    let vars = vars(&[("WORKDIR", "/tmp/work"), ("TAG", "icicle")]);
    assert_eq!(vars.get("WORKDIR"), Some("/tmp/work"));
    assert_eq!(vars.get("TAG"), Some("icicle"));
    assert_eq!(vars.get("OTHER"), None);
}

#[test]
fn the_last_value_counts_and_keeps_its_place() {
    let vars = vars(&[("A", "1"), ("B", "2"), ("A", "3")]);
    assert_eq!(vars.get("A"), Some("3"));
    assert_eq!(
        listed(&vars),
        vec![("A".to_string(), "3".to_string()), ("B".to_string(), "2".to_string())]
    );
    assert_eq!(
        vars.into_iter(),
        vec![("A".to_string(), "3".to_string()), ("B".to_string(), "2".to_string())]
    );
}

#[test]
fn a_value_refers_to_earlier_ones() {
    let vars = vars(&[("ROOT", "/data"), ("DIR", "{ROOT}/{TRIAL}"), ("TRIAL", "7")]);
    assert_eq!(vars.get("DIR"), Some("/data/{TRIAL}"));
}

#[test]
fn a_value_refers_to_its_own_former_value() {
    let vars = vars(&[("PATH", "/bin"), ("PATH", "{PATH}:/usr/bin")]);
    assert_eq!(vars.get("PATH"), Some("/bin:/usr/bin"));
}

#[test]
fn insert_all_inserts_in_turn() {
    let mut vars = Variables::default();
    vars.insert_all(vec![
        ("A".to_string(), "x".to_string()),
        ("B".to_string(), "{A}{A}".to_string()),
        ("C".to_string(), "<{B}>".to_string()),
    ]);
    assert_eq!(vars.get("C"), Some("<xx>"));
}

#[test]
fn expansion_replaces_what_is_set() {
    let vars = vars(&[("A", "1"), ("B", "zwei")]);
    assert_eq!(vars.expand_vars("{A}-{B}-{A}"), "1-zwei-1");
    assert_eq!(vars.expand_vars("ä{B}ö"), "äzweiö");
}

#[test]
fn expansion_keeps_what_is_not_set() {
    let vars = vars(&[("A", "1")]);
    assert_eq!(vars.expand_vars("{X}{A}{}"), "{X}1{}");
}

#[test]
fn expansion_keeps_plain_and_unclosed_texts() {
    let vars = vars(&[("A", "1")]);
    assert_eq!(vars.expand_vars(""), "");
    assert_eq!(vars.expand_vars("plain } text"), "plain } text");
    assert_eq!(vars.expand_vars("{A} and {A"), "1 and {A");
}

#[test]
fn expansion_does_not_look_into_values() {
    let mut vars = Variables::default();
    vars.insert("A".to_string(), "{B}".to_string());
    vars.insert("B".to_string(), "2".to_string());
    assert_eq!(vars.expand_vars("{A}"), "{B}");
}

#[test]
fn a_key_may_hold_an_opening_brace() {
    let vars = vars(&[("A", "1")]);
    assert_eq!(vars.expand_vars("{x{A}"), "{x{A}");
    assert_eq!(split_template("{x{A}"), Some(("", "x{A", "")));
}

#[test]
fn expansion_goes_part_by_part() {
    let vars = vars(&[("A", "1"), ("B", "2")]);
    for left in ["", "x}", "{A}", "{A}{C}-"] {
        for right in ["", "{B}", "{", "}{A}"] {
            let whole = format!("{left}{right}");
            assert_eq!(
                vars.expand_vars(&whole),
                vars.expand_vars(left) + &vars.expand_vars(right)
            );
        }
    }
    assert_eq!(vars.expand_vars("{C} {a} {A B} {{A}"), "{C} {a} {A B} {{A}");
}

#[test]
fn a_clone_stands_on_its_own() {
    let first = vars(&[("A", "1")]);
    let mut second = first.clone();
    second.insert("A".to_string(), "2".to_string());
    assert_eq!(first.get("A"), Some("1"));
    assert_eq!(second.get("A"), Some("2"));
}

#[test]
fn a_template_is_split() {
    assert_eq!(split_template("a{b}c"), Some(("a", "b", "c")));
    assert_eq!(split_template("}a{b}c{d}"), Some(("}a", "b", "c{d}")));
    assert_eq!(split_template("a{b"), None);
    assert_eq!(split_template("a}b"), None);
    assert_eq!(split_template(""), None);
}
