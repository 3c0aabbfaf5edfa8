use pandora_launcher::environment::{EnvVar, Environment};

type Filter = fn(&Vec<u8>) -> bool;

fn var(name: &str, value: &str) -> EnvVar {
    EnvVar { name: name.as_bytes().to_vec(), value: value.as_bytes().to_vec() }
}

fn entries(env: &Environment) -> Vec<String> {
    let list = env.to_assignments().expect("no NUL byte");
    list.into_iter().map(|entry| String::from_utf8(entry).unwrap()).collect()
}

fn key(name: &str) -> Vec<u8> {
    name.as_bytes().to_vec()
}

#[test]
fn a_new_environment_is_empty() {
    let env = Environment::new();
    assert_eq!(env.len(), 0);
    assert!(!env.contains_key(&key("A")));
    assert_eq!(entries(&env), Vec::<String>::new());
}

#[test]
fn a_set_variable_is_found_and_can_be_set_again() {
    let mut env = Environment::new();
    env.insert(key("A"), key("1"));
    env.insert(key("B"), key("2"));
    env.insert(key("A"), key("3"));
    assert_eq!(env.len(), 2);
    assert!(env.contains_key(&key("A")));
    assert!(!env.contains_key(&key("C")));
    assert_eq!(entries(&env), vec!["A=3", "B=2"]);
}

#[test]
fn without_a_filter_everything_is_inherited_but_what_is_set() {
    let mut env = Environment::new();
    env.insert(key("PATH"), key("/mine"));
    let filter: Option<Filter> = None;
    env.inherit(vec![var("HOME", "/home"), var("PATH", "/theirs"), var("LANG", "C")], &filter);
    assert_eq!(entries(&env), vec!["PATH=/mine", "HOME=/home", "LANG=C"]);
}

#[test]
fn a_filter_decides_over_names_that_are_free() {
    let mut env = Environment::new();
    env.insert(key("LD_PRELOAD"), key("set"));
    let filter: Option<Filter> = Some(|name: &Vec<u8>| !name.starts_with(b"LD_"));
    env.inherit(
        vec![var("LD_PRELOAD", "x"), var("LD_LIBRARY_PATH", "y"), var("USER", "me")],
        &filter,
    );
    assert_eq!(entries(&env), vec!["LD_PRELOAD=set", "USER=me"]);
}

#[test]
fn the_filter_is_not_asked_about_names_that_are_set() {
    let mut env = Environment::new();
    env.insert(key("A"), key("1"));
    let asked = std::cell::RefCell::new(Vec::new());
    let filter = Some(|name: &Vec<u8>| {
        asked.borrow_mut().push(name.clone());
        true
    });
    env.inherit(vec![var("A", "2"), var("B", "3"), var("B", "4")], &filter);
    assert_eq!(*asked.borrow(), vec![key("B")]);
    assert_eq!(entries(&env), vec!["A=1", "B=3"]);
}

#[test]
fn the_first_of_two_offered_values_wins() {
    let mut env = Environment::new();
    let filter: Option<Filter> = None;
    env.inherit(vec![var("A", "first"), var("A", "second")], &filter);
    assert_eq!(entries(&env), vec!["A=first"]);
}

#[test]
fn a_nul_byte_in_a_name_or_a_value_is_refused() {
    let mut named = Environment::new();
    named.insert(vec![b'A', 0], key("1"));
    assert!(named.to_assignments().is_none());
    let mut valued = Environment::new();
    valued.insert(key("A"), vec![0]);
    assert!(valued.to_assignments().is_none());
}

#[test]
fn empty_names_and_values_are_written_as_they_are() {
    let mut env = Environment::new();
    env.insert(key(""), key("x=y"));
    env.insert(key("E"), key(""));
    assert_eq!(entries(&env), vec!["=x=y", "E="]);
}
