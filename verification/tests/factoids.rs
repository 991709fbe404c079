use oxygen_bot::factoids::Factoids;

fn pairs(store: &Factoids) -> Vec<(String, String)> {
    let mut out: Vec<(String, String)> = store
        .names()
        .into_iter()
        .map(|n| {
            let text = store.get(&n).unwrap().clone();
            (n, text)
        })
        .collect();
    out.sort();
    out
}

#[test]
fn new_store_is_empty() {
    let store = Factoids::new();
    assert_eq!(store.len(), 0);
    assert!(store.names().is_empty());
    assert_eq!(store.get("greet"), None);
    assert_eq!(store.serialize(), "");
}

#[test]
fn define_then_get() {
    let mut store = Factoids::new();
    store.define_factoid("greet".to_string(), "hello world".to_string());
    assert_eq!(store.get("greet"), Some(&"hello world".to_string()));
    assert_eq!(store.len(), 1);
}

#[test]
fn redefinition_overwrites() {
    let mut store = Factoids::new();
    store.define_factoid("a".to_string(), "one".to_string());
    store.define_factoid("b".to_string(), "two".to_string());
    store.define_factoid("a".to_string(), "three".to_string());
    assert_eq!(store.len(), 2);
    assert_eq!(store.get("a"), Some(&"three".to_string()));
    assert_eq!(store.get("b"), Some(&"two".to_string()));
    assert_eq!(store.names(), vec!["a".to_string(), "b".to_string()]);
}

#[test]
fn get_of_an_absent_name() {
    let mut store = Factoids::new();
    store.define_factoid("a".to_string(), "one".to_string());
    assert_eq!(store.get("b"), None);
    assert_eq!(store.get(""), None);
    assert_eq!(store.get("A"), None);
}

#[test]
fn serialize_writes_one_record_per_line() {
    let mut store = Factoids::new();
    store.define_factoid("greet".to_string(), "hello world".to_string());
    store.define_factoid("joke".to_string(), "why".to_string());
    assert_eq!(store.serialize(), "greet hello world\njoke why");
}

#[test]
fn load_reads_records() {
    let store = Factoids::load("greet hello world\njoke why did the chicken");
    assert_eq!(store.len(), 2);
    assert_eq!(store.get("greet"), Some(&"hello world".to_string()));
    assert_eq!(store.get("joke"), Some(&"why did the chicken".to_string()));
}

#[test]
fn load_skips_lines_without_a_space() {
    let store = Factoids::load("lonely\ngreet hi\n\nalso_lonely\n");
    assert_eq!(store.len(), 1);
    assert_eq!(store.get("greet"), Some(&"hi".to_string()));
    assert_eq!(store.get("lonely"), None);
}

#[test]
fn load_trims_the_text() {
    let store = Factoids::load("a    padded text \t\r\nb \n");
    assert_eq!(store.get("a"), Some(&"padded text".to_string()));
    assert_eq!(store.get("b"), Some(&"".to_string()));
}

#[test]
fn load_splits_at_the_first_space_only() {
    let store = Factoids::load("key value with spaces");
    assert_eq!(store.get("key"), Some(&"value with spaces".to_string()));
}

#[test]
fn load_of_a_line_that_opens_with_a_space() {
    let store = Factoids::load(" text");
    assert_eq!(store.get(""), Some(&"text".to_string()));
}

#[test]
fn load_keeps_the_last_of_two_records_of_one_name() {
    let store = Factoids::load("a one\nb two\na three");
    assert_eq!(store.len(), 2);
    assert_eq!(store.get("a"), Some(&"three".to_string()));
}

#[test]
fn load_of_nothing_is_empty() {
    assert_eq!(Factoids::load("").len(), 0);
}

#[test]
fn stored_and_loaded_again() {
    let mut store = Factoids::new();
    store.define_factoid("greet".to_string(), "hello world".to_string());
    store.define_factoid("joke".to_string(), "why did the chicken cross the road".to_string());
    store.define_factoid("empty".to_string(), "".to_string());
    store.define_factoid("greet".to_string(), "hi there".to_string());
    let again = Factoids::load(&store.serialize());
    assert_eq!(pairs(&again), pairs(&store));
    assert_eq!(again.serialize(), store.serialize());
}

#[test]
fn empty_store_stored_and_loaded_again() {
    let store = Factoids::new();
    let again = Factoids::load(&store.serialize());
    assert_eq!(again.len(), 0);
}

#[test]
fn text_with_leading_space_does_not_survive_storing() {
    let mut store = Factoids::new();
    store.define_factoid("a".to_string(), " b".to_string());
    let again = Factoids::load(&store.serialize());
    assert_eq!(again.get("a"), Some(&"b".to_string()));
}
