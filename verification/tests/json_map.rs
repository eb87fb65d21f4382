use grapher::json_map::{del_var, set_var, string_map};

fn sorted(text: &str) -> Vec<(String, String)> {
    let mut v = string_map(text).unwrap();
    v.sort();
    v
}

#[test]
fn set_then_read_back() {
    let out = set_var("x".to_string(), "1".to_string(), "{\"y\":\"2\"}".to_string()).unwrap();
    assert_eq!(sorted(&out), vec![("x".to_string(), "1".to_string()), ("y".to_string(), "2".to_string())]);
    let again = set_var("y".to_string(), "3".to_string(), out).unwrap();
    assert_eq!(sorted(&again), vec![("x".to_string(), "1".to_string()), ("y".to_string(), "3".to_string())]);
}

#[test]
fn delete_after_set_gives_the_map_back() {
    let start = "{\"a\":\"b\"}".to_string();
    let set = set_var("k".to_string(), "v\"q".to_string(), start.clone()).unwrap();
    let back = del_var("k".to_string(), set).unwrap();
    assert_eq!(sorted(&back), sorted(&start));
    let missing = del_var("zz".to_string(), start.clone()).unwrap();
    assert_eq!(sorted(&missing), sorted(&start));
}

#[test]
fn text_that_is_no_string_map_is_refused() {
    assert!(set_var("x".to_string(), "1".to_string(), "not json".to_string()).is_none());
    assert!(del_var("x".to_string(), "{\"a\":1}".to_string()).is_none());
    assert!(string_map("[]").is_none());
    assert_eq!(string_map("{}").unwrap(), vec![]);
}
