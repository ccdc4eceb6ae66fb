use mini_http::string_map::StringMap;

fn text(s: &str) -> String {
    String::from(s)
}

#[test]
fn new_map_is_empty() {
    let map = StringMap::new();
    assert!(map.is_empty());
    assert_eq!(map.len(), 0);
    assert_eq!(map.get("a"), None);
    assert!(map.entry(0).is_none());
}

#[test]
fn insert_returns_the_previous_value() {
    let mut map = StringMap::new();
    assert_eq!(map.insert(text("a"), text("1")), None);
    assert_eq!(map.insert(text("b"), text("2")), None);
    assert_eq!(map.insert(text("a"), text("3")), Some(text("1")));
    assert_eq!(map.insert(text("a"), text("4")), Some(text("3")));
    assert_eq!(map.len(), 2);
    assert!(!map.is_empty());
}

#[test]
fn a_known_key_keeps_its_place() {
    let mut map = StringMap::new();
    map.insert(text("first"), text("1"));
    map.insert(text("second"), text("2"));
    map.insert(text("third"), text("3"));
    map.insert(text("first"), text("one"));
    let entries: Vec<(String, String)> = (0..map.len())
        .map(|i| {
            let (key, value) = map.entry(i).unwrap();
            (key.clone(), value.clone())
        })
        .collect();
    assert_eq!(
        entries,
        vec![
            (text("first"), text("one")),
            (text("second"), text("2")),
            (text("third"), text("3")),
        ]
    );
}

#[test]
fn get_compares_keys_literally() {
    let mut map = StringMap::new();
    map.insert(text("Host"), text("a"));
    map.insert(text(""), text("empty"));
    assert_eq!(map.get("Host"), Some(&text("a")));
    assert_eq!(map.get("host"), None);
    assert_eq!(map.get("Host "), None);
    assert_eq!(map.get(""), Some(&text("empty")));
}

#[test]
fn equality_is_that_of_maps() {
    let mut ab = StringMap::new();
    ab.insert(text("a"), text("1"));
    ab.insert(text("b"), text("2"));
    let mut ba = StringMap::new();
    ba.insert(text("b"), text("0"));
    ba.insert(text("a"), text("1"));
    assert!(ab != ba);
    ba.insert(text("b"), text("2"));
    assert!(ab == ba);
    ba.insert(text("c"), text("3"));
    assert!(ab != ba);
    assert!(ba != ab);
    assert!(StringMap::new() == StringMap::new());
    assert!(StringMap::new() != ab);
}
