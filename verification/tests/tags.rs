use weaver::key_map::KeyMap;
use weaver::sorted::into_sorted_values;
use weaver::tags::{merge_with_override, Tags};
use weaver::text::{decimal_text, quoted_text, same_string, same_text, text_less};
use weaver::text_map::TextMap;

fn tags_of(pairs: &[(&str, &str)]) -> Tags {
    let mut t = Tags::new();
    for (k, v) in pairs {
        t.insert(k.to_string(), v.to_string());
    }
    t
}

#[test]
fn tags_merge_prefers_local() {
    let local = tags_of(&[("k", "local")]);
    let parent = tags_of(&[("k", "parent"), ("p", "only")]);
    let merged = merge_with_override(Some(&local), Some(&parent)).unwrap();
    assert_eq!(merged.get_tag("k").unwrap(), "local");
    assert_eq!(merged.get_tag("p").unwrap(), "only");
    assert_eq!(merged.iter().len(), 2);
}

#[test]
fn tags_merge_with_missing_sides() {
    let local = tags_of(&[("a", "1")]);
    let parent = tags_of(&[("b", "2")]);
    let only_local = merge_with_override(Some(&local), None).unwrap();
    assert!(only_local.has_tag("a"));
    assert!(!only_local.has_tag("b"));
    let only_parent = merge_with_override(None, Some(&parent)).unwrap();
    assert!(only_parent.has_tag("b"));
    assert!(!only_parent.has_tag("a"));
    assert!(merge_with_override(None, None).is_none());
}

#[test]
fn tags_method_merge_and_equality() {
    let local = tags_of(&[("x", "1"), ("y", "2")]);
    let other = tags_of(&[("y", "3"), ("z", "4")]);
    let merged = local.merge_with_override(&other);
    assert_eq!(merged.get_tag("x").unwrap(), "1");
    assert_eq!(merged.get_tag("y").unwrap(), "2");
    assert_eq!(merged.get_tag("z").unwrap(), "4");
    assert!(merged.get_tag("w").is_none());
    let same = tags_of(&[("z", "4"), ("y", "2"), ("x", "1")]);
    assert!(merged.same_tags(&same));
    assert!(!merged.same_tags(&local));
}

#[test]
fn tags_insert_replaces_value() {
    let mut t = Tags::new();
    t.insert("k".to_string(), "v1".to_string());
    t.insert("k".to_string(), "v2".to_string());
    assert_eq!(t.get_tag("k").unwrap(), "v2");
    assert_eq!(t.iter(), vec![("k".to_string(), "v2".to_string())]);
}

#[test]
fn text_map_basic_operations() {
    let mut m = TextMap::new();
    assert_eq!(m.len(), 0);
    m.insert("a".to_string(), "1".to_string());
    m.insert("b".to_string(), "2".to_string());
    m.insert("a".to_string(), "3".to_string());
    assert_eq!(m.len(), 2);
    assert_eq!(m.get("a").unwrap(), "3");
    assert!(m.contains_key("b"));
    assert!(!m.contains_key("c"));
    assert_eq!(m.find("b"), Some(1));
    let pairs = m.to_pairs();
    assert_eq!(pairs.len(), 2);
    let mut other = TextMap::new();
    other.insert("b".to_string(), "9".to_string());
    other.insert("c".to_string(), "8".to_string());
    let merged = m.merge_with_override(&other);
    assert_eq!(merged.get("b").unwrap(), "2");
    assert_eq!(merged.get("c").unwrap(), "8");
    assert_eq!(merged.len(), 3);
}

#[test]
fn key_map_insert_get_remove() {
    let mut m: KeyMap<u32> = KeyMap::new();
    assert!(m.is_empty());
    assert_eq!(m.insert("one".to_string(), 1), None);
    assert_eq!(m.insert("two".to_string(), 2), None);
    assert_eq!(m.insert("one".to_string(), 11), Some(1));
    assert_eq!(m.len(), 2);
    assert_eq!(m.get("one"), Some(&11));
    assert_eq!(m.remove("one"), Some(11));
    assert_eq!(m.remove("one"), None);
    assert!(!m.contains_key("one"));
    assert_eq!(m.len(), 1);
}

#[test]
fn sorted_values_follow_key_order() {
    let mut m: KeyMap<u32> = KeyMap::new();
    m.insert("zeta".to_string(), 3);
    m.insert("alpha".to_string(), 1);
    m.insert("beta".to_string(), 2);
    m.insert("Alpha".to_string(), 0);
    assert_eq!(into_sorted_values(m), vec![0, 1, 2, 3]);
}

#[test]
fn decimal_text_writes_digits() {
    assert_eq!(decimal_text(0), "0");
    assert_eq!(decimal_text(7), "7");
    assert_eq!(decimal_text(1234), "1234");
    assert_eq!(decimal_text(100), "100");
}

#[test]
fn text_less_is_code_point_order() {
    assert!(text_less("abc", "abd"));
    assert!(text_less("ab", "abc"));
    assert!(text_less("", "a"));
    assert!(text_less("B", "a"));
    assert!(!text_less("b", "a"));
    assert!(!text_less("a", "a"));
    assert!(!text_less("abc", "ab"));
}

#[test]
fn quoted_text_escapes() {
    assert_eq!(quoted_text("plain"), "\"plain\"");
    assert_eq!(quoted_text("a\"b\\c\nd\te\rf"), "\"a\\\"b\\\\c\\nd\\te\\rf\"");
    assert_eq!(quoted_text(""), "\"\"");
    assert_eq!(quoted_text("data/x.yaml"), format!("{:?}", "data/x.yaml"));
}

#[test]
fn text_equality_helpers() {
    assert!(same_text(&"abc".to_string(), "abc"));
    assert!(!same_text(&"abc".to_string(), "abd"));
    assert!(same_string(&"x".to_string(), &"x".to_string()));
    assert!(!same_string(&"x".to_string(), &"y".to_string()));
}
