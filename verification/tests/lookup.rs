use unityassetdb::lookup::{IdIndex, TextIndex};

fn key(s: &str) -> Option<String> {
    Some(s.to_string())
}

#[test]
fn texts_by_position() {
    let index = TextIndex::new(&vec![key("a"), None, key("b"), key("a"), key("")]);
    assert_eq!(index.find("a"), vec![0, 3]);
    assert_eq!(index.find("b"), vec![2]);
    assert_eq!(index.find(""), vec![4]);
    assert!(index.find("c").is_empty());
    assert_eq!(index.first("a"), Some(0));
    assert_eq!(index.last("a"), Some(3));
    assert_eq!(index.first("c"), None);
    assert_eq!(index.last("c"), None);
}

#[test]
fn ids_by_position() {
    let index = IdIndex::new(&vec![Some(5), Some(-1), None, Some(5)]);
    assert_eq!(index.find(5), vec![0, 3]);
    assert_eq!(index.find(-1), vec![1]);
    assert!(index.find(0).is_empty());
}
