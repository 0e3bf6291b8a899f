use class_refs::names::compare_names;
use class_refs::names::NameOrder;
use class_refs::names::NameSet;

#[test]
fn shorter_name_comes_first() {
    assert_eq!(compare_names(b"b", b"aa"), NameOrder::Before);
    assert_eq!(compare_names(b"aa", b"b"), NameOrder::After);
    assert_eq!(compare_names(b"", b"a"), NameOrder::Before);
}

#[test]
fn names_of_one_length_go_byte_by_byte() {
    assert_eq!(compare_names(b"A/B", b"A/C"), NameOrder::Before);
    assert_eq!(compare_names(b"A/C", b"A/B"), NameOrder::After);
    assert_eq!(compare_names(b"A/B", b"A/B"), NameOrder::Same);
    assert_eq!(compare_names(b"", b""), NameOrder::Same);
    assert_eq!(compare_names(&[0x7f], &[0x80]), NameOrder::Before);
    assert_eq!(compare_names(b"ab", b"ba"), NameOrder::Before);
}

#[test]
fn name_set_keeps_names_sorted_and_once() {
    let mut s = NameSet::new();
    s.insert(b"zz");
    s.insert(b"b");
    s.insert(b"aaa");
    s.insert(b"a");
    s.insert(b"b");
    s.insert(b"zz");
    assert_eq!(
        s.into_names(),
        vec![b"a".to_vec(), b"b".to_vec(), b"zz".to_vec(), b"aaa".to_vec()]
    );
}

#[test]
fn name_set_remove_takes_one_name_out() {
    let mut s = NameSet::new();
    s.insert(b"x");
    s.insert(b"y");
    s.insert(b"z");
    s.remove(b"y");
    s.remove(b"q");
    s.remove(b"longer");
    assert_eq!(s.clone().into_names(), vec![b"x".to_vec(), b"z".to_vec()]);
    s.remove(b"x");
    s.remove(b"z");
    s.remove(b"z");
    assert_eq!(s.into_names(), Vec::<Vec<u8>>::new());
}

#[test]
fn empty_name_set_has_no_names() {
    assert_eq!(NameSet::new().into_names(), Vec::<Vec<u8>>::new());
}
