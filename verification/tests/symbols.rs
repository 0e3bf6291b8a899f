use class_refs::cursor::Cursor;
use class_refs::error::DecodeError;
use class_refs::pool::place_of;
use class_refs::pool::NamePool;
use class_refs::symbols::decode_entry;
use class_refs::symbols::decode_symbol_table;
use class_refs::symbols::opaque_payload_len;
use class_refs::symbols::SymbolEntry;
use class_refs::symbols::SymbolTable;

fn one_entry(bytes: &[u8], index: u16) -> (Result<SymbolEntry, DecodeError>, usize) {
    let mut c = Cursor::new(bytes);
    let r = decode_entry(&mut c, index);
    (r, c.position())
}

#[test]
fn utf8_entry_holds_its_text() {
    let (r, end) = one_entry(&[1, 0, 3, b'a', b'/', b'b', 99], 1);
    assert_eq!(r, Ok(SymbolEntry::Utf8 { text: b"a/b".to_vec() }));
    assert_eq!(end, 6);
    let (r, end) = one_entry(&[1, 0, 0], 1);
    assert_eq!(r, Ok(SymbolEntry::Utf8 { text: vec![] }));
    assert_eq!(end, 3);
}

#[test]
fn class_ref_entry_holds_its_name_slot() {
    let (r, end) = one_entry(&[7, 0x01, 0x02], 1);
    assert_eq!(r, Ok(SymbolEntry::ClassRef { name_slot: 0x0102 }));
    assert_eq!(end, 3);
}

#[test]
fn name_and_type_entry_holds_both_slots() {
    let (r, end) = one_entry(&[12, 0, 5, 0, 6], 1);
    assert_eq!(r, Ok(SymbolEntry::NameAndType { name_slot: 5, descriptor_slot: 6 }));
    assert_eq!(end, 5);
}

#[test]
fn opaque_entries_are_passed_over_by_their_width() {
    let cases: [(u8, usize, u8); 11] = [
        (3, 4, 1),
        (4, 4, 1),
        (5, 8, 2),
        (6, 8, 2),
        (8, 2, 1),
        (9, 4, 1),
        (10, 4, 1),
        (11, 4, 1),
        (15, 3, 1),
        (16, 2, 1),
        (18, 4, 1),
    ];
    for (tag, payload, width) in cases {
        let mut bytes = vec![tag];
        bytes.extend(std::iter::repeat(0xEE).take(payload + 2));
        let (r, end) = one_entry(&bytes, 1);
        assert_eq!(r, Ok(SymbolEntry::Opaque { tag, slot_width: width }));
        assert_eq!(end, 1 + payload);
        assert_eq!(opaque_payload_len(tag), Some(payload));
        let (r, end) = one_entry(&bytes[..payload], 1);
        assert_eq!(r, Err(DecodeError::Truncated { offset: 1 }));
        assert_eq!(end, 1);
    }
}

#[test]
fn unknown_tags_are_refused() {
    for tag in [0u8, 2, 13, 14, 17, 19, 20, 21, 255] {
        let bytes = [tag, 0, 0, 0, 0, 0, 0, 0, 0];
        let (r, end) = one_entry(&bytes, 7);
        assert_eq!(r, Err(DecodeError::UnknownTag { tag, index: 7, offset: 0 }));
        assert_eq!(end, 1);
        assert_eq!(opaque_payload_len(tag), None);
    }
    assert_eq!(opaque_payload_len(1), None);
    assert_eq!(opaque_payload_len(7), None);
    assert_eq!(opaque_payload_len(12), None);
}

#[test]
fn truncated_entries_say_where_the_read_failed() {
    assert_eq!(one_entry(&[], 1).0, Err(DecodeError::Truncated { offset: 0 }));
    assert_eq!(one_entry(&[1], 1).0, Err(DecodeError::Truncated { offset: 1 }));
    assert_eq!(one_entry(&[1, 0], 1).0, Err(DecodeError::Truncated { offset: 1 }));
    assert_eq!(one_entry(&[1, 0, 2, b'a'], 1).0, Err(DecodeError::Truncated { offset: 3 }));
    assert_eq!(one_entry(&[7, 0], 1).0, Err(DecodeError::Truncated { offset: 1 }));
    assert_eq!(one_entry(&[12, 0, 1, 0], 1).0, Err(DecodeError::Truncated { offset: 3 }));
}

#[test]
fn table_with_count_zero_or_one_is_empty() {
    for count in [0u8, 1] {
        let bytes = [0, count, 7, 0, 1];
        let mut c = Cursor::new(&bytes);
        let t = decode_symbol_table(&mut c).unwrap();
        assert_eq!(t.len(), 0);
        assert_eq!(c.position(), 2);
    }
}

#[test]
fn table_holds_count_minus_one_entries() {
    let bytes = [0, 3, 1, 0, 1, b'x', 7, 0, 1, 0xAA];
    let mut c = Cursor::new(&bytes);
    let t = decode_symbol_table(&mut c).unwrap();
    assert_eq!(c.position(), 9);
    assert_eq!(t.len(), 2);
    assert_eq!(t.lookup(1), Ok(&SymbolEntry::Utf8 { text: b"x".to_vec() }));
    assert_eq!(t.lookup(2), Ok(&SymbolEntry::ClassRef { name_slot: 1 }));
    assert_eq!(t.lookup(3), Err(DecodeError::MalformedReference { index: 3 }));
    assert_eq!(t.lookup(0), Err(DecodeError::MalformedReference { index: 0 }));
}

#[test]
fn wide_entry_takes_two_slots() {
    // count 4: a long in slots 1 and 2, a class reference in slot 3
    let bytes = [0, 4, 5, 0, 0, 0, 0, 0, 0, 0, 9, 7, 0, 2];
    let mut c = Cursor::new(&bytes);
    let t = decode_symbol_table(&mut c).unwrap();
    assert_eq!(c.position(), 14);
    assert_eq!(t.len(), 3);
    assert_eq!(t.lookup(1), Ok(&SymbolEntry::Opaque { tag: 5, slot_width: 2 }));
    assert_eq!(t.lookup(2), Err(DecodeError::MalformedReference { index: 2 }));
    assert_eq!(t.lookup(3), Ok(&SymbolEntry::ClassRef { name_slot: 2 }));
}

#[test]
fn wide_entry_in_the_last_slot_fills_one_slot_more() {
    // count 2 announces one slot; the double takes slots 1 and 2
    let bytes = [0, 2, 6, 1, 2, 3, 4, 5, 6, 7, 8];
    let mut c = Cursor::new(&bytes);
    let t = decode_symbol_table(&mut c).unwrap();
    assert_eq!(c.position(), 11);
    assert_eq!(t.len(), 2);
    assert_eq!(t.lookup(1), Ok(&SymbolEntry::Opaque { tag: 6, slot_width: 2 }));
    assert_eq!(t.lookup(2), Err(DecodeError::MalformedReference { index: 2 }));
}

#[test]
fn unknown_tag_in_table_names_the_slot_it_was_to_fill() {
    let bytes = [0, 5, 5, 0, 0, 0, 0, 0, 0, 0, 9, 7, 0, 2, 2, 0, 0];
    let mut c = Cursor::new(&bytes);
    assert_eq!(
        decode_symbol_table(&mut c),
        Err(DecodeError::UnknownTag { tag: 2, index: 4, offset: 14 })
    );
    assert_eq!(c.position(), 15);
}

#[test]
fn truncated_table_fails() {
    let bytes = [0, 3, 1, 0, 1, b'x', 7, 0];
    let mut c = Cursor::new(&bytes);
    assert_eq!(decode_symbol_table(&mut c), Err(DecodeError::Truncated { offset: 7 }));
    let mut c = Cursor::new(&bytes[..1]);
    assert_eq!(decode_symbol_table(&mut c), Err(DecodeError::Truncated { offset: 0 }));
    let mut c = Cursor::new(&bytes[..6]);
    assert_eq!(decode_symbol_table(&mut c), Err(DecodeError::Truncated { offset: 6 }));
}

#[test]
fn pushed_entries_are_found_again() {
    let mut t = SymbolTable::new();
    assert_eq!(t.len(), 0);
    t.push(SymbolEntry::Utf8 { text: b"Object".to_vec() });
    t.push(SymbolEntry::Opaque { tag: 5, slot_width: 2 });
    t.push(SymbolEntry::NameAndType { name_slot: 1, descriptor_slot: 1 });
    assert_eq!(t.len(), 4);
    assert_eq!(t.lookup(1), Ok(&SymbolEntry::Utf8 { text: b"Object".to_vec() }));
    assert_eq!(t.lookup(2), Ok(&SymbolEntry::Opaque { tag: 5, slot_width: 2 }));
    assert_eq!(t.lookup(3), Err(DecodeError::MalformedReference { index: 3 }));
    assert_eq!(
        t.lookup(4),
        Ok(&SymbolEntry::NameAndType { name_slot: 1, descriptor_slot: 1 })
    );
    assert_eq!(t.lookup(5), Err(DecodeError::MalformedReference { index: 5 }));
}

#[test]
fn entry_is_wide_when_it_takes_two_slots() {
    assert!(SymbolEntry::Opaque { tag: 5, slot_width: 2 }.is_wide());
    assert!(SymbolEntry::Opaque { tag: 6, slot_width: 2 }.is_wide());
    assert!(!SymbolEntry::Opaque { tag: 3, slot_width: 1 }.is_wide());
    assert!(!SymbolEntry::Utf8 { text: vec![] }.is_wide());
    assert!(!SymbolEntry::ClassRef { name_slot: 2 }.is_wide());
}

#[test]
fn table_offers_its_slots_by_place() {
    let mut t = SymbolTable::new();
    t.push(SymbolEntry::Utf8 { text: b"n".to_vec() });
    t.push(SymbolEntry::ClassRef { name_slot: 1 });
    t.push(SymbolEntry::NameAndType { name_slot: 1, descriptor_slot: 9 });
    t.push(SymbolEntry::Opaque { tag: 6, slot_width: 2 });
    assert_eq!(t.slot_count(), 5);
    assert_eq!(t.text(0), Some(&b"n".to_vec()));
    assert_eq!(t.text(1), None);
    assert_eq!(t.class_slot(1), Some(1));
    assert_eq!(t.class_slot(0), None);
    assert_eq!(t.name_slot(2), Some(1));
    assert_eq!(t.name_slot(1), None);
    for i in 3..5 {
        assert_eq!(t.text(i), None);
        assert_eq!(t.class_slot(i), None);
        assert_eq!(t.name_slot(i), None);
    }
}

#[test]
fn place_of_counts_from_one() {
    assert_eq!(place_of(0, 5), None);
    assert_eq!(place_of(1, 5), Some(0));
    assert_eq!(place_of(5, 5), Some(4));
    assert_eq!(place_of(6, 5), None);
    assert_eq!(place_of(1, 0), None);
    assert_eq!(place_of(65535, 65535), Some(65534));
}

#[test]
fn only_the_wide_numeric_tags_take_two_slots() {
    for tag in 0..=255u8 {
        let expected = if tag == 5 || tag == 6 { 2 } else { 1 };
        assert_eq!(class_refs::symbols::slot_width(tag), expected);
    }
}
