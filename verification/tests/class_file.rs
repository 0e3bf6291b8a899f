use class_refs::decode::decode;
use class_refs::error::DecodeError;
use class_refs::extract::extract;
use class_refs::extract::ParentPolicy;
use class_refs::parsed::read_file;
use class_refs::pool::NamePool;
use class_refs::symbols::SymbolEntry;

// A class that extends java.util.AbstractList and implements Runnable, with
// a long and a double constant, as a Java compiler wrote it.
const SAMPLE: [u8; 577] = [
    0xca, 0xfe, 0xba, 0xbe, 0x00, 0x00, 0x00, 0x3d, 0x00, 0x27, 0x0a, 0x00, 0x02, 0x00, 0x03, 0x07,
    0x00, 0x04, 0x0c, 0x00, 0x05, 0x00, 0x06, 0x01, 0x00, 0x16, 0x6a, 0x61, 0x76, 0x61, 0x2f, 0x75,
    0x74, 0x69, 0x6c, 0x2f, 0x41, 0x62, 0x73, 0x74, 0x72, 0x61, 0x63, 0x74, 0x4c, 0x69, 0x73, 0x74,
    0x01, 0x00, 0x06, 0x3c, 0x69, 0x6e, 0x69, 0x74, 0x3e, 0x01, 0x00, 0x03, 0x28, 0x29, 0x56, 0x05,
    0x00, 0x00, 0x01, 0x1f, 0x71, 0xfb, 0x04, 0xcb, 0x09, 0x00, 0x0a, 0x00, 0x0b, 0x07, 0x00, 0x0c,
    0x0c, 0x00, 0x0d, 0x00, 0x0e, 0x01, 0x00, 0x06, 0x53, 0x61, 0x6d, 0x70, 0x6c, 0x65, 0x01, 0x00,
    0x03, 0x62, 0x69, 0x67, 0x01, 0x00, 0x01, 0x4a, 0x06, 0x3f, 0xe0, 0x00, 0x00, 0x00, 0x00, 0x00,
    0x00, 0x09, 0x00, 0x0a, 0x00, 0x12, 0x0c, 0x00, 0x13, 0x00, 0x14, 0x01, 0x00, 0x04, 0x68, 0x61,
    0x6c, 0x66, 0x01, 0x00, 0x01, 0x44, 0x08, 0x00, 0x16, 0x01, 0x00, 0x01, 0x78, 0x07, 0x00, 0x18,
    0x01, 0x00, 0x17, 0x6a, 0x61, 0x76, 0x61, 0x2f, 0x6c, 0x61, 0x6e, 0x67, 0x2f, 0x53, 0x74, 0x72,
    0x69, 0x6e, 0x67, 0x42, 0x75, 0x69, 0x6c, 0x64, 0x65, 0x72, 0x0a, 0x00, 0x17, 0x00, 0x03, 0x0a,
    0x00, 0x0a, 0x00, 0x1b, 0x0c, 0x00, 0x1c, 0x00, 0x1d, 0x01, 0x00, 0x03, 0x67, 0x65, 0x74, 0x01,
    0x00, 0x15, 0x28, 0x49, 0x29, 0x4c, 0x6a, 0x61, 0x76, 0x61, 0x2f, 0x6c, 0x61, 0x6e, 0x67, 0x2f,
    0x53, 0x74, 0x72, 0x69, 0x6e, 0x67, 0x3b, 0x07, 0x00, 0x1f, 0x01, 0x00, 0x12, 0x6a, 0x61, 0x76,
    0x61, 0x2f, 0x6c, 0x61, 0x6e, 0x67, 0x2f, 0x52, 0x75, 0x6e, 0x6e, 0x61, 0x62, 0x6c, 0x65, 0x01,
    0x00, 0x04, 0x43, 0x6f, 0x64, 0x65, 0x01, 0x00, 0x04, 0x73, 0x69, 0x7a, 0x65, 0x01, 0x00, 0x03,
    0x28, 0x29, 0x49, 0x01, 0x00, 0x03, 0x72, 0x75, 0x6e, 0x01, 0x00, 0x15, 0x28, 0x49, 0x29, 0x4c,
    0x6a, 0x61, 0x76, 0x61, 0x2f, 0x6c, 0x61, 0x6e, 0x67, 0x2f, 0x4f, 0x62, 0x6a, 0x65, 0x63, 0x74,
    0x3b, 0x01, 0x00, 0x09, 0x53, 0x69, 0x67, 0x6e, 0x61, 0x74, 0x75, 0x72, 0x65, 0x01, 0x00, 0x40,
    0x4c, 0x6a, 0x61, 0x76, 0x61, 0x2f, 0x75, 0x74, 0x69, 0x6c, 0x2f, 0x41, 0x62, 0x73, 0x74, 0x72,
    0x61, 0x63, 0x74, 0x4c, 0x69, 0x73, 0x74, 0x3c, 0x4c, 0x6a, 0x61, 0x76, 0x61, 0x2f, 0x6c, 0x61,
    0x6e, 0x67, 0x2f, 0x53, 0x74, 0x72, 0x69, 0x6e, 0x67, 0x3b, 0x3e, 0x3b, 0x4c, 0x6a, 0x61, 0x76,
    0x61, 0x2f, 0x6c, 0x61, 0x6e, 0x67, 0x2f, 0x52, 0x75, 0x6e, 0x6e, 0x61, 0x62, 0x6c, 0x65, 0x3b,
    0x00, 0x21, 0x00, 0x0a, 0x00, 0x02, 0x00, 0x01, 0x00, 0x1e, 0x00, 0x02, 0x00, 0x00, 0x00, 0x0d,
    0x00, 0x0e, 0x00, 0x00, 0x00, 0x00, 0x00, 0x13, 0x00, 0x14, 0x00, 0x00, 0x00, 0x05, 0x00, 0x01,
    0x00, 0x05, 0x00, 0x06, 0x00, 0x01, 0x00, 0x20, 0x00, 0x00, 0x00, 0x1f, 0x00, 0x03, 0x00, 0x01,
    0x00, 0x00, 0x00, 0x13, 0x2a, 0xb7, 0x00, 0x01, 0x2a, 0x14, 0x00, 0x07, 0xb5, 0x00, 0x09, 0x2a,
    0x14, 0x00, 0x0f, 0xb5, 0x00, 0x11, 0xb1, 0x00, 0x00, 0x00, 0x00, 0x00, 0x01, 0x00, 0x1c, 0x00,
    0x1d, 0x00, 0x01, 0x00, 0x20, 0x00, 0x00, 0x00, 0x0f, 0x00, 0x01, 0x00, 0x02, 0x00, 0x00, 0x00,
    0x03, 0x12, 0x15, 0xb0, 0x00, 0x00, 0x00, 0x00, 0x00, 0x01, 0x00, 0x21, 0x00, 0x22, 0x00, 0x01,
    0x00, 0x20, 0x00, 0x00, 0x00, 0x0e, 0x00, 0x01, 0x00, 0x01, 0x00, 0x00, 0x00, 0x02, 0x03, 0xac,
    0x00, 0x00, 0x00, 0x00, 0x00, 0x01, 0x00, 0x23, 0x00, 0x06, 0x00, 0x01, 0x00, 0x20, 0x00, 0x00,
    0x00, 0x15, 0x00, 0x02, 0x00, 0x02, 0x00, 0x00, 0x00, 0x09, 0xbb, 0x00, 0x17, 0x59, 0xb7, 0x00,
    0x19, 0x4c, 0xb1, 0x00, 0x00, 0x00, 0x00, 0x10, 0x41, 0x00, 0x1c, 0x00, 0x24, 0x00, 0x01, 0x00,
    0x20, 0x00, 0x00, 0x00, 0x12, 0x00, 0x02, 0x00, 0x02, 0x00, 0x00, 0x00, 0x06, 0x2a, 0x1b, 0xb6,
    0x00, 0x1a, 0xb0, 0x00, 0x00, 0x00, 0x00, 0x00, 0x01, 0x00, 0x25, 0x00, 0x00, 0x00, 0x02, 0x00,
    0x26,
];

fn names(list: &[&str]) -> Vec<Vec<u8>> {
    list.iter().map(|s| s.as_bytes().to_vec()).collect()
}

#[test]
fn compiled_class_decodes_to_its_symbol_table() {
    let d = decode(&SAMPLE).unwrap();
    assert_eq!(d.parent_index, 2);
    assert_eq!(d.symbol_table.len(), 38);
    assert_eq!(d.symbol_table.slot_count(), 38);
    assert_eq!(
        d.symbol_table.lookup(4),
        Ok(&SymbolEntry::Utf8 { text: b"java/util/AbstractList".to_vec() })
    );
    assert_eq!(d.symbol_table.lookup(2), Ok(&SymbolEntry::ClassRef { name_slot: 4 }));
    assert_eq!(
        d.symbol_table.lookup(3),
        Ok(&SymbolEntry::NameAndType { name_slot: 5, descriptor_slot: 6 })
    );
    assert_eq!(d.symbol_table.lookup(1), Ok(&SymbolEntry::Opaque { tag: 10, slot_width: 1 }));
    assert_eq!(d.symbol_table.lookup(7), Ok(&SymbolEntry::Opaque { tag: 5, slot_width: 2 }));
    assert_eq!(d.symbol_table.lookup(15), Ok(&SymbolEntry::Opaque { tag: 6, slot_width: 2 }));
    assert_eq!(d.symbol_table.lookup(21), Ok(&SymbolEntry::Opaque { tag: 8, slot_width: 1 }));
}

#[test]
fn compiled_class_hides_the_slots_behind_its_wide_constants() {
    let d = decode(&SAMPLE).unwrap();
    assert_eq!(d.symbol_table.lookup(8), Err(DecodeError::MalformedReference { index: 8 }));
    assert_eq!(d.symbol_table.lookup(16), Err(DecodeError::MalformedReference { index: 16 }));
    assert_eq!(d.symbol_table.lookup(0), Err(DecodeError::MalformedReference { index: 0 }));
    assert_eq!(d.symbol_table.lookup(39), Err(DecodeError::MalformedReference { index: 39 }));
}

#[test]
fn compiled_class_names_its_parent_and_references() {
    let d = decode(&SAMPLE).unwrap();
    let r = extract(&d, ParentPolicy::Required).unwrap();
    assert_eq!(r.parent_name, b"java/util/AbstractList".to_vec());
    assert_eq!(
        r.referenced_names,
        names(&["Sample", "java/lang/Runnable", "java/lang/StringBuilder"])
    );
}

#[test]
fn parser_names_parent_and_references_of_compiled_class() {
    let (parent, others) = read_file(&SAMPLE).unwrap();
    assert_eq!(parent, b"java/util/AbstractList".to_vec());
    assert_eq!(others, names(&["Sample", "java/lang/Runnable", "java/lang/StringBuilder"]));
}

#[test]
fn parser_and_decoder_agree_on_compiled_class() {
    let d = decode(&SAMPLE).unwrap();
    let r = extract(&d, ParentPolicy::Required).unwrap();
    assert_eq!(read_file(&SAMPLE), Ok((r.parent_name, r.referenced_names)));
}

#[test]
fn every_cut_of_compiled_class_is_truncated() {
    for n in 0..SAMPLE.len() {
        assert!(
            matches!(decode(&SAMPLE[..n]), Err(DecodeError::Truncated { .. })),
            "cut at {}",
            n
        );
    }
}

#[test]
fn every_cut_of_compiled_class_fails_the_parser_too() {
    for n in 0..SAMPLE.len() {
        let r = read_file(&SAMPLE[..n]);
        assert!(matches!(r, Err(DecodeError::Truncated { .. })), "cut at {}", n);
        assert_eq!(r.err(), decode(&SAMPLE[..n]).err(), "cut at {}", n);
    }
}

#[test]
fn compiled_class_with_one_more_byte_has_trailing_data() {
    let mut bytes = SAMPLE.to_vec();
    bytes.push(0);
    assert_eq!(decode(&bytes), Err(DecodeError::TrailingData { remaining: 1 }));
    assert_eq!(read_file(&bytes), Err(DecodeError::TrailingData { remaining: 1 }));
}

#[test]
fn parser_checks_the_magic_number_and_decoder_does_not() {
    let mut bytes = SAMPLE.to_vec();
    bytes[0] = 0;
    assert_eq!(read_file(&bytes), Err(DecodeError::Rejected));
    let d = decode(&bytes).unwrap();
    assert_eq!(d.parent_index, 2);
}

#[test]
fn zero_pool_count_is_kept_from_parser() {
    let bytes = [0xCA, 0xFE, 0xBA, 0xBE, 0, 0, 0, 52, 0, 0, 0, 0, 0, 0, 0, 0, 0, 0, 0, 0, 0, 0, 0, 0];
    assert!(decode(&bytes).is_ok());
    assert_eq!(read_file(&bytes), Err(DecodeError::Rejected));
    assert_eq!(read_file(&bytes[..10]), Err(DecodeError::Truncated { offset: 10 }));
    assert_eq!(read_file(&bytes[..23]), Err(DecodeError::Truncated { offset: 22 }));
}

fn next_random(state: &mut u64) -> u64 {
    *state = state.wrapping_mul(6364136223846793005).wrapping_add(1442695040888963407);
    *state >> 33
}

fn agree(bytes: &[u8]) -> bool {
    let native = decode(bytes).and_then(|d| extract(&d, ParentPolicy::Required));
    let parsed = read_file(bytes);
    match (native, parsed) {
        (Ok(n), Ok(p)) => n.parent_name == p.0 && n.referenced_names == p.1,
        (Err(n), Err(p)) => n == p,
        (Ok(_), Err(p)) => {
            let zero_count = bytes.len() >= 10 && bytes[8] == 0 && bytes[9] == 0;
            p == DecodeError::Rejected && (bytes[..4] != SAMPLE[..4] || zero_count)
        }
        (Err(_), Ok(_)) => false,
    }
}

#[test]
fn parser_and_decoder_agree_on_damaged_classes() {
    let mut state = 2024u64;
    for round in 0..4000 {
        let mut bytes = SAMPLE.to_vec();
        let changes = 1 + next_random(&mut state) % 3;
        for _ in 0..changes {
            let at = (next_random(&mut state) as usize) % bytes.len();
            bytes[at] = next_random(&mut state) as u8;
        }
        assert!(agree(&bytes), "round {}", round);
    }
}

#[test]
fn parser_and_decoder_agree_on_damaged_symbol_tables() {
    let mut state = 7u64;
    for round in 0..4000 {
        let mut bytes = SAMPLE.to_vec();
        let at = 8 + (next_random(&mut state) as usize) % 400;
        bytes[at] = next_random(&mut state) as u8;
        assert!(agree(&bytes), "round {}", round);
    }
}

#[test]
fn parser_and_decoder_agree_on_shortened_and_lengthened_classes() {
    let mut state = 99u64;
    for round in 0..2000 {
        let mut bytes = SAMPLE.to_vec();
        let at = (next_random(&mut state) as usize) % bytes.len();
        if round % 2 == 0 {
            bytes.remove(at);
        } else {
            bytes.insert(at, next_random(&mut state) as u8);
        }
        assert!(agree(&bytes), "round {}", round);
    }
}
