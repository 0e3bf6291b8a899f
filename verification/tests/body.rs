use class_refs::body::decode_body;
use class_refs::body::skip_attribute;
use class_refs::body::skip_attributes;
use class_refs::body::skip_member;
use class_refs::body::skip_members;
use class_refs::body::DescriptorHeader;
use class_refs::cursor::Cursor;
use class_refs::error::DecodeError;

#[test]
fn attribute_is_name_length_and_content() {
    let bytes = [0, 9, 0, 0, 0, 3, 1, 2, 3, 0xFF];
    let mut c = Cursor::new(&bytes);
    assert_eq!(skip_attribute(&mut c), Ok(()));
    assert_eq!(c.position(), 9);
}

#[test]
fn truncated_attribute_says_where() {
    let bytes = [0, 9, 0, 0, 0, 3, 1, 2];
    let mut c = Cursor::new(&bytes);
    assert_eq!(skip_attribute(&mut c), Err(DecodeError::Truncated { offset: 6 }));
    let mut c = Cursor::new(&bytes[..5]);
    assert_eq!(skip_attribute(&mut c), Err(DecodeError::Truncated { offset: 2 }));
    let mut c = Cursor::new(&bytes[..1]);
    assert_eq!(skip_attribute(&mut c), Err(DecodeError::Truncated { offset: 0 }));
}

#[test]
fn attribute_length_of_four_bytes_is_honoured() {
    let bytes = [0, 1, 0xFF, 0xFF, 0xFF, 0xFF, 0];
    let mut c = Cursor::new(&bytes);
    assert_eq!(skip_attribute(&mut c), Err(DecodeError::Truncated { offset: 6 }));
}

#[test]
fn attribute_list_gives_its_count() {
    let bytes = [0, 2, 0, 1, 0, 0, 0, 0, 0, 2, 0, 0, 0, 1, 7, 5];
    let mut c = Cursor::new(&bytes);
    assert_eq!(skip_attributes(&mut c), Ok(2));
    assert_eq!(c.position(), 15);
    let mut c = Cursor::new(&bytes[..14]);
    assert_eq!(skip_attributes(&mut c), Err(DecodeError::Truncated { offset: 14 }));
    let empty = [0, 0, 7];
    let mut c = Cursor::new(&empty);
    assert_eq!(skip_attributes(&mut c), Ok(0));
    assert_eq!(c.position(), 2);
}

#[test]
fn member_is_three_fields_and_attributes() {
    let bytes = [0, 1, 0, 2, 0, 3, 0, 1, 0, 4, 0, 0, 0, 2, 8, 9, 0xFF];
    let mut c = Cursor::new(&bytes);
    assert_eq!(skip_member(&mut c), Ok(()));
    assert_eq!(c.position(), 16);
    let mut c = Cursor::new(&bytes[..5]);
    assert_eq!(skip_member(&mut c), Err(DecodeError::Truncated { offset: 0 }));
    let mut c = Cursor::new(&bytes[..7]);
    assert_eq!(skip_member(&mut c), Err(DecodeError::Truncated { offset: 6 }));
}

#[test]
fn member_list_gives_its_count() {
    let bytes = [0, 2, 0, 1, 0, 2, 0, 3, 0, 0, 0, 1, 0, 2, 0, 3, 0, 1, 0, 4, 0, 0, 0, 0];
    let mut c = Cursor::new(&bytes);
    assert_eq!(skip_members(&mut c), Ok(2));
    assert_eq!(c.position(), 24);
    let mut c = Cursor::new(&bytes[..23]);
    assert_eq!(skip_members(&mut c), Err(DecodeError::Truncated { offset: 20 }));
}

fn sample_body() -> Vec<u8> {
    let mut b = vec![0x00, 0x21, 0x00, 0x05, 0x00, 0x02];
    // two interfaces
    b.extend_from_slice(&[0, 2, 0, 7, 0, 8]);
    // one field with one attribute of two bytes
    b.extend_from_slice(&[0, 1, 0, 0, 0, 1, 0, 2, 0, 1, 0, 9, 0, 0, 0, 2, 0xAA, 0xBB]);
    // two methods without attributes
    b.extend_from_slice(&[0, 2, 0, 0, 0, 1, 0, 2, 0, 0, 0, 0, 0, 3, 0, 4, 0, 0]);
    // one trailing attribute of one byte
    b.extend_from_slice(&[0, 1, 0, 3, 0, 0, 0, 1, 0xCC]);
    b
}

#[test]
fn body_keeps_references_counts_and_extents() {
    let bytes = sample_body();
    let mut c = Cursor::new(&bytes);
    assert_eq!(
        decode_body(&mut c),
        Ok(DescriptorHeader {
            self_index: 5,
            parent_index: 2,
            interface_count: 2,
            interfaces_extent: 4,
            field_count: 1,
            fields_extent: 16,
            method_count: 2,
            methods_extent: 16,
            attribute_count: 1,
            attributes_extent: 7,
        })
    );
    assert_eq!(c.position(), bytes.len());
    assert_eq!(c.assert_exhausted(), Ok(()));
}

#[test]
fn body_cut_anywhere_is_truncated() {
    let bytes = sample_body();
    for n in 0..bytes.len() {
        let mut c = Cursor::new(&bytes[..n]);
        assert!(matches!(decode_body(&mut c), Err(DecodeError::Truncated { .. })), "cut at {}", n);
    }
}

#[test]
fn empty_body_has_no_lists() {
    let bytes = [0, 0, 0, 1, 0, 0, 0, 0, 0, 0, 0, 0, 0, 0];
    let mut c = Cursor::new(&bytes);
    assert_eq!(
        decode_body(&mut c),
        Ok(DescriptorHeader {
            self_index: 1,
            parent_index: 0,
            interface_count: 0,
            interfaces_extent: 0,
            field_count: 0,
            fields_extent: 0,
            method_count: 0,
            methods_extent: 0,
            attribute_count: 0,
            attributes_extent: 0,
        })
    );
}

#[test]
fn interfaces_take_two_bytes_each() {
    let bytes = [0, 0, 0, 1, 0, 2, 0, 3, 0, 1, 0, 2];
    let mut c = Cursor::new(&bytes);
    assert_eq!(decode_body(&mut c), Err(DecodeError::Truncated { offset: 8 }));
}
