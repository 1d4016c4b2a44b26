use zstring::terminator::{contains_nul, nul_position_of, validate};
use zstring::text::trimmed_len_of;
use zstring::{ByteSource, ZBytes, ZBytesCreationError, ZBytesMut, ZBytesRef};

fn content(z: ZBytesRef<'_>) -> Vec<u8> {
    let mut it = z.iter();
    let mut out = Vec::new();
    while let Some(b) = it.next() {
        out.push(*b);
    }
    out
}

#[test]
fn terminated_region_is_accepted() {
    let z = ZBytesRef::try_from(&[0x61u8, 0x62, 0x63, 0][..]).unwrap();
    assert_eq!(content(z), vec![0x61, 0x62, 0x63]);
}

#[test]
fn region_of_the_terminator_alone_has_empty_content() {
    let z = ZBytesRef::try_from(&[0u8][..]).unwrap();
    assert_eq!(content(z), Vec::<u8>::new());
    assert_eq!(z.to_string(), "[]");
}

#[test]
fn empty_region_lacks_its_terminator() {
    let r = ZBytesRef::try_from(&[][..]);
    assert!(matches!(r, Err(ZBytesCreationError::NullTerminatorMissing)));
}

#[test]
fn region_that_does_not_end_in_zero_lacks_its_terminator() {
    let r = ZBytesRef::try_from(&[1u8, 2, 3][..]);
    assert!(matches!(r, Err(ZBytesCreationError::NullTerminatorMissing)));
    let r = ZBytesRef::try_from(&[1u8, 0, 3][..]);
    assert!(matches!(r, Err(ZBytesCreationError::NullTerminatorMissing)));
    let r = ZBytesRef::try_from("ab\0c");
    assert!(matches!(r, Err(ZBytesCreationError::NullTerminatorMissing)));
}

#[test]
fn zero_before_the_final_position_is_an_interior_null() {
    let r = ZBytesRef::try_from(&[1u8, 0, 3, 0][..]);
    assert!(matches!(r, Err(ZBytesCreationError::InteriorNull)));
    let r = ZBytesRef::try_from(&[0u8, 0][..]);
    assert!(matches!(r, Err(ZBytesCreationError::InteriorNull)));
    let r = ZBytesRef::try_from(b"foo\0\0");
    assert!(matches!(r, Err(ZBytesCreationError::InteriorNull)));
}

#[test]
fn validation_gives_the_same_verdict_as_construction() {
    assert_eq!(validate(&[]), Err(ZBytesCreationError::NullTerminatorMissing));
    assert_eq!(validate(&[5]), Err(ZBytesCreationError::NullTerminatorMissing));
    assert_eq!(validate(&[0, 5]), Err(ZBytesCreationError::NullTerminatorMissing));
    assert_eq!(validate(&[0, 5, 0]), Err(ZBytesCreationError::InteriorNull));
    assert_eq!(validate(&[5, 0]), Ok(()));
    assert_eq!(validate(&[0]), Ok(()));
}

#[test]
fn whole_region_includes_the_terminator() {
    let region = [9u8, 8, 7, 0];
    let z = ZBytesRef::try_from(&region).unwrap();
    assert_eq!(z.as_slice_including_null(), &[9, 8, 7, 0]);
    assert_eq!(z.as_slice_including_null().as_ptr(), region.as_ptr());
}

#[test]
fn pass_over_the_content_stays_ended() {
    let z = ZBytesRef::try_from(b"hi\0").unwrap();
    let mut it = z.iter();
    assert_eq!(it.next(), Some(&b'h'));
    assert_eq!(it.next(), Some(&b'i'));
    assert_eq!(it.next(), None);
    assert_eq!(it.next(), None);
    let mut again = z.iter();
    assert_eq!(again.next_byte(), Some(b'h'));
    let mut copy = again.clone();
    assert_eq!(again.next_byte(), Some(b'i'));
    assert_eq!(copy.next_byte(), Some(b'i'));
    assert_eq!(copy.next_byte(), None);
}

#[test]
fn buffers_with_the_same_content_are_equal() {
    let first = [1u8, 2, 3, 0];
    let second = vec![1u8, 2, 3, 0];
    let a = ZBytesRef::try_from(&first).unwrap();
    let b = ZBytesRef::try_from(second.as_slice()).unwrap();
    assert!(a == b);
    assert!(a == a);
    let shorter = ZBytesRef::try_from(&[1u8, 2, 0]).unwrap();
    assert!(a != shorter);
    assert!(shorter != a);
    let other = ZBytesRef::try_from(&[1u8, 2, 4, 0]).unwrap();
    assert!(a != other);
}

#[test]
fn buffer_equals_the_slice_of_its_content() {
    let a = ZBytesRef::try_from(b"abc\0").unwrap();
    let same: &[u8] = b"abc";
    let with_terminator: &[u8] = b"abc\0";
    let different: &[u8] = b"abd";
    assert!(a == same);
    assert!(same == a);
    assert!(a != with_terminator);
    assert!(with_terminator != a);
    assert!(a != different);
}

#[test]
fn byte_buffer_is_written_as_a_list_of_decimal_numbers() {
    assert_eq!(ZBytesRef::try_from(&[7u8, 0]).unwrap().to_string(), "[7]");
    let z = ZBytesRef::try_from(&[1u8, 10, 99, 100, 209, 255, 0]).unwrap();
    assert_eq!(z.to_string(), "[1, 10, 99, 100, 209, 255]");
}

#[test]
fn owned_buffer_takes_a_terminated_region() {
    let z = ZBytes::try_from(vec![104u8, 105, 0].into_boxed_slice()).unwrap();
    assert_eq!(content(z.get_ref()), vec![104, 105]);
    let mut it = z.iter();
    assert_eq!(it.next_byte(), Some(104));
    assert_eq!(it.next_byte(), Some(105));
    assert_eq!(it.next_byte(), None);
    assert_eq!(z.to_string(), "[104, 105]");
}

#[test]
fn owned_buffer_refuses_what_is_not_terminated() {
    let r = ZBytes::try_from(Vec::<u8>::new().into_boxed_slice());
    assert!(matches!(r, Err(ZBytesCreationError::NullTerminatorMissing)));
    let r = ZBytes::try_from(vec![1u8, 2].into_boxed_slice());
    assert!(matches!(r, Err(ZBytesCreationError::NullTerminatorMissing)));
    let r = ZBytes::try_from(vec![1u8, 0, 2, 0].into_boxed_slice());
    assert!(matches!(r, Err(ZBytesCreationError::InteriorNull)));
}

#[test]
fn mutable_buffer_refuses_what_is_not_terminated() {
    let mut empty: [u8; 0] = [];
    let r = ZBytesMut::try_from(&mut empty);
    assert!(matches!(r, Err(ZBytesCreationError::NullTerminatorMissing)));
    let mut open = [1u8, 2];
    let r = ZBytesMut::try_from(&mut open[..]);
    assert!(matches!(r, Err(ZBytesCreationError::NullTerminatorMissing)));
    assert_eq!(open, [1, 2]);
    let mut split = [1u8, 0, 2, 0];
    assert!(matches!(ZBytesMut::try_from(&mut split), Err(ZBytesCreationError::InteriorNull)));
    assert_eq!(split, [1, 0, 2, 0]);
}

#[test]
fn mutable_buffer_reads_like_a_borrowed_one() {
    let mut region = [b'a', b'b', 0];
    let z = ZBytesMut::try_from(&mut region[..]).unwrap();
    assert_eq!(content(z.get_ref()), vec![b'a', b'b']);
    assert_eq!(z.to_string(), "[97, 98]");
    let mut it = z.iter();
    assert_eq!(it.next_byte(), Some(b'a'));
}

#[test]
fn mutable_pass_lends_out_each_byte_of_the_content() {
    let mut region = [b'a', b'b', b'c', 0];
    let z = ZBytesMut::try_from(&mut region).unwrap();
    let mut it = z.iter_mut();
    let mut seen = Vec::new();
    while let Some(b) = it.next() {
        seen.push(*b);
        *b = b.to_ascii_uppercase();
    }
    assert!(it.next().is_none());
    assert_eq!(seen, vec![b'a', b'b', b'c']);
    assert_eq!(region, [b'A', b'B', b'C', 0]);
}

#[test]
fn first_nul_and_trailing_nuls_are_found() {
    assert_eq!(nul_position_of(&[]), 0);
    assert_eq!(nul_position_of(&[1, 2, 3]), 3);
    assert_eq!(nul_position_of(&[1, 0, 3, 0]), 1);
    assert!(!contains_nul(&[]));
    assert!(!contains_nul(&[1, 2]));
    assert!(contains_nul(&[1, 0, 2]));
    assert_eq!(trimmed_len_of(&[]), 0);
    assert_eq!(trimmed_len_of(&[0, 0]), 0);
    assert_eq!(trimmed_len_of(&[1, 0, 2, 0, 0]), 3);
    assert_eq!(trimmed_len_of(&[1, 2]), 2);
}

#[test]
fn vouched_for_regions_are_borrowed_unchecked() {
    let region = [5u8, 6, 0];
    let z = ZBytesRef::from_non_null_unchecked(&region);
    assert_eq!(content(z), vec![5, 6]);
    let owned = ZBytes::from_boxed_slice_unchecked(vec![7u8, 0].into_boxed_slice());
    assert_eq!(content(owned.get_ref()), vec![7]);
    let mut writable = [8u8, 9, 0];
    let z = ZBytesMut::from_non_null_unchecked(&mut writable);
    assert_eq!(content(z.get_ref()), vec![8, 9]);
}

#[test]
fn mutable_pass_over_an_empty_content_lends_nothing() {
    let mut region = [0u8];
    let z = ZBytesMut::try_from(&mut region).unwrap();
    let mut it = z.iter_mut();
    assert!(it.next().is_none());
    assert!(it.next().is_none());
}

#[test]
fn byte_of_the_content_is_overwritten_in_place() {
    let mut region = [b'a', b'b', 0];
    let mut z = ZBytesMut::try_from(&mut region).unwrap();
    z.set(1, b'X');
    assert_eq!(z.to_string(), "[97, 88]");
    assert_eq!(content(z.get_ref()), vec![b'a', b'X']);
    assert_eq!(region, [b'a', b'X', 0]);
}
