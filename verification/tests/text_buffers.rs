use zstring::rendering::{bracket, decimal_string};
use zstring::{
    panic_if_null_byte_detected, zstrings_as_zstrs, ArrayZString, ByteSource,
    ZBytesCreationError, ZStr, ZString, ZStringError,
};

fn bytes_of(mut source: impl ByteSource) -> Vec<u8> {
    let mut out = Vec::new();
    while let Some(b) = source.next_byte() {
        out.push(b);
    }
    out
}

#[test]
fn text_with_one_terminator_is_borrowed() {
    let z = ZStr::try_from("abc\0").unwrap();
    assert_eq!(bytes_of(z.bytes()), vec![0x61, 0x62, 0x63]);
    assert_eq!(z.chars().collect(), vec!['a', 'b', 'c']);
    assert_eq!(z.to_string(), "abc");
}

#[test]
fn trailing_terminators_are_not_part_of_the_text() {
    let z1 = ZStr::try_from("abcd\0").unwrap();
    assert_eq!(z1.chars().collect(), vec!['a', 'b', 'c', 'd']);
    let z2 = ZStr::try_from("abcd\0\0\0").unwrap();
    assert_eq!(z2.chars().collect(), vec!['a', 'b', 'c', 'd']);
    assert_eq!(z2.as_zbytes().as_slice_including_null(), b"abcd\0");
    assert!(z1.as_zbytes() == z2.as_zbytes());
}

#[test]
fn borrowed_text_needs_a_terminator() {
    assert!(matches!(ZStr::try_from("abc"), Err(ZStringError::NoTrailingNulls)));
    assert!(matches!(ZStr::try_from(""), Err(ZStringError::NoTrailingNulls)));
    assert!(matches!(ZStr::try_from("ab\0c"), Err(ZStringError::NoTrailingNulls)));
}

#[test]
fn borrowed_text_refuses_interior_nulls() {
    assert!(matches!(ZStr::try_from("ab\0cd\0"), Err(ZStringError::InteriorNulls)));
    assert!(matches!(ZStr::try_from("\0a\0\0"), Err(ZStringError::InteriorNulls)));
}

#[test]
fn terminator_alone_is_the_empty_text() {
    let z = ZStr::try_from("\0").unwrap();
    assert_eq!(z.to_string(), "");
    assert_eq!(z.chars().collect(), Vec::<char>::new());
    let z = ZStr::try_from("\0\0\0").unwrap();
    assert_eq!(z.to_string(), "");
}

#[test]
fn literal_is_borrowed_like_any_text() {
    let z = ZStr::from_lit("foo\0");
    assert_eq!(z.to_string(), "foo");
    assert_eq!(z.to_debug_string(), "\"foo\"");
}

#[test]
fn text_beyond_ascii_reads_back_unchanged() {
    let text = "gr\u{FC}\u{DF}e \u{20AC}5 \u{1F1E6}\u{1F1F9}\0";
    let z = ZStr::try_from(text).unwrap();
    assert_eq!(z.to_string(), "gr\u{FC}\u{DF}e \u{20AC}5 \u{1F1E6}\u{1F1F9}");
    assert_eq!(bytes_of(z.bytes()), "gr\u{FC}\u{DF}e \u{20AC}5 \u{1F1E6}\u{1F1F9}".as_bytes());
}

#[test]
fn owned_text_drops_trailing_terminators() {
    let z = ZString::try_from("foo\0\0\0\0").unwrap();
    assert_eq!(z.to_string(), "foo");
    assert_eq!(z.chars().collect(), vec!['f', 'o', 'o']);
    assert_eq!(bytes_of(z.bytes()), b"foo");
    assert_eq!(bytes_of(z.iter_bytes()), b"foo");
    assert_eq!(z.as_zstr().as_zbytes().as_slice_including_null(), b"foo\0");
}

#[test]
fn owned_text_needs_no_terminator() {
    let z = ZString::try_from("abc").unwrap();
    assert_eq!(z.chars().collect(), vec!['a', 'b', 'c']);
    assert_eq!(z.get_ref().as_zbytes().as_slice_including_null(), b"abc\0");
    let empty = ZString::try_from("").unwrap();
    assert_eq!(empty.to_string(), "");
    assert_eq!(empty.as_zstr().as_zbytes().as_slice_including_null(), b"\0");
}

#[test]
fn owned_text_refuses_interior_nulls() {
    assert!(matches!(ZString::try_from("ab\0c"), Err(ZStringError::InteriorNulls)));
    assert!(matches!(ZString::try_from("ab\0c\0"), Err(ZStringError::InteriorNulls)));
}

#[test]
fn owned_text_is_written_with_and_without_quotes() {
    let z = ZString::try_from("foo").unwrap();
    assert_eq!(z.to_string(), "foo");
    assert_eq!(z.to_debug_string(), "\"foo\"");
}

#[test]
fn clone_holds_the_same_text() {
    let first = ZString::try_from("abc").unwrap();
    let second = first.clone();
    assert_eq!(first.chars().collect(), second.chars().collect());
    assert_eq!(second.to_string(), "abc");
    assert_ne!(
        first.as_zstr().as_zbytes().as_slice_including_null().as_ptr(),
        second.as_zstr().as_zbytes().as_slice_including_null().as_ptr()
    );
}

#[test]
fn owned_text_is_copied_from_a_borrowed_one() {
    let borrowed = ZStr::try_from("h\u{E9}llo\0\0").unwrap();
    let owned = ZString::from(borrowed);
    assert_eq!(owned.to_string(), "h\u{E9}llo");
    assert_eq!(owned.as_zstr().as_zbytes().as_slice_including_null(), "h\u{E9}llo\0".as_bytes());
}

#[test]
fn owned_text_is_made_from_characters() {
    let z = ZString::from_chars(&['h', '\u{E9}', '\u{20AC}']);
    assert_eq!(z.to_string(), "h\u{E9}\u{20AC}");
    assert_eq!(z.as_zstr().as_zbytes().as_slice_including_null(), "h\u{E9}\u{20AC}\0".as_bytes());
    let empty = ZString::from_chars(&[]);
    assert_eq!(empty.as_zstr().as_zbytes().as_slice_including_null(), b"\0");
}

#[test]
fn boxed_text_is_taken_over_in_place() {
    let boxed: Box<str> = String::from("caf\u{E9}\0").into_boxed_str();
    let address = boxed.as_ptr();
    let z = ZString::try_from(boxed).unwrap();
    assert_eq!(z.to_string(), "caf\u{E9}");
    assert_eq!(z.as_zstr().as_zbytes().as_slice_including_null().as_ptr(), address);
}

#[test]
fn boxed_text_must_be_terminated_exactly_once() {
    let r = ZString::try_from(String::from("abc").into_boxed_str());
    assert!(matches!(r, Err(ZBytesCreationError::NullTerminatorMissing)));
    let r = ZString::try_from(String::new().into_boxed_str());
    assert!(matches!(r, Err(ZBytesCreationError::NullTerminatorMissing)));
    let r = ZString::try_from(String::from("abc\0\0").into_boxed_str());
    assert!(matches!(r, Err(ZBytesCreationError::InteriorNull)));
    let r = ZString::try_from(String::from("a\0c\0").into_boxed_str());
    assert!(matches!(r, Err(ZBytesCreationError::InteriorNull)));
}

#[test]
fn array_text_fits_with_room_for_the_terminator() {
    let arr: ArrayZString<16> = ArrayZString::try_from("hello").unwrap();
    assert_eq!(arr.as_str(), "hello");
    assert_eq!(arr.to_string(), "hello");
    assert_eq!(arr.to_debug_string(), "\"hello\"");
    assert_eq!(arr.chars().collect(), vec!['h', 'e', 'l', 'l', 'o']);
    assert_eq!(bytes_of(arr.bytes()), b"hello");
    assert_eq!(arr.as_zstr().to_string(), "hello");
    assert!(ArrayZString::<6>::try_from("hello").is_ok());
    assert!(ArrayZString::<6>::try_from("hello\0\0\0\0").is_ok());
}

#[test]
fn array_text_refuses_interior_nulls_and_what_does_not_fit() {
    let interior: Option<ZStringError> = ArrayZString::<16>::try_from("hel\0lo").err().unwrap();
    assert_eq!(interior, Some(ZStringError::InteriorNulls));
    let capacity: Option<ZStringError> = ArrayZString::<5>::try_from("hello").err().unwrap();
    assert_eq!(capacity, None);
    let both: Option<ZStringError> = ArrayZString::<2>::try_from("hel\0lo").err().unwrap();
    assert_eq!(both, Some(ZStringError::InteriorNulls));
    assert_eq!(ArrayZString::<0>::try_from("").err().unwrap(), None);
}

#[test]
fn default_array_text_is_empty() {
    let arr = ArrayZString::<4>::const_default();
    assert_eq!(arr.as_str(), "");
    assert_eq!(arr.chars().collect(), Vec::<char>::new());
    let same: ArrayZString<4> = Default::default();
    assert!(arr == same);
    let none = ArrayZString::<0>::const_default();
    assert_eq!(none.to_string(), "");
}

#[test]
fn array_texts_are_equal_when_their_texts_are() {
    let a: ArrayZString<8> = ArrayZString::try_from("abc").unwrap();
    let b: ArrayZString<8> = ArrayZString::try_from("abc\0\0").unwrap();
    let c: ArrayZString<8> = ArrayZString::try_from("abd").unwrap();
    let d: ArrayZString<8> = ArrayZString::try_from("ab").unwrap();
    assert!(a == b);
    assert!(a != c);
    assert!(a != d);
}

#[test]
fn literal_bytes_without_a_zero_are_handed_back() {
    let bytes = b"initscr";
    let back = panic_if_null_byte_detected(bytes);
    assert_eq!(back, b"initscr");
    assert_eq!(back.as_ptr(), bytes.as_ptr());
}

#[test]
fn list_of_strings_is_written_between_brackets() {
    assert_eq!(bracket(&[]), "[]");
    assert_eq!(bracket(&[String::from("a")]), "[a]");
    assert_eq!(bracket(&[String::from("20"), String::from("41"), String::new()]), "[20, 41, ]");
    assert_eq!(decimal_string(0), "0");
    assert_eq!(decimal_string(9), "9");
    assert_eq!(decimal_string(10), "10");
    assert_eq!(decimal_string(105), "105");
    assert_eq!(decimal_string(255), "255");
}

#[test]
fn text_buffers_with_the_same_text_are_equal() {
    let a = ZStr::try_from("abc\0").unwrap();
    let b = ZStr::try_from("abc\0\0\0").unwrap();
    let c = ZStr::try_from("abd\0").unwrap();
    let d = ZStr::try_from("ab\0").unwrap();
    assert!(a == b);
    assert!(a != c);
    assert!(a != d);
    let owned = ZString::try_from("abc").unwrap();
    let copy = owned.clone();
    let other = ZString::try_from("abcd").unwrap();
    assert!(owned == copy);
    assert!(owned != other);
    assert!(owned.as_zstr() == a);
}

#[test]
fn owned_buffers_are_borrowed_in_order() {
    let zstrings = [ZString::try_from("hello").unwrap(), ZString::try_from("world").unwrap()];
    let zstrs = zstrings_as_zstrs(&zstrings);
    assert_eq!(zstrs.len(), 2);
    assert_eq!(zstrs[0].to_string(), "hello");
    assert_eq!(zstrs[1].to_string(), "world");
    assert!(zstrings_as_zstrs(&[]).is_empty());
}

#[test]
fn vouched_for_text_is_taken_over_unchecked() {
    let z = ZString::new_unchecked(String::from("abc\0").into_boxed_str());
    assert_eq!(z.to_string(), "abc");
    let z = ZString::from_boxed_str_unchecked(String::from("\u{E9}\0").into_boxed_str());
    assert_eq!(z.to_string(), "\u{E9}");
    assert_eq!(bytes_of(z.bytes()), vec![0xC3, 0xA9]);
}
