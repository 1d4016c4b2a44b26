use bstr::ByteSlice;
use zstring::{CharDecoder, SliceBytes};

#[test]
fn bstr_example() {
    let bytes = *b"a\xF0\x9F\x87z";
    let chars: Vec<char> = CharDecoder::from(SliceBytes::new(&bytes)).collect();
    assert_eq!(vec!['a', '\u{FFFD}', 'z'], chars);
}

#[test]
fn fuzz_found_data() {
    // A lead byte that asks for three continuation bytes, one continuation
    // byte, and then the end of the input. A decoder that can look at the
    // whole input sees at once that the sequence cannot be completed: it
    // replaces the lead byte alone, and then the stray continuation byte.
    // This decoder looks one byte ahead only. It takes the continuation byte
    // into the sequence before it can know that the input ends, and gives one
    // replacement character for both bytes.
    let bytes = [0b11110101, 0b10101111];

    let s_lossy = String::from_utf8_lossy(&bytes);
    let s_bstr = bytes.chars().collect::<String>();
    assert_eq!(s_lossy, s_bstr);
    assert_eq!(s_lossy, "\u{FFFD}\u{FFFD}");

    let s_decoded = CharDecoder::from(SliceBytes::new(&bytes)).collect_string();
    assert_eq!(s_decoded, "\u{FFFD}");
}

#[test]
fn decoder_agrees_with_whole_input_decoders_on_the_bstr_example() {
    let bytes = *b"a\xF0\x9F\x87z";
    let s_lossy = String::from_utf8_lossy(&bytes);
    let s_bstr = bytes.chars().collect::<String>();
    let s_decoded = CharDecoder::from(SliceBytes::new(&bytes)).collect_string();
    assert_eq!(s_lossy, s_bstr);
    assert_eq!(s_lossy, s_decoded);
}
