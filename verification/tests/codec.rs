use winsudo::codec::{decode, encode, encode_arg_into, hex_unit, hex_unit_value, unit_is_plain};

fn wide(s: &str) -> Vec<u16> {
    s.encode_utf16().collect()
}

fn text(units: &[u16]) -> String {
    String::from_utf16(units).unwrap()
}

fn args(items: &[&str]) -> Vec<Vec<u16>> {
    items.iter().map(|s| wide(s)).collect()
}

fn round_trip(items: &[&str]) {
    let v = args(items);
    assert_eq!(decode(&encode(&v)), Some(v));
}

#[test]
fn encode_single_plain_argument() {
    assert_eq!(text(&encode(&args(&["notepad.exe"]))), "notepad.exe,");
}

#[test]
fn encode_empty_vector_is_empty() {
    assert_eq!(text(&encode(&args(&[]))), "");
}

#[test]
fn encode_single_empty_argument() {
    assert_eq!(text(&encode(&args(&[""]))), ",");
}

#[test]
fn encode_escapes_space_quote_separator_and_percent() {
    assert_eq!(text(&encode(&args(&["a b"]))), "a%0020b,");
    assert_eq!(text(&encode(&args(&["\""]))), "%0022,");
    assert_eq!(text(&encode(&args(&[","]))), "%002C,");
    assert_eq!(text(&encode(&args(&["%"]))), "%0025,");
    assert_eq!(text(&encode(&args(&["C:\\x"]))), "C%003A%005Cx,");
}

#[test]
fn encode_escapes_high_units() {
    let v = vec![vec![0xFFFFu16, 0xD83D, 0x00E9, 0x0000]];
    assert_eq!(text(&encode(&v)), "%FFFF%D83D%00E9%0000,");
    assert_eq!(decode(&encode(&v)), Some(v));
}

#[test]
fn encode_several_arguments() {
    assert_eq!(text(&encode(&args(&["whoami", "/priv", "", "x y"]))), "whoami,%002Fpriv,,x%0020y,");
}

#[test]
fn encode_arg_into_appends() {
    let mut out = wide("head ");
    encode_arg_into(&wide("a-b_c.d e"), &mut out);
    assert_eq!(text(&out), "head a-b_c.d%0020e");
}

#[test]
fn encoded_form_has_no_blank_and_no_quote() {
    let v = args(&["a b\tc", "\"quoted\"", "back\\slash", " ", "\n"]);
    let e = encode(&v);
    assert!(e.iter().all(|c| *c != 0x20 && *c != 0x09 && *c != 0x22 && *c != 0x5C && *c > 0x20));
}

#[test]
fn decode_is_inverse_of_encode() {
    round_trip(&[]);
    round_trip(&[""]);
    round_trip(&["", ""]);
    round_trip(&["notepad.exe"]);
    round_trip(&["a b", "\"q\"", "x,y", "100%", "%0020", ",", " "]);
    round_trip(&["cmd", "/c", "echo \"hello world\" > out.txt"]);
}

#[test]
fn decode_single_argument() {
    assert_eq!(decode(&wide("notepad.exe,")), Some(args(&["notepad.exe"])));
}

#[test]
fn decode_empty_input_is_empty_vector() {
    assert_eq!(decode(&wide("")), Some(args(&[])));
}

#[test]
fn decode_rejects_unterminated_argument() {
    assert_eq!(decode(&wide("notepad.exe")), None);
    assert_eq!(decode(&wide("a,b")), None);
}

#[test]
fn decode_rejects_units_outside_the_alphabet() {
    assert_eq!(decode(&wide("a b,")), None);
    assert_eq!(decode(&wide("\"a\",")), None);
    assert_eq!(decode(&wide("a/b,")), None);
}

#[test]
fn decode_rejects_bad_escapes() {
    assert_eq!(decode(&wide("%00,")), None);
    assert_eq!(decode(&wide("%002")), None);
    assert_eq!(decode(&wide("%00G0,")), None);
    assert_eq!(decode(&wide("%002c,")), None);
    assert_eq!(decode(&wide("%0041,")), None);
    assert_eq!(decode(&wide("%")), None);
}

#[test]
fn decode_does_not_split_words() {
    assert_eq!(decode(&wide("a%0020b%0020c,")), Some(args(&["a b c"])));
}

#[test]
fn hex_digits() {
    assert_eq!(hex_unit(0), 0x30);
    assert_eq!(hex_unit(9), 0x39);
    assert_eq!(hex_unit(10), 0x41);
    assert_eq!(hex_unit(15), 0x46);
    assert_eq!(hex_unit_value(0x30), Some(0));
    assert_eq!(hex_unit_value(0x46), Some(15));
    assert_eq!(hex_unit_value(0x47), None);
    assert_eq!(hex_unit_value(0x66), None);
    assert_eq!(hex_unit_value(0x2F), None);
}

#[test]
fn plain_units() {
    for c in "azAZ09-_.".encode_utf16() {
        assert!(unit_is_plain(c));
    }
    for c in " \t\",%/\\:@[`{".encode_utf16() {
        assert!(!unit_is_plain(c));
    }
    assert!(!unit_is_plain(0x00E9));
}

#[test]
fn decode_accepts_encoded_forms_only() {
    for s in ["", ",", ",,", "a,", "a,b,", "%0020,", "a%002Cb,c,", "%FFFF%0000,"] {
        let v = decode(&wide(s)).unwrap();
        assert_eq!(text(&encode(&v)), s);
    }
}
