use nix_doc::convert_endings;
use nix_doc::find_pos;

#[test]
fn test_line_conversion() {
    let fakefile = "abc\rdef\r\nghi";
    assert_eq!(convert_endings(fakefile), "abc\ndef\nghi");
}

#[test]
fn test_bytepos() {
    let fakefile = "abc\ndef\nghi";
    assert_eq!(find_pos(fakefile, 2, 2), 5);
}

#[test]
fn test_bytepos_unusual() {
    let fakefile = convert_endings("abc\rdef\r\nghi");
    assert_eq!(find_pos(&fakefile, 2, 2), 5);
    assert_eq!(find_pos(&fakefile, 3, 2), 9);
}

/// This test is to check that we correctly resolve byte positions even when
/// inconsistent with character positions.
#[test]
fn test_bytepos_cursed() {
    let fakefile = "hello\nwórld";
    // The `r` after the multi-byte character, which would be wrong if the
    // column were a character count.
    let pos = find_pos(fakefile, 2, 4);
    assert_eq!(pos, 9)
}

#[test]
fn resolving_inverts_line_counting() {
    // Offset 4 in "ab\ncd" is the `d`: one newline before it at offset 2,
    // so line 2; the column is the offset minus the newline's index.
    let s = "ab\ncd";
    assert_eq!(find_pos(s, 2, 4 - 2), 4);
    // Offset 1 lies on line 1, where the resolver adds the column to the
    // start of the text.
    assert_eq!(find_pos(s, 1, 1), 1);
}

#[test]
fn resolution_is_convention_independent() {
    let mixed = convert_endings("abc\rdef\r\nghi");
    let plain = convert_endings("abc\ndef\nghi");
    assert_eq!(mixed, plain);
    assert_eq!(find_pos(&mixed, 2, 2), find_pos(&plain, 2, 2));
    assert_eq!(find_pos(&mixed, 3, 2), find_pos(&plain, 3, 2));
}

#[test]
fn conversion_keeps_lone_newlines_and_maps_lone_returns() {
    assert_eq!(convert_endings("a\rb"), "a\nb");
    assert_eq!(convert_endings("a\r\rb"), "a\n\nb");
    assert_eq!(convert_endings(""), "");
    assert_eq!(convert_endings("plain"), "plain");
}
