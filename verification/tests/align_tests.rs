use alinio::align;
use unicode_width::UnicodeWidthStr;

fn frags(xs: &[&str]) -> Vec<String> {
    xs.iter().map(|s| s.to_string()).collect()
}

#[test]
fn test_center_align() {
    // Test with normal usage but odd left over space
    let out = align::center("hello, world!", 20);
    let expected = "   hello, world!    ".to_string();
    assert_eq!(out, Some(expected));
    assert_eq!(out.unwrap().width(), 20);
    // Test with normal usage but even left over space
    let out = align::center("hello, world!", 21);
    let expected = "    hello, world!    ".to_string();
    assert_eq!(out, Some(expected));
    assert_eq!(out.unwrap().width(), 21);
    // Test returning None when there isn't enough space
    let out = align::center("too long!", 2);
    let expected = None;
    assert_eq!(out, expected);
    // Test behaviour with zero space
    let out = align::center("too long!", 0);
    let expected = None;
    assert_eq!(out, expected);
    // Test behaviour with empty string
    let out = align::center("", 5);
    let expected = "     ".to_string();
    assert_eq!(out, Some(expected));
    assert_eq!(out.unwrap().width(), 5);
    // Test behaviour with empty string and zero space
    let out = align::center("", 0);
    let expected = "".to_string();
    assert_eq!(out, Some(expected));
    assert_eq!(out.unwrap().width(), 0);
    // Test behaviour with predefined space
    let out = align::center("  ", 4);
    let expected = "    ".to_string();
    assert_eq!(out, Some(expected));
    assert_eq!(out.unwrap().width(), 4);
}

#[test]
fn test_left_align() {
    // Test with normal usage
    let out = align::left("hello, world!", 20);
    let expected = "hello, world!       ".to_string();
    assert_eq!(out, Some(expected));
    assert_eq!(out.unwrap().width(), 20);
    // Test returning None when there isn't enough space
    let out = align::left("hello, world!", 3);
    let expected = None;
    assert_eq!(out, expected);
    // Test with zero space
    let out = align::left("hello, world!", 0);
    let expected = None;
    assert_eq!(out, expected);
    // Test behaviour with empty string and zero space
    let out = align::left("", 0);
    let expected = "".to_string();
    assert_eq!(out, Some(expected));
    assert_eq!(out.unwrap().width(), 0);
    // Test behaviour with predefined space
    let out = align::center("  ", 6);
    let expected = "      ".to_string();
    assert_eq!(out, Some(expected));
    assert_eq!(out.unwrap().width(), 6);
}

#[test]
fn test_right_align() {
    // Test with normal usage
    let out = align::right("hello, world!", 20);
    let expected = "       hello, world!".to_string();
    assert_eq!(out, Some(expected));
    assert_eq!(out.unwrap().width(), 20);
    // Test returning None when there isn't enough space
    let out = align::right("hello, world!", 3);
    let expected = None;
    assert_eq!(out, expected);
    // Test with zero space
    let out = align::right("hello, world!", 0);
    let expected = None;
    assert_eq!(out, expected);
    // Test behaviour with empty string and zero space
    let out = align::right("", 0);
    let expected = "".to_string();
    assert_eq!(out, Some(expected));
    assert_eq!(out.unwrap().width(), 0);
    // Test behaviour with predefined space
    let out = align::right("  ", 6);
    let expected = "      ".to_string();
    assert_eq!(out, Some(expected));
    assert_eq!(out.unwrap().width(), 6);
}

#[test]
fn test_between_align() {
    // Test with 2 inputs
    let out = align::between(&frags(&["hello", "world!"]), 20);
    let expected = "hello         world!".to_string();
    assert_eq!(out, Some(expected));
    assert_eq!(out.unwrap().width(), 20);
    // Test with 3 inputs
    let out = align::between(&frags(&["NORMAL", "test.txt", "20/25"]), 23);
    let expected = "NORMAL  test.txt  20/25".to_string();
    assert_eq!(out, Some(expected));
    assert_eq!(out.unwrap().width(), 23);
    // Test with 4 inputs
    let out = align::between(&frags(&["Title", "Artist", "Album", "Year"]), 25);
    let expected = "Title  Artist  Album Year".to_string();
    assert_eq!(out, Some(expected));
    assert_eq!(out.unwrap().width(), 25);
    // Test not enough space on 2
    let out = align::between(&frags(&["hello", "world!"]), 4);
    let expected = None;
    assert_eq!(out, expected);
    // Test not enough space on 3
    let out = align::between(&frags(&["NORMAL", "test.txt", "20/25"]), 2);
    let expected = None;
    assert_eq!(out, expected);
    // Test not enough space on 4
    let out = align::between(&frags(&["Title", "Artist", "Album", "Year"]), 10);
    let expected = None;
    assert_eq!(out, expected);
    // Test with 0 inputs
    let out = align::between(&frags(&[]), 10);
    let expected = "          ".to_string();
    assert_eq!(out, Some(expected));
    assert_eq!(out.unwrap().width(), 10);
    // Test with 0 inputs and space 0
    let out = align::between(&frags(&[]), 0);
    let expected = "".to_string();
    assert_eq!(out, Some(expected));
    assert_eq!(out.unwrap().width(), 0);
    // Test with 1 input
    let out = align::between(&frags(&["yeet"]), 10);
    let expected = "yeet      ".to_string();
    assert_eq!(out, Some(expected));
    assert_eq!(out.unwrap().width(), 10);
    // Test with a few empty inputs
    let out = align::between(&frags(&["", "", "", "", "", "", "", ""]), 10);
    let expected = "          ".to_string();
    assert_eq!(out, Some(expected));
    assert_eq!(out.unwrap().width(), 10);
    // Test with a few predefined spaces
    let out = align::between(&frags(&[" ", "  ", "   ", " ", " ", "   ", " ", ""]), 12);
    let expected = "            ".to_string();
    assert_eq!(out, Some(expected));
    assert_eq!(out.unwrap().width(), 12);
}

#[test]
fn test_around_align() {
    // Test with 2 inputs
    let out = align::around(&frags(&["hello", "world!"]), 20);
    let expected = "   hello   world!   ".to_string();
    assert_eq!(out, Some(expected));
    assert_eq!(out.unwrap().width(), 20);
    // Test with 3 inputs
    let out = align::around(&frags(&["NORMAL", "test.txt", "20/25"]), 23);
    let expected = " NORMAL test.txt 20/25 ".to_string();
    assert_eq!(out, Some(expected));
    assert_eq!(out.unwrap().width(), 23);
    // Test with 4 inputs
    let out = align::around(&frags(&["Title", "Artist", "Album", "Year"]), 25);
    let expected = " Title Artist Album Year ".to_string();
    assert_eq!(out, Some(expected));
    assert_eq!(out.unwrap().width(), 25);
    // Test not enough space on 2
    let out = align::around(&frags(&["hello", "world!"]), 4);
    let expected = None;
    assert_eq!(out, expected);
    // Test not enough space on 3
    let out = align::around(&frags(&["NORMAL", "test.txt", "20/25"]), 2);
    let expected = None;
    assert_eq!(out, expected);
    // Test not enough space on 4
    let out = align::around(&frags(&["Title", "Artist", "Album", "Year"]), 10);
    let expected = None;
    assert_eq!(out, expected);
    // Test with 0 inputs
    let out = align::around(&frags(&[]), 10);
    let expected = "          ".to_string();
    assert_eq!(out, Some(expected));
    assert_eq!(out.unwrap().width(), 10);
    // Test with 0 inputs and space 0
    let out = align::around(&frags(&[]), 0);
    let expected = "".to_string();
    assert_eq!(out, Some(expected));
    assert_eq!(out.unwrap().width(), 0);
    // Test with 1 input
    let out = align::around(&frags(&["yeet"]), 10);
    let expected = "   yeet   ".to_string();
    assert_eq!(out, Some(expected));
    assert_eq!(out.unwrap().width(), 10);
    // Test with a few empty inputs
    let out = align::around(&frags(&["", "", "", "", "", "", "", ""]), 10);
    let expected = "          ".to_string();
    assert_eq!(out, Some(expected));
    assert_eq!(out.unwrap().width(), 10);
    // Test with a few predefined spaces
    let out = align::around(&frags(&[" ", "  ", "   ", " ", " ", "   ", " ", ""]), 12);
    let expected = "            ".to_string();
    assert_eq!(out, Some(expected));
    assert_eq!(out.unwrap().width(), 12);
}
