use minigrep::fold::fold;

#[test]
fn ascii_letters_are_folded_to_lowercase() {
    assert_eq!(fold("Hello, WORLD! [\\]^_`{|}~@AZaz09"), b"hello, world! [\\]^_`{|}~@azaz09".to_vec());
    assert_eq!(fold(""), Vec::<u8>::new());
}

#[test]
fn other_text_is_folded_by_the_standard_library() {
    assert_eq!(fold("ÉCOLE"), "école".as_bytes().to_vec());
    assert_eq!(fold("ΑΣ"), "ας".as_bytes().to_vec());
    assert_eq!(fold("\u{130}"), "i\u{307}".as_bytes().to_vec());
}

#[test]
fn the_fold_of_ascii_text_is_its_lowercase_form() {
    for code in 0u8..128 {
        let text = String::from(code as char);
        assert_eq!(fold(&text), text.to_lowercase().into_bytes());
    }
    let mixed = "The Quick BROWN fox";
    assert_eq!(fold(mixed), mixed.to_lowercase().into_bytes());
}
