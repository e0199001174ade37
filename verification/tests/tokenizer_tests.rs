use rtlib::pbrt_v4_tokenizer::{find_offsets, PBRTTokenizer};

fn tokens(text: &str) -> Vec<String> {
    let mut tokenizer = PBRTTokenizer::new(text);
    let mut out = Vec::new();
    while let Some(token) = tokenizer.next() {
        out.push(String::from_utf8(token.to_vec()).unwrap());
    }
    out
}

#[test]
fn tokens_of_a_parameter_list() {
    let text = " [ 0 0   1 0 \"pero fov\" 1 1   0 1 2.2\t3.3]        \"5\"";
    assert_eq!(
        vec!["[", "0", "0", "1", "0", "pero fov", "1", "1", "0", "1", "2.2", "3.3", "]", "5"],
        tokens(text)
    );
}

#[test]
fn tokens_skip_comments_and_blanks() {
    let text = "# a scene\nCamera \"perspective\" # the camera\r\n\t\"float fov\" [ 45 ]\n";
    assert_eq!(vec!["Camera", "perspective", "float fov", "[", "45", "]"], tokens(text));
    assert_eq!(Vec::<String>::new(), tokens(""));
    assert_eq!(Vec::<String>::new(), tokens("   \n\t\r "));
    assert_eq!(Vec::<String>::new(), tokens("# only a comment"));
    assert_eq!(vec!["a"], tokens("#x\n#y\na "));
}

#[test]
fn a_word_that_the_text_cuts_off_is_no_token() {
    assert_eq!(Vec::<String>::new(), tokens("Shape"));
    assert_eq!(vec!["Shape"], tokens("Shape "));
    assert_eq!(vec!["Shape"], tokens("Shape sphere"));
    assert_eq!(Vec::<String>::new(), tokens("\"open string"));
    assert_eq!(vec![""], tokens("\"\""));
}

#[test]
fn brackets_are_tokens_where_a_token_starts() {
    assert_eq!(vec!["[", "]"], tokens("[]"));
    assert_eq!(vec!["[", "1", "]"], tokens("[1]"));
    assert_eq!(vec!["a[b"], tokens("a[b "));
    assert_eq!(vec!["a", "]"], tokens("a]"));
}

#[test]
fn a_carriage_return_does_not_end_a_word() {
    assert_eq!(vec!["word\r"], tokens("word\r\n"));
}

#[test]
fn quoted_strings_keep_their_blanks() {
    assert_eq!(vec!["a b\tc\n# d", "e"], tokens("\"a b\tc\n# d\" e "));
}

#[test]
fn offsets_of_the_first_token() {
    assert_eq!((0, 0), find_offsets(b""));
    assert_eq!((0, 0), find_offsets(b"   "));
    assert_eq!((2, 5), find_offsets(b"  abc def"));
    assert_eq!((2, 2), find_offsets(b"  abc"));
    assert_eq!((1, 2), find_offsets(b" [abc"));
    assert_eq!((0, 4), find_offsets(b"\"a b\" c"));
    assert_eq!((3, 3), find_offsets(b"#c\n\"a b"));
    assert_eq!((3, 4), find_offsets(b"#[\n] "));
}

#[test]
fn tokens_of_text_that_is_not_ascii() {
    assert_eq!(vec!["caf\u{e9}", "\u{4e16}\u{754c}"], tokens("caf\u{e9} \"\u{4e16}\u{754c}\" "));
}

#[test]
fn pbrt_tokenizer() {
    let text = " [ 0 0   1 0 \"pero fov\" 1 1   0 1 2.2\t3.3]        \"5\"";
    let mut toks = PBRTTokenizer::new(text);
    let mut count = 0;
    while let Some(tok) = toks.next() {
        println!("{}", String::from_utf8_lossy(tok));
        count += 1;
    }
    assert_eq!(14, count);
}
