use wtf_cli::layout::{byte_length, clean_and_strip_html, first_bytes, shorten, split_words, wrap_text, wrap_text_two_lines};

#[test]
fn words_split_on_any_whitespace() {
    assert_eq!(split_words("  alpha\tbeta\n gamma  "), vec!["alpha", "beta", "gamma"]);
    assert!(split_words(" \u{3000} ").is_empty());
}

#[test]
fn utf8_lengths_count_bytes() {
    let chars: Vec<char> = "aé€😀".chars().collect();
    assert_eq!(byte_length(&chars), 10);
}

#[test]
fn wrap_text_fills_lines_greedily() {
    assert_eq!(wrap_text("the quick brown fox", 10), vec!["the quick", "brown fox"]);
    assert_eq!(wrap_text("a verylongword b", 4), vec!["a", "verylongword", "b"]);
    assert!(wrap_text("   ", 5).is_empty());
}

#[test]
fn wrap_text_counts_bytes_not_characters() {
    assert_eq!(wrap_text("éé éé", 5), vec!["éé", "éé"]);
    assert_eq!(wrap_text("ab cd", 5), vec!["ab cd"]);
}

#[test]
fn two_lines_end_with_a_full_stop_when_everything_fits() {
    assert_eq!(wrap_text_two_lines("Log every day", 20), ("Log every day.".to_string(), String::new()));
    assert_eq!(wrap_text_two_lines("Log every day of a sprint", 14), ("Log every day".to_string(), "of a sprint.".to_string()));
    assert_eq!(wrap_text_two_lines("Done.", 20), ("Done.".to_string(), String::new()));
}

#[test]
fn two_lines_end_with_an_ellipsis_when_text_remains() {
    assert_eq!(
        wrap_text_two_lines("one two three four five", 9),
        ("one two".to_string(), "three...".to_string())
    );
    assert_eq!(
        wrap_text_two_lines("supercalifragilistic", 8),
        (String::new(), "super...".to_string())
    );
    let (first, second) = wrap_text_two_lines("ab ab ab ab ab", 5);
    assert_eq!((first.as_str(), second.as_str()), ("ab ab", "ab..."));
    assert!(first.len() <= 5 && second.len() <= 5);
    assert_eq!(wrap_text_two_lines("éé x", 6), ("éé x".to_string(), String::new()));
    assert_eq!(wrap_text_two_lines("ééééé", 6), (String::new(), "é...".to_string()));
    assert_eq!(wrap_text_two_lines("a été", 4), ("a".to_string(), "...".to_string()));
}

#[test]
fn html_entities_are_decoded_and_tags_stripped() {
    assert_eq!(clean_and_strip_html("a&nbsp;b &amp; c"), "a b & c");
    assert_eq!(clean_and_strip_html("<b>Bold</b> and <i>it</i>"), "<b>Bold</b> and <i>it</i>");
    assert_eq!(clean_and_strip_html("a &amp; <b>bold</b> <span>x</span>"), "a & <b>bold</b> x");
    assert_eq!(clean_and_strip_html("<STRONG>S</Strong> <em>e</em> <div><u>u</u></div>"), "<STRONG>S</Strong> <em>e</em> <u>u</u>");
    assert_eq!(clean_and_strip_html("line<br>next<br />last"), "line\nnext\nlast");
    assert_eq!(clean_and_strip_html("1 &lt; 2 &gt; 0"), "1 < 2 > 0");
    assert_eq!(clean_and_strip_html("&lt;u&gt;x&lt;/u&gt;"), "<u>x</u>");
    assert_eq!(clean_and_strip_html("&lt;p&gt;x&lt;/p&gt;"), "x");
    assert_eq!(clean_and_strip_html("a < b and <3"), "a < b and <3");
    assert_eq!(clean_and_strip_html("&quot;q&quot; &#39;s&#39;"), "\"q\" 's'");
    assert_eq!(clean_and_strip_html("<a href=\"x\">link</a>"), "link");
}

#[test]
fn long_text_is_shortened_by_bytes() {
    assert_eq!(shorten("short", 60, 57), "short");
    let long = "a".repeat(70);
    assert_eq!(shorten(&long, 60, 57), format!("{}...", "a".repeat(57)));
    assert_eq!(shorten(&"a".repeat(60), 60, 57), "a".repeat(60));
    let accented = "é".repeat(40);
    assert_eq!(shorten(&accented, 60, 58), format!("{}...", "é".repeat(29)));
    assert_eq!(first_bytes("3f2a9c1e-77aa-4b1c", 8), "3f2a9c1e");
}
