use matrix_channel::html::{contains_html_mark, contains_html_tags, escape_html, strip_html_tags};

#[test]
fn test_contains_html_tags() {
    assert!(contains_html_tags("<b>bold</b>"));
    assert!(contains_html_tags("<p>paragraph</p>"));
    assert!(contains_html_tags("<a href=\"url\">link</a>"));
    assert!(contains_html_tags("<pre><code>code</code></pre>"));
    assert!(contains_html_tags("<ul><li>item</li></ul>"));
    assert!(!contains_html_tags("plain text"));
    assert!(!contains_html_tags("2 < 3 and 4 > 1")); // Not HTML tags
}

#[test]
fn test_strip_html_tags() {
    assert_eq!(strip_html_tags("<b>bold</b>"), "bold");
    assert_eq!(strip_html_tags("<p>Hello <strong>world</strong>!</p>"), "Hello world!");
    assert_eq!(strip_html_tags("<a href=\"https://example.com\">link</a>"), "link");
    // Note: strip_html_tags simply removes tags without adding spacing
    assert_eq!(
        strip_html_tags("<ul><li>one</li><li>two</li></ul>"),
        "onetwo"
    );
    assert_eq!(strip_html_tags("&amp; &lt; &gt;"), "& < >");
    assert_eq!(strip_html_tags("plain text"), "plain text");
}

#[test]
fn the_case_of_tags_does_not_matter() {
    assert!(contains_html_tags("<B>bold</B>"));
    assert!(contains_html_tags("<IMG src=x>"));
    assert!(!contains_html_mark("<B>BOLD</B>"));
    assert!(contains_html_mark("<b>"));
    // The Kelvin sign is a `k` in lower case.
    assert!(contains_html_tags("<bloc\u{212a}quote>"));
}

#[test]
fn every_mark_counts() {
    for mark in ["</i>", "<u>", "<del>", "<h6>", "<tbody>", "<td>", "<br>", "<hr>", "<img", "</summary>"] {
        assert!(contains_html_tags(mark), "{}", mark);
    }
    assert!(!contains_html_tags("<br/>"));
    assert!(!contains_html_tags("<video>"));
}

#[test]
fn entities_are_decoded_in_order() {
    assert_eq!(strip_html_tags("&quot;a&#39;b&quot;"), "\"a'b\"");
    assert_eq!(strip_html_tags("a&nbsp;&nbsp;b"), "a b");
    assert_eq!(strip_html_tags("&amp;lt;"), "<");
    assert_eq!(strip_html_tags("a < b > c"), "a c");
    assert_eq!(strip_html_tags("open <tag"), "open");
}

#[test]
fn plain_text_is_tidy() {
    assert_eq!(strip_html_tags("  a \n\t b  "), "a b");
    assert_eq!(strip_html_tags("a\n b"), "a\nb");
    assert_eq!(strip_html_tags("<p> </p>"), "");
}

#[test]
fn special_characters_are_escaped() {
    assert_eq!(escape_html("a < b && c > \"d\""), "a &lt; b &amp;&amp; c &gt; \"d\"");
    assert_eq!(escape_html("&lt;"), "&amp;lt;");
    assert_eq!(escape_html(""), "");
}

#[test]
fn escaped_text_is_read_back() {
    for s in ["a < b && c > d", "&amp;", "<b>", "&&<<>>", "&l t;"] {
        assert!(!escape_html(s).contains('<'));
        assert_eq!(strip_html_tags(&escape_html(s)), s);
    }
    // A spelled-out entity is decoded once more.
    assert_eq!(strip_html_tags(&escape_html("&lt;")), "<");
}

#[test]
fn escaping_replaces_in_turn() {
    for s in ["", "a&b<c>d", "&amp;", "<<&>>", "plain"] {
        let expected = s.replace('&', "&amp;").replace('<', "&lt;").replace('>', "&gt;");
        assert_eq!(escape_html(s), expected);
    }
}

#[test]
fn escaped_text_is_no_html() {
    for s in ["<b>bold</b>", "<A HREF=x>", "<img", "a < b", "&lt;b&gt;", "<br>\u{212a}"] {
        assert!(!contains_html_tags(&escape_html(s)));
        assert!(!contains_html_mark(&escape_html(s)));
    }
}

#[test]
fn a_mark_stays_a_mark() {
    for mark in ["<b>", "</P>", "<a HREF"] {
        assert!(contains_html_tags(mark));
        assert!(contains_html_tags(&mark.to_ascii_uppercase()));
        assert!(contains_html_tags(&format!("< before {} after >", mark)));
    }
    assert!(contains_html_mark("x<b>y"));
}

#[test]
fn lower_case_brings_in_no_bracket() {
    for n in 0..=0x10ffff_u32 {
        if let Some(c) = char::from_u32(n) {
            if c != '<' {
                assert!(!c.to_string().to_lowercase().contains('<'), "U+{:04X}", n);
            }
        }
    }
}

#[test]
fn a_mark_counts_beside_any_letter() {
    for n in 0..=0x10ffff_u32 {
        if let Some(c) = char::from_u32(n) {
            if c.to_string().to_lowercase() != c.to_string() {
                assert!(contains_html_tags(&format!("{}<LI>{}", c, c)), "U+{:04X}", n);
                assert!(!contains_html_tags(&format!("{}LI>", c)), "U+{:04X}", n);
            }
        }
    }
    assert!(contains_html_tags("ΑΣ<B>ΣΑΣ"));
}

#[test]
fn escaped_text_of_any_script_is_no_html() {
    for s in ["<b>ΑΣ</b>", "İ<IMG", "<bloc\u{212a}quote>", "输<p>出"] {
        assert!(contains_html_tags(s));
        assert!(!contains_html_tags(&escape_html(s)));
    }
}

#[test]
fn tags_leave_no_trace() {
    assert_eq!(strip_html_tags("a <b x=\"1 < 2\">c"), strip_html_tags("a c"));
    assert_eq!(strip_html_tags("x<br/>&amp;y"), strip_html_tags("x&amp;y"));
    // Between the halves of an entity, too.
    assert_eq!(strip_html_tags("&am<i>p;"), strip_html_tags("&amp;"));
}

#[test]
fn stripping_twice_is_stripping_once() {
    for s in [" <p>a  b</p> ", "a > b < c", "", "  \n ", "x<y"] {
        let once = strip_html_tags(s);
        assert_eq!(strip_html_tags(&once), once);
    }
    // An ampersand may leave an entity behind.
    assert_eq!(strip_html_tags("&amp;amp;"), "&amp;");
    assert_eq!(strip_html_tags("&amp;"), "&");
}

#[test]
fn escaping_goes_piece_by_piece() {
    for (a, b) in [("a&", "<b"), ("", ">"), ("&l", "t;")] {
        let whole = format!("{}{}", a, b);
        assert_eq!(escape_html(&whole), format!("{}{}", escape_html(a), escape_html(b)));
    }
}

#[test]
fn escaping_can_be_undone() {
    for s in ["&lt;", "<&amp;>", "a&b", "&&gt;;", ""] {
        let back = escape_html(s).replace("&gt;", ">").replace("&lt;", "<").replace("&amp;", "&");
        assert_eq!(back, s);
    }
}

#[test]
fn escaping_keeps_ordinary_text() {
    assert_eq!(escape_html("plain \"text\" 输出"), "plain \"text\" 输出");
    for s in ["a&", "<", "x>y"] {
        assert_ne!(escape_html(s), s);
    }
}
