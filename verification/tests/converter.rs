use markdown_converter::{convert_heading, tokenize, Token, TokenType, TokenizeError};

#[test]
fn test_tokenization() {
    assert_eq!(
        tokenize("# Header").unwrap(),
        vec![
            Token {
                token_type: TokenType::Header,
                content: "# ".to_string()
            },
            Token {
                token_type: TokenType::Text,
                content: "Header".to_string()
            }
        ]
    )
}

#[test]
fn test_heading_convertion() {
    let markdown = String::from("# Test");
    assert_eq!(
        convert_heading(markdown),
        Some(String::from("<h1>Test</h1>"))
    );

    let markdown = String::from("###### Test");
    assert_eq!(
        convert_heading(markdown),
        Some(String::from("<h6>Test</h6>"))
    );

    let markdown = String::from("######Test");
    assert_eq!(convert_heading(markdown), None);
}

// Concatenating the contents of the tokens, in order, reproduces the input.
#[test]
fn round_trip_concrete() {
    for input in ["# Header", "#", "###### Test", " #", "#  spaced"] {
        let tokens = tokenize(input).unwrap();
        let mut rebuilt = String::new();
        for token in &tokens {
            rebuilt.push_str(&token.content);
        }
        assert_eq!(rebuilt, input);
    }
}

// A run of six '#' characters is still a header marker.
#[test]
fn six_hashes_stay_header() {
    assert_eq!(
        tokenize("###### Test").unwrap(),
        vec![
            Token {
                token_type: TokenType::Header,
                content: "###### ".to_string()
            },
            Token {
                token_type: TokenType::Text,
                content: "Test".to_string()
            }
        ]
    );
}

// A seventh '#' exceeds the six-hash cap: the run degrades to a paragraph
// and is never classified as a header.
#[test]
fn seven_hashes_degrade_to_paragraph() {
    assert_eq!(
        tokenize("#######").unwrap(),
        vec![Token {
            token_type: TokenType::Paragraph,
            content: "#######".to_string()
        }]
    );
}

// A space after the degraded paragraph reaches a whitespace-adjacency rule
// the state machine leaves open, so the full line is unsupported rather
// than misclassified.
#[test]
fn seven_hashes_then_space_is_unsupported() {
    assert_eq!(
        tokenize("####### Test"),
        Err(TokenizeError::UnsupportedConstruct)
    );
}

// A lone '#' with no trailing space and no following text is one header
// token; nothing panics.
#[test]
fn lone_hash_is_header() {
    assert_eq!(
        tokenize("#").unwrap(),
        vec![Token {
            token_type: TokenType::Header,
            content: "#".to_string()
        }]
    );
}

// A '#'-run not closed by a space before body text degrades to a paragraph.
#[test]
fn hash_run_without_space_degrades() {
    assert_eq!(
        tokenize("#x").unwrap(),
        vec![Token {
            token_type: TokenType::Paragraph,
            content: "#x".to_string()
        }]
    );
}

// A '#' appearing mid-text is literal content.
#[test]
fn hash_inside_text_is_literal() {
    assert_eq!(
        tokenize("# a#b").unwrap(),
        vec![
            Token {
                token_type: TokenType::Header,
                content: "# ".to_string()
            },
            Token {
                token_type: TokenType::Text,
                content: "a#b".to_string()
            }
        ]
    );
}

// A leading space opens a whitespace token; a following '#' or body
// character starts a new token.
#[test]
fn leading_whitespace_tokens() {
    assert_eq!(
        tokenize(" ").unwrap(),
        vec![Token {
            token_type: TokenType::WhiteSpace,
            content: " ".to_string()
        }]
    );
    assert_eq!(
        tokenize(" #").unwrap(),
        vec![
            Token {
                token_type: TokenType::WhiteSpace,
                content: " ".to_string()
            },
            Token {
                token_type: TokenType::Header,
                content: "#".to_string()
            }
        ]
    );
    assert_eq!(
        tokenize(" a").unwrap(),
        vec![
            Token {
                token_type: TokenType::WhiteSpace,
                content: " ".to_string()
            },
            Token {
                token_type: TokenType::Paragraph,
                content: "a".to_string()
            }
        ]
    );
}

// A second space after a complete header marker begins the body text.
#[test]
fn double_space_after_marker_begins_text() {
    assert_eq!(
        tokenize("#  x").unwrap(),
        vec![
            Token {
                token_type: TokenType::Header,
                content: "# ".to_string()
            },
            Token {
                token_type: TokenType::Text,
                content: " x".to_string()
            }
        ]
    );
}

// Growing a paragraph, or whitespace after one, reaches transition rules
// the state machine leaves open: the unsupported-construct signal, never a
// panic and never a misclassification.
#[test]
fn unsupported_constructs_are_signalled() {
    assert_eq!(tokenize("ab"), Err(TokenizeError::UnsupportedConstruct));
    assert_eq!(tokenize("a "), Err(TokenizeError::UnsupportedConstruct));
    assert_eq!(tokenize("  "), Err(TokenizeError::UnsupportedConstruct));
    assert_eq!(tokenize("# a b"), Err(TokenizeError::UnsupportedConstruct));
}

#[test]
fn empty_input_gives_no_tokens() {
    assert_eq!(tokenize("").unwrap(), vec![]);
}

// A marker of seven characters is too long, whether or not a space follows.
#[test]
fn heading_marker_too_long() {
    assert_eq!(convert_heading(String::from("####### Test")), None);
    assert_eq!(convert_heading(String::from("#######Test")), None);
}

// A line without any space is not a heading.
#[test]
fn heading_needs_a_space() {
    assert_eq!(convert_heading(String::from("Test")), None);
    assert_eq!(convert_heading(String::from("")), None);
}

// A whitespace-only line has a marker of length zero, which the converter
// accepts as a level-zero heading: the open edge of the marker rule, pinned
// down here on purpose.
#[test]
fn whitespace_only_line_is_level_zero() {
    assert_eq!(
        convert_heading(String::from(" ")),
        Some(String::from("<h0></h0>"))
    );
}

// The converter measures the marker's length only; it does not require the
// marker to consist of '#' characters.
#[test]
fn heading_marker_length_only() {
    assert_eq!(
        convert_heading(String::from("abc def")),
        Some(String::from("<h3>def</h3>"))
    );
}

// The body is everything after the first space, unmodified.
#[test]
fn heading_body_kept_verbatim() {
    assert_eq!(
        convert_heading(String::from("## a  b ")),
        Some(String::from("<h2>a  b </h2>"))
    );
    assert_eq!(
        convert_heading(String::from("# ")),
        Some(String::from("<h1></h1>"))
    );
}
