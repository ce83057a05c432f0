use lojban::{
    build_lexicon, load_wordlist, normalize_entry, parse_lojban, parse_text, validate_words,
    Lexicon, LojbanParseError, Node, Token, WordSet, WordlistError,
};

fn lines(ls: &[&str]) -> Vec<String> {
    ls.iter().map(|l| l.to_string()).collect()
}

fn lexicon() -> Lexicon {
    let particles = lines(&[".mi  pro-sumti: I", "le   article: the described", ".i sentence link", "do"]);
    let roots = lines(&["klama go come", "zarci market store", "prami love"]);
    let affixes = lines(&["kla klama", "zac zarci"]);
    build_lexicon(&particles, &roots, &affixes).unwrap()
}

fn word_texts(tree: &Node) -> Vec<String> {
    match tree {
        Node::Text(cs) | Node::Group(cs) => cs.iter().flat_map(word_texts).collect(),
        Node::Word(t) => vec![t.text.clone()],
        Node::Other => vec![],
    }
}

#[test]
fn test_basic_parse_valid() {
    let input = "mi";
    match parse_lojban(input, &lexicon()) {
        Ok(_) => assert!(true, "Successfully parsed valid cmavo"),
        Err(e) => panic!("Failed to parse valid input: {:?}", e),
    }
}

#[test]
fn test_phrase_parse_valid() {
    let input = "mi klama le zarci";
    match parse_lojban(input, &lexicon()) {
        Ok(_) => assert!(true, "Successfully parsed valid phrase"),
        Err(e) => panic!("Failed to parse valid input: {:?}", e),
    }
}

#[test]
fn test_basic_parse_invalid_cmavo() {
    let input = "qle";
    match parse_lojban(input, &lexicon()) {
        Ok(_) => panic!("Should not parse invalid cmavo"),
        Err(LojbanParseError::InvalidWord { word, expected_type, .. }) => {
            assert_eq!(word, "qle");
            assert_eq!(expected_type, "lojban word");
        }
        Err(e) => panic!("Wrong error type: {:?}", e),
    }
}

#[test]
fn test_basic_parse_invalid_gismu() {
    let input = "qklama";
    match parse_lojban(input, &lexicon()) {
        Ok(_) => panic!("Should not parse invalid gismu"),
        Err(LojbanParseError::InvalidWord { word, expected_type, .. }) => {
            assert_eq!(word, "qklama");
            assert_eq!(expected_type, "lojban word");
        }
        Err(e) => panic!("Wrong error type: {:?}", e),
    }
}

#[test]
fn test_empty_input() {
    let input = "";
    match parse_lojban(input, &lexicon()) {
        Ok(_) => panic!("Should not parse empty input"),
        Err(LojbanParseError::Syntax(_)) => assert!(true),
        Err(e) => panic!("Wrong error type: {:?}", e),
    }
}

#[test]
fn phrase_leaves_are_the_words_in_order() {
    let tree = parse_lojban("mi klama le zarci", &lexicon()).unwrap();
    assert_eq!(word_texts(&tree), vec!["mi", "klama", "le", "zarci"]);
    match tree {
        Node::Text(cs) => {
            assert_eq!(cs.len(), 4);
            assert_eq!(cs[3], Node::Word(Token { text: "zarci".to_string(), start: 12, end: 17 }));
        }
        _ => panic!("root is not the text production"),
    }
}

#[test]
fn invalid_word_spans() {
    assert_eq!(
        parse_lojban("qle", &lexicon()).unwrap_err(),
        LojbanParseError::InvalidWord {
            word: "qle".to_string(),
            expected_type: "lojban word".to_string(),
            span: (0, 3)
        }
    );
    assert_eq!(
        parse_lojban("qklama", &lexicon()).unwrap_err(),
        LojbanParseError::InvalidWord {
            word: "qklama".to_string(),
            expected_type: "lojban word".to_string(),
            span: (0, 6)
        }
    );
}

#[test]
fn first_unknown_word_is_reported() {
    let input = "mi qle klama qklama";
    match parse_lojban(input, &lexicon()) {
        Err(LojbanParseError::InvalidWord { word, span, .. }) => {
            assert_eq!(word, "qle");
            assert_eq!(span, (3, 6));
            assert_eq!(&input[span.0..span.1], word);
        }
        other => panic!("unexpected outcome: {:?}", other),
    }
}

#[test]
fn span_slices_the_token_after_separators() {
    let input = "  mi.\tklama  zerci ";
    match parse_lojban(input, &lexicon()) {
        Err(LojbanParseError::InvalidWord { word, span, .. }) => {
            assert_eq!(word, "zerci");
            assert_eq!(span, (13, 18));
            assert_eq!(&input[span.0..span.1], "zerci");
        }
        other => panic!("unexpected outcome: {:?}", other),
    }
}

#[test]
fn unknown_character_is_a_syntax_error() {
    match parse_lojban("mi klama 3", &lexicon()) {
        Err(LojbanParseError::Syntax(e)) => {
            assert_eq!(e.pos, 9);
            assert_eq!(e.message, "unexpected character");
        }
        other => panic!("unexpected outcome: {:?}", other),
    }
    match parse_lojban("mi é", &lexicon()) {
        Err(LojbanParseError::Syntax(e)) => assert_eq!(e.pos, 3),
        other => panic!("unexpected outcome: {:?}", other),
    }
}

#[test]
fn syntax_error_comes_before_word_checks() {
    match parse_lojban("qle 9", &lexicon()) {
        Err(LojbanParseError::Syntax(e)) => assert_eq!(e.pos, 4),
        other => panic!("unexpected outcome: {:?}", other),
    }
}

#[test]
fn separators_only_is_a_syntax_error() {
    for input in ["", "   ", " . \n"] {
        match parse_lojban(input, &lexicon()) {
            Err(LojbanParseError::Syntax(e)) => {
                assert_eq!(e.pos, input.len());
                assert_eq!(e.message, "expected a word");
            }
            other => panic!("unexpected outcome: {:?}", other),
        }
    }
}

#[test]
fn repeated_calls_agree() {
    let lex = lexicon();
    for input in ["mi klama", "mi qle", "mi 3", ""] {
        assert_eq!(parse_lojban(input, &lex), parse_lojban(input, &lex));
    }
}

#[test]
fn pause_marked_particle_is_recognized() {
    let tree = parse_lojban(".i mi prami do", &lexicon()).unwrap();
    assert_eq!(word_texts(&tree), vec!["i", "mi", "prami", "do"]);
}

#[test]
fn affixes_are_not_words() {
    match parse_lojban("mi kla", &lexicon()) {
        Err(LojbanParseError::InvalidWord { word, span, .. }) => {
            assert_eq!(word, "kla");
            assert_eq!(span, (3, 6));
        }
        other => panic!("unexpected outcome: {:?}", other),
    }
}

#[test]
fn lookup_is_case_sensitive() {
    assert!(matches!(
        parse_lojban("MI", &lexicon()),
        Err(LojbanParseError::InvalidWord { .. })
    ));
}

#[test]
fn parse_text_builds_word_nodes() {
    let tree = parse_text("do  prami").unwrap();
    assert_eq!(
        tree,
        Node::Text(vec![
            Node::Word(Token { text: "do".to_string(), start: 0, end: 2 }),
            Node::Word(Token { text: "prami".to_string(), start: 4, end: 9 }),
        ])
    );
}

#[test]
fn validation_walks_nested_groups() {
    let lex = lexicon();
    let tree = Node::Text(vec![
        Node::Group(vec![
            Node::Other,
            Node::Word(Token { text: "mi".to_string(), start: 0, end: 2 }),
        ]),
        Node::Group(vec![Node::Group(vec![
            Node::Word(Token { text: "xyz".to_string(), start: 3, end: 6 }),
        ])]),
        Node::Word(Token { text: "abc".to_string(), start: 7, end: 10 }),
    ]);
    assert_eq!(
        validate_words(&tree, &lex),
        Err(LojbanParseError::InvalidWord {
            word: "xyz".to_string(),
            expected_type: "lojban word".to_string(),
            span: (3, 6)
        })
    );
    let ok = Node::Group(vec![Node::Other, Node::Text(vec![])]);
    assert_eq!(validate_words(&ok, &lex), Ok(()));
}

#[test]
fn normalize_entry_cases() {
    assert_eq!(normalize_entry(".mi pro-sumti"), Some("mi".to_string()));
    assert_eq!(normalize_entry("   klama  go"), Some("klama".to_string()));
    assert_eq!(normalize_entry("\tzarci"), Some("zarci".to_string()));
    assert_eq!(normalize_entry(". rest"), None);
    assert_eq!(normalize_entry("..a"), Some(".a".to_string()));
    assert_eq!(normalize_entry(""), None);
    assert_eq!(normalize_entry("   "), None);
    assert_eq!(normalize_entry("\u{3000}ba\u{a0}x"), Some("ba".to_string()));
}

#[test]
fn word_set_collapses_duplicates() {
    let set = load_wordlist(&lines(&["mi", ".mi", "mi x", "do"])).unwrap();
    assert_eq!(set.len(), 2);
    assert!(set.contains(&"mi".to_string()));
    assert!(set.contains(&"do".to_string()));
    assert!(!set.contains(&".mi".to_string()));
    let mut s = WordSet::new();
    s.insert("le".to_string());
    s.insert("le".to_string());
    assert_eq!(s.len(), 1);
}

#[test]
fn empty_word_list_is_a_load_error() {
    assert!(matches!(load_wordlist(&lines(&[])), Err(WordlistError::Empty)));
    assert!(matches!(load_wordlist(&lines(&["", "  ", "."])), Err(WordlistError::Empty)));
    let some = lines(&["mi"]);
    assert_eq!(
        build_lexicon(&some, &lines(&[]), &some).err(),
        Some(LojbanParseError::Load(WordlistError::Empty))
    );
}

#[test]
fn lexicon_recognizes_particles_and_roots() {
    let lex = lexicon();
    assert!(lex.recognizes(&"le".to_string()));
    assert!(lex.recognizes(&"zarci".to_string()));
    assert!(!lex.recognizes(&"zac".to_string()));
}
