use ley::doc::{Ley, Metadata};
use ley::html::Html;
use ley::lex::{tokenize, Token};
use ley::pages::Page;
use ley::phrase::Phrase;
use ley::tree::{LeyLine, LeyLines, ParseError, SectionKind, TokenIter};

fn parse(src: &str) -> Ley {
    Ley::new(src, Metadata(None)).expect("source should parse")
}

fn render(src: &str) -> String {
    Html(parse(src)).render()
}

fn skeleton(title: &str, author: &str, date: &str, style: &str, body: &str) -> String {
    format!(
        "<html><head><title>{title}</title><link rel=\"stylesheet\" href=\"{style}\"></head>\
         <body><h1>{title}</h1><div>{author}, {date}</div>{body}</body></html>"
    )
}

// -- boundary: the empty document --

#[test]
fn empty_source_parses_to_empty_document() {
    let ley = parse("");
    assert!(ley.lines.0.is_empty());
    assert_eq!(ley.title.0, None);
    assert_eq!(ley.author.0, None);
    assert_eq!(ley.date.0, None);
    assert_eq!(ley.style.0, None);
}

#[test]
fn empty_source_renders_all_fallbacks() {
    assert_eq!(
        render(""),
        skeleton("Untitled Page", "No Author", "Unknown Date", "main.css", "")
    );
}

// -- the lexer --

#[test]
fn lexer_splits_words_and_specials() {
    let toks = tokenize("foo{bar} !x:y;");
    assert_eq!(
        toks,
        vec![
            Token::Identifier("foo".to_string()),
            Token::OpenBrace,
            Token::Identifier("bar".to_string()),
            Token::CloseBrace,
            Token::Exclamation,
            Token::Identifier("x".to_string()),
            Token::Colon,
            Token::Identifier("y".to_string()),
            Token::SemiColon,
        ]
    );
}

#[test]
fn lexer_single_token_step() {
    assert_eq!(
        Token::parse("foo{", 0),
        Some((Token::Identifier("foo".to_string()), 3))
    );
    assert_eq!(Token::parse("foo{", 3), Some((Token::OpenBrace, 4)));
    assert_eq!(Token::parse("   ", 0), None);
}

#[test]
fn lexer_quoted_word_keeps_spaces() {
    let toks = tokenize("\"my name\"");
    assert_eq!(toks, vec![Token::Identifier("my name".to_string())]);
}

#[test]
fn lexer_triple_quoted_word_keeps_quotes() {
    let toks = tokenize("\"\"\"a \"b\" c\"\"\"");
    assert_eq!(toks, vec![Token::Identifier("a \"b\" c".to_string())]);
}

#[test]
fn lexer_unterminated_quote_ends_stream() {
    let toks = tokenize("hello \"abc");
    assert_eq!(toks, vec![Token::Identifier("hello".to_string())]);
}

// -- the parser --

#[test]
fn text_run_groups_adjacent_words() {
    let ley = parse("hello world");
    assert_eq!(
        ley.lines.0,
        vec![LeyLine::Text {
            contents: Phrase(vec!["hello".to_string(), "world".to_string()])
        }]
    );
}

#[test]
fn named_section_without_keyword_defaults_to_section() {
    let ley = parse("!intro:{hi}");
    match &ley.lines.0[0] {
        LeyLine::Section { name, kind, contents } => {
            assert_eq!(name, &Some(Phrase(vec!["intro".to_string()])));
            assert_eq!(kind, &SectionKind::Section);
            assert_eq!(contents.0.len(), 1);
        }
        other => panic!("expected a section, got {:?}", other),
    }
}

#[test]
fn anonymous_section_without_keyword_defaults_to_paragraph() {
    let ley = parse("!:{hi}");
    match &ley.lines.0[0] {
        LeyLine::Section { name, kind, .. } => {
            assert_eq!(name, &None);
            assert_eq!(kind, &SectionKind::Paragraph);
        }
        other => panic!("expected a section, got {:?}", other),
    }
}

#[test]
fn section_keywords_resolve() {
    assert_eq!(SectionKind::new("section"), Ok(SectionKind::Section));
    assert_eq!(SectionKind::new("paragraph"), Ok(SectionKind::Paragraph));
    assert_eq!(SectionKind::new("para"), Ok(SectionKind::Paragraph));
    assert_eq!(SectionKind::new("p"), Ok(SectionKind::Paragraph));
    assert_eq!(SectionKind::new("meta"), Ok(SectionKind::Metadata));
    assert_eq!(SectionKind::new("metadata"), Ok(SectionKind::Metadata));
    assert_eq!(SectionKind::new("link"), Ok(SectionKind::Link));
    assert_eq!(SectionKind::new("image"), Ok(SectionKind::Image));
    assert_eq!(SectionKind::new("img"), Ok(SectionKind::Image));
    assert_eq!(SectionKind::new("code"), Ok(SectionKind::Code));
    assert_eq!(SectionKind::new("lang"), Ok(SectionKind::Code));
    assert_eq!(
        SectionKind::new("wibble"),
        Err(ParseError::UnknownSection("wibble".to_string()))
    );
}

#[test]
fn comment_keyword_is_not_validated() {
    let ley = parse("!;wibble{ignored}");
    assert_eq!(ley.lines.0, vec![LeyLine::Comment]);
}

#[test]
fn ley_lines_new_keeps_metadata_sections() {
    let lines = LeyLines::new("!title:meta{a} x").expect("should parse");
    assert_eq!(lines.0.len(), 2);
    match &lines.0[0] {
        LeyLine::Section { kind, .. } => assert_eq!(kind, &SectionKind::Metadata),
        other => panic!("expected a metadata section, got {:?}", other),
    }
}

#[test]
fn token_iter_peek_and_advance() {
    let mut it = TokenIter::new(tokenize("a {"));
    assert_eq!(it.peek(), Some(&Token::Identifier("a".to_string())));
    it.advance();
    assert_eq!(it.peek(), Some(&Token::OpenBrace));
    it.advance();
    assert_eq!(it.peek(), None);
}

#[test]
fn token_iter_peek_and_line_parse() {
    let mut it = TokenIter::new(tokenize("hello world"));
    assert_eq!(it.peek(), Some(&Token::Identifier("hello".to_string())));
    let line = LeyLine::parse(&mut it).expect("a text run");
    assert_eq!(
        line,
        LeyLine::Text {
            contents: Phrase(vec!["hello".to_string(), "world".to_string()])
        }
    );
    assert_eq!(it.peek(), None);
    let mut stray = TokenIter::new(tokenize("}"));
    assert_eq!(
        LeyLine::parse(&mut stray),
        Err(ParseError::UnexpectedCloseBracket)
    );
}

#[test]
fn phrase_parse_stops_at_non_word() {
    let mut it = TokenIter::new(tokenize("a b {"));
    let p = Phrase::parse(&mut it).expect("two words");
    assert_eq!(p, Phrase(vec!["a".to_string(), "b".to_string()]));
    assert_eq!(it.peek(), Some(&Token::OpenBrace));
    assert_eq!(Phrase::parse(&mut it), None);
}

#[test]
fn phrase_with_prepends_the_first_word() {
    let mut it = TokenIter::new(tokenize("y z"));
    let p = Phrase::with("x".to_string(), &mut it);
    assert_eq!(
        p,
        Phrase(vec!["x".to_string(), "y".to_string(), "z".to_string()])
    );
}

#[test]
fn phrase_text_joins_with_single_spaces() {
    assert_eq!(Phrase::new("one").text(), "one");
    assert_eq!(
        Phrase(vec!["a".to_string(), "b".to_string(), "c".to_string()]).text(),
        "a b c"
    );
    assert!(Phrase(vec!["key".to_string(), "more".to_string()]).first_word_is("key"));
    assert!(!Phrase(vec!["key".to_string()]).first_word_is("other"));
}

#[test]
fn phrase_from_lines_takes_a_single_text_run() {
    let lines = LeyLines::new("hello world").expect("should parse");
    let p = Phrase::from_lines(lines).expect("one text run");
    assert_eq!(p.text(), "hello world");
    let not_text = LeyLines::new("!:{x}").expect("should parse");
    assert_eq!(Phrase::from_lines(not_text), Err(ParseError::ExpectedString));
}

// -- errors --

#[test]
fn error_end_of_file() {
    assert_eq!(Ley::new("!", Metadata(None)), Err(ParseError::EndOfFile));
    assert_eq!(Ley::new("!name", Metadata(None)), Err(ParseError::EndOfFile));
    assert_eq!(Ley::new("!x:", Metadata(None)), Err(ParseError::EndOfFile));
}

#[test]
fn error_unexpected_close_bracket() {
    assert_eq!(
        Ley::new("}", Metadata(None)),
        Err(ParseError::UnexpectedCloseBracket)
    );
}

#[test]
fn error_expected_colon() {
    assert_eq!(
        Ley::new("!x}", Metadata(None)),
        Err(ParseError::ExpectedColon)
    );
}

#[test]
fn error_expected_open_brace() {
    assert_eq!(
        Ley::new("!x:}", Metadata(None)),
        Err(ParseError::ExpectedOpenBrace)
    );
    assert_eq!(
        Ley::new("!x:section y{}", Metadata(None)),
        Err(ParseError::ExpectedOpenBrace)
    );
}

#[test]
fn error_unknown_section() {
    assert_eq!(
        Ley::new("!x:wibble{}", Metadata(None)),
        Err(ParseError::UnknownSection("wibble".to_string()))
    );
}

#[test]
fn error_unclosed_section() {
    // an unterminated section must surface the unclosed-section error
    assert_eq!(
        Ley::new("!:{hello", Metadata(None)),
        Err(ParseError::UnclosedSection)
    );
}

#[test]
fn error_expected_string() {
    assert_eq!(
        Ley::new("!title:meta{}", Metadata(None)),
        Err(ParseError::ExpectedString)
    );
    assert_eq!(
        Ley::new("!title:meta{!:{x}}", Metadata(None)),
        Err(ParseError::ExpectedString)
    );
    assert_eq!(
        Ley::new("!title:meta{a !:{x}}", Metadata(None)),
        Err(ParseError::ExpectedString)
    );
}

#[test]
fn error_messages_are_stable() {
    assert_eq!(ParseError::EndOfFile.message(), "Unexpected end of file");
    assert_eq!(
        ParseError::UnclosedSection.message(),
        "Unclosed Section, Expected `}`"
    );
    assert_eq!(ParseError::UnexpectedCloseBracket.message(), "Unexpected `}`");
    assert_eq!(
        ParseError::UnknownSection("oops".to_string()).message(),
        "Unknown Section Kind `oops`"
    );
    assert_eq!(ParseError::ExpectedColon.message(), "Expected `:`");
    assert_eq!(ParseError::ExpectedOpenBrace.message(), "Expected `{`");
    assert_eq!(ParseError::ExpectedString.message(), "Expected a string");
}

// -- metadata absorption --

#[test]
fn metadata_fields_are_absorbed() {
    let ley = parse("!title:meta{My Title} !author:meta{Me} !date:meta{Today} !style:meta{s.css}");
    assert_eq!(ley.title.0, Some("My Title".to_string()));
    assert_eq!(ley.author.0, Some("Me".to_string()));
    assert_eq!(ley.date.0, Some("Today".to_string()));
    assert_eq!(ley.style.0, Some("s.css".to_string()));
    assert!(ley.lines.0.is_empty());
}

#[test]
fn metadata_last_write_wins() {
    // two title sections at top level: the later one is kept
    let ley = parse("!title:meta{a} !title:meta{b}");
    assert_eq!(ley.title.0, Some("b".to_string()));
}

#[test]
fn metadata_unknown_key_is_dropped() {
    let ley = parse("!wibble:meta{x}");
    assert_eq!(ley.title.0, None);
    assert!(ley.lines.0.is_empty());
}

#[test]
fn document_style_overrides_external_style() {
    let ley = Ley::new(
        "!style:meta{doc.css}",
        Metadata(Some("ext.css".to_string())),
    )
    .expect("should parse");
    assert_eq!(ley.style.0, Some("doc.css".to_string()));
}

#[test]
fn external_style_is_used_when_document_has_none() {
    let out = Html(Ley::new("", Metadata(Some("ext.css".to_string()))).unwrap()).render();
    assert_eq!(
        out,
        skeleton("Untitled Page", "No Author", "Unknown Date", "ext.css", "")
    );
}

#[test]
fn anonymous_metadata_section_stays_in_tree() {
    let ley = parse("!:meta{x}");
    assert_eq!(ley.lines.0.len(), 1);
    assert_eq!(render("!:meta{x}"), render(""));
}

#[test]
fn metadata_from_lines_value() {
    let lines = LeyLines::new("a b").expect("should parse");
    let m = Metadata::from_lines(lines).expect("one text run");
    assert_eq!(m.0, Some("a b".to_string()));
    assert_eq!(m.value_or("fallback"), "a b");
    assert!(m.is_set());
    let none: Metadata = Default::default();
    assert_eq!(none.value_or("fallback"), "fallback");
    assert!(!none.is_set());
}

// -- parsing is deterministic --

#[test]
fn reparsing_identical_text_gives_identical_trees() {
    let src = "!title:meta{t} !a:{x y !b:link{z}} tail";
    assert_eq!(parse(src), parse(src));
    assert_eq!(render(src), render(src));
}

// -- rendering --

#[test]
fn text_only_document_renders_joined_words() {
    assert_eq!(
        render("alpha beta"),
        skeleton(
            "Untitled Page",
            "No Author",
            "Unknown Date",
            "main.css",
            "alpha beta "
        )
    );
}

#[test]
fn metadata_title_then_paragraph() {
    // a metadata title, then an anonymous paragraph holding one word
    let src = "!title:meta{Hello} !:{World}";
    let ley = parse(src);
    assert_eq!(ley.title.0, Some("Hello".to_string()));
    assert_eq!(ley.lines.0.len(), 1);
    match &ley.lines.0[0] {
        LeyLine::Section { name, kind, contents } => {
            assert_eq!(name, &None);
            assert_eq!(kind, &SectionKind::Paragraph);
            assert_eq!(
                contents.0,
                vec![LeyLine::Text {
                    contents: Phrase(vec!["World".to_string()])
                }]
            );
        }
        other => panic!("expected a paragraph, got {:?}", other),
    }
    let out = render(src);
    assert!(out.contains("<p>World </p>"));
    assert!(out.contains("<title>Hello</title>"));
    assert_eq!(
        out,
        skeleton("Hello", "No Author", "Unknown Date", "main.css", "<p>World </p>")
    );
}

#[test]
fn link_section_renders_an_anchor() {
    let src = "!example.com:link{Click here}";
    let ley = parse(src);
    match &ley.lines.0[0] {
        LeyLine::Section { name, kind, contents } => {
            assert_eq!(name, &Some(Phrase(vec!["example.com".to_string()])));
            assert_eq!(kind, &SectionKind::Link);
            assert_eq!(
                contents.0,
                vec![LeyLine::Text {
                    contents: Phrase(vec!["Click".to_string(), "here".to_string()])
                }]
            );
        }
        other => panic!("expected a link, got {:?}", other),
    }
    assert!(render(src).contains("<a href=\"example.com\">Click here </a>"));
}

#[test]
fn bare_link_renders_without_target() {
    assert!(render("!:link{x}").contains("<a>x </a>"));
}

#[test]
fn comment_contributes_nothing_to_output() {
    let src = "!;{ignored content}";
    let ley = parse(src);
    assert_eq!(ley.lines.0, vec![LeyLine::Comment]);
    assert_eq!(render(src), render(""));
}

#[test]
fn heading_depth_rises_by_one_per_named_section() {
    // nested named plain sections: heading levels 1, 2, 3 in order
    assert_eq!(
        render("!a:{!b:{!c:{}}}"),
        skeleton(
            "Untitled Page",
            "No Author",
            "Unknown Date",
            "main.css",
            "<h1 id=\"a\">a</h1><div class=\"depth_1\">\
             <h2 id=\"b\">b</h2><div class=\"depth_2\">\
             <h3 id=\"c\">c</h3><div class=\"depth_3\"></div></div></div>"
        )
    );
}

#[test]
fn paragraphs_do_not_deepen_headings() {
    // a named section inside a paragraph keeps the next heading at depth 1
    let out = render("!:{!a:{}}");
    assert!(out.contains("<p><h1 id=\"a\">a</h1><div class=\"depth_1\"></div></p>"));
}

#[test]
fn code_section_renders_code_element() {
    assert!(render("!:code{let x}").contains("<code>let x </code>"));
    assert!(render("!name:lang{y}").contains("<code>y </code>"));
}

#[test]
fn image_section_renders_self_closing() {
    let out = render("!pic.png:img{alt text}");
    assert!(out.contains("<img src=\"pic.png\">"));
    // children of an image are ignored
    assert!(!out.contains("alt"));
    // a bare image renders nothing
    assert_eq!(render("!:img{x}"), render(""));
}

#[test]
fn quoted_section_name_renders_verbatim() {
    let out = render("!\"my name\":{}");
    assert!(out.contains("<h1 id=\"my name\">my name</h1>"));
}

#[test]
fn triple_quoted_text_renders_inner_quotes() {
    let out = render("\"\"\"a \"b\" c\"\"\"");
    assert!(out.contains("a \"b\" c "));
}

// -- the page registry --

#[test]
fn index_document_links_every_page() {
    let pages = vec![
        Page {
            location: "one.html".to_string(),
            title: "One".to_string(),
        },
        Page {
            location: "two.html".to_string(),
            title: "Two".to_string(),
        },
    ];
    let ley = Ley::index(&pages);
    assert_eq!(ley.title.0, Some("Index".to_string()));
    assert_eq!(ley.lines.0.len(), 1);
    let out = Html(ley).render();
    assert_eq!(
        out,
        skeleton(
            "Index",
            "No Author",
            "Unknown Date",
            "main.css",
            "<p><p><a href=\"one.html\">One </a></p><p><a href=\"two.html\">Two </a></p></p>"
        )
    );
}

#[test]
fn index_of_no_pages_is_an_empty_list() {
    let ley = Ley::index(&Vec::new());
    let out = Html(ley).render();
    assert_eq!(
        out,
        skeleton("Index", "No Author", "Unknown Date", "main.css", "<p></p>")
    );
}
