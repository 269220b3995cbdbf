use vanguard::lexer::CelerToken;

#[test]
fn probar_lexer() {
    let codigo_fuente = r#"
            RULE "High Precision Guard" {
                WHEN precision < 0.85;
                ACTION TRIGGER_FLASH;
            }
        "#;

    println!("\n🔍 Analizando regla CELER:\n{}", codigo_fuente);
    println!("--------------------------------------------------");

    let mut lexer = CelerToken::lexer(codigo_fuente);

    while let Some(token_result) = lexer.next() {
        match token_result {
            Ok(token) => println!("✅ Token: {:<15} | Texto: '{}'", format!("{:?}", token), lexer.slice()),
            Err(_) => println!("❌ ERROR: No reconozco esto: '{}'", lexer.slice()),
        }
    }
    println!("--------------------------------------------------\n");
}

fn lex_all(src: &str) -> Vec<(Result<CelerToken, ()>, String)> {
    let mut lexer = CelerToken::lexer(src);
    let mut out = Vec::new();
    while let Some(t) = lexer.next() {
        out.push((t, lexer.slice()));
    }
    out
}

#[test]
fn lexer_reads_the_sample_rule() {
    let toks = lex_all("RULE \"High Precision Guard\" {\n WHEN precision < 0.85;\n ACTION TRIGGER_FLASH;\n}");
    let expected: Vec<(CelerToken, &str)> = vec![
        (CelerToken::Rule, "RULE"),
        (CelerToken::StringLiteral, "\"High Precision Guard\""),
        (CelerToken::BraceOpen, "{"),
        (CelerToken::When, "WHEN"),
        (CelerToken::Identifier, "precision"),
        (CelerToken::Operator, "<"),
        (CelerToken::Number, "0.85"),
        (CelerToken::Semicolon, ";"),
        (CelerToken::Action, "ACTION"),
        (CelerToken::Identifier, "TRIGGER_FLASH"),
        (CelerToken::Semicolon, ";"),
        (CelerToken::BraceClose, "}"),
    ];
    assert_eq!(toks.len(), expected.len());
    for (got, want) in toks.iter().zip(expected.iter()) {
        assert_eq!(got.0, Ok(want.0));
        assert_eq!(got.1, want.1);
    }
}

#[test]
fn lexer_prefers_longest_match_and_keywords() {
    let toks = lex_all("RULES LOG WINDOW_1 <= >= == != > x1");
    let kinds: Vec<Result<CelerToken, ()>> = toks.iter().map(|t| t.0).collect();
    assert_eq!(
        kinds,
        vec![
            Ok(CelerToken::Identifier),
            Ok(CelerToken::Log),
            Ok(CelerToken::Identifier),
            Ok(CelerToken::Operator),
            Ok(CelerToken::Operator),
            Ok(CelerToken::Operator),
            Ok(CelerToken::Operator),
            Ok(CelerToken::Operator),
            Ok(CelerToken::Identifier),
        ]
    );
    assert_eq!(toks[3].1, "<=");
}

#[test]
fn lexer_reports_unknown_characters_one_by_one() {
    let toks = lex_all("= 1. @\"open");
    let kinds: Vec<Result<CelerToken, ()>> = toks.iter().map(|t| t.0).collect();
    assert_eq!(
        kinds,
        vec![Err(()), Ok(CelerToken::Number), Err(()), Err(()), Err(()), Ok(CelerToken::Identifier)]
    );
    assert_eq!(toks[1].1, "1");
    assert_eq!(toks[2].1, ".");
    assert_eq!(toks[5].1, "open");
}

#[test]
fn lexer_carriage_return_is_not_a_blank() {
    let toks = lex_all("WHEN\r\nLOG");
    assert_eq!(toks.len(), 3);
    assert_eq!(toks[1].0, Err(()));
    assert_eq!(toks[1].1, "\r");
}
