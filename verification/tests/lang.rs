use rustlab::ast::{Expr, Statement};
use rustlab::evaluator::{
    evaluate_expr, exe_stmt, try_evaluate_expr, try_exe_stmt, Env, RunStatus, RuntimeEval,
};
use rustlab::parser::{Parser, SyntaxError};
use rustlab::token::Token;
use rustlab::tokenizer::{
    classify_from_matches, word_pattern, Tokenizer, CHAR_PATTERN, LT_PATTERN, WORD_PATTERN_COUNT,
};

fn tokens_of(src: &str) -> Vec<Token> {
    Tokenizer::tokenize(src.into()).get_tokens()
}

fn run_line(src: &str, env: &mut Env) {
    let t = Tokenizer::tokenize(src.into());
    let mut p = Parser::new(t.get_tokens());
    if let Some(stmt) = p.parse_statement() {
        exe_stmt(&stmt, env);
    }
}

#[test]
fn example_tokenize() {
    let mut tok = "x = 100";
    println!("Token: {}", tok);
    let mut t = Tokenizer::tokenize(tok.into());
    println!("{:?}", t.get_tokens());

    tok = "for i in 10";
    println!("Token: {}", tok);
    t = Tokenizer::tokenize(tok.into());
    println!("{:?}", t.get_tokens());

    tok = "true false func x 10000 +6 -111 for ( in ) 1.2 + -";
    println!("Token: {}", tok);
    t = Tokenizer::tokenize(tok.into());
    println!("{:?}", t.get_tokens());
}

#[test]
fn eval_num_str() {
    let mut env = Env::new();

    let tok = "x = 3 * 4 + \"M\"";
    let t = Tokenizer::tokenize(tok.into());

    let mut p = Parser::new(t.get_tokens());
    if let Some(stmt) = p.parse_statement() {
        println!("Parser created AST: {:?}", stmt);
        exe_stmt(&stmt, &mut env);
        println!("After executing Statement:\n{:?}", stmt);
    }

    if env.contains_key("x") {
        println!("{:?}", env.get("x"));
    }

    assert_eq!(env.contains_key("x"), true);
    assert_eq!(env.get("x"), Some(&RuntimeEval::Str("12M".into())));
}

#[test]
fn test_while_if() {
    let mut env = Env::new();

    let tok = vec![
        "a = 1",
        "while a <= 10 do x = 10 a = a + 1 end",
        "if a > 10 then x = 4 end",
    ];
    for i in 0..tok.len() {
        println!("Input: {}", tok[i]);

        let t = Tokenizer::tokenize(tok[i].into());
        println!("Tokens: {:?}", t.get_tokens());

        let mut p = Parser::new(t.get_tokens());

        if let Some(stmt) = p.parse_statement() {
            println!("Parser created AST: {:?}\n", stmt);
            exe_stmt(&stmt, &mut env);
            println!("After executing Statement:\n{:?}", stmt);
        }
        if env.contains_key("a") {
            println!("{:?}", env.get("a"));
        }
        if env.contains_key("x") {
            println!("{:?}", env.get("x"));
        }
    }
}

#[test]
fn tokenize_assignment_words() {
    assert_eq!(
        tokens_of("x = 100"),
        vec![Token::Var("x".into()), Token::ASSIGN, Token::Number(100)]
    );
}

#[test]
fn tokenize_keywords_and_symbols() {
    assert_eq!(
        tokens_of("true false func x 10000 +6 -111 for ( in ) 1.2 + -"),
        vec![
            Token::Bool(true),
            Token::Bool(false),
            Token::Func,
            Token::Var("x".into()),
            Token::Number(10000),
            Token::Number(6),
            Token::Number(-111),
            Token::FOR,
            Token::SPARENT,
            Token::IN,
            Token::EPARENT,
            Token::Float("1.2".into()),
            Token::PLUS,
            Token::MINUS,
        ]
    );
}

#[test]
fn tokenize_comparisons_and_quotes() {
    assert_eq!(
        tokens_of("== != >= <= > < \"hi\" 'a' ^ * / [ ]"),
        vec![
            Token::EQ,
            Token::UNEQ,
            Token::GE,
            Token::LE,
            Token::GT,
            Token::LT,
            Token::Str("hi".into()),
            Token::Char,
            Token::SQ,
            Token::STAR,
            Token::SLASH,
            Token::SquareSbracket,
            Token::Unknown,
        ]
    );
}

#[test]
fn tokenize_skips_comments_and_splits_lines() {
    assert_eq!(
        tokens_of("a = 1 -- the rest is ignored\r\nif a then end"),
        vec![
            Token::Var("a".into()),
            Token::ASSIGN,
            Token::Number(1),
            Token::IF,
            Token::Var("a".into()),
            Token::THEN,
            Token::END,
        ]
    );
    assert_eq!(tokens_of("-- only a comment"), vec![]);
    assert_eq!(tokens_of(""), vec![]);
}

#[test]
fn tokenize_keyword_inside_a_word() {
    // "index" holds "in", which is tried before the variable pattern.
    assert_eq!(tokens_of("index"), vec![Token::IN]);
    assert_eq!(tokens_of("let"), vec![Token::LET]);
}

#[test]
fn tokenize_refuses_unreadable_words() {
    assert!(Tokenizer::try_tokenize("x1".into()).is_none());
    assert!(Tokenizer::try_tokenize("1.2.3".into()).is_none());
    assert!(Tokenizer::try_tokenize("99999999999999999999".into()).is_none());
    assert!(Tokenizer::try_tokenize("é\"x\"".into()).is_none());
    assert_eq!(Tokenizer::try_tokenize("a b c".into()).unwrap().len(), 3);
}

#[test]
fn tokenize_float_forms() {
    assert_eq!(tokens_of("1.5e3"), vec![Token::Float("1.5e3".into())]);
    assert_eq!(tokens_of("-2."), vec![Token::Float("-2.".into())]);
    assert_eq!(tokens_of("-9223372036854775808"), vec![Token::Number(i64::MIN)]);
}

#[test]
fn parse_precedence() {
    let mut p = Parser::new(tokens_of("1 + 2 * 3 - 4"));
    let e = p.parse().unwrap();
    let lit = |n| Box::new(Expr::Literal(Token::Number(n)));
    assert_eq!(
        e,
        Expr::Subtraction(
            Box::new(Expr::Addition(lit(1), Box::new(Expr::Multiplication(lit(2), lit(3))))),
            lit(4)
        )
    );
    assert!(p.peek().is_none());
}

#[test]
fn parse_condition_with_boolean() {
    let mut p = Parser::new(tokens_of("a == true"));
    let e = p.parse_cond().unwrap();
    assert_eq!(
        e,
        Expr::Comparison(
            Box::new(Expr::Literal(Token::Var("a".into()))),
            Token::EQ,
            Box::new(Expr::Literal(Token::Bool(true)))
        )
    );
}

#[test]
fn parse_let_and_failures() {
    let mut p = Parser::new(tokens_of("let y = 2"));
    match p.parse_statement() {
        Some(Statement::LET(name, Expr::Literal(Token::Number(2)))) => assert_eq!(name, "y"),
        other => panic!("unexpected {:?}", other),
    }
    let mut p = Parser::new(tokens_of("let 5 = 2"));
    assert!(p.parse_statement().is_none());
    let mut p = Parser::new(tokens_of("+ 1"));
    assert!(p.parse_statement().is_none());
    assert_eq!(p.peek(), Some(&Token::PLUS));
}

#[test]
fn parse_next_moves_forward() {
    let mut p = Parser::new(tokens_of("a b"));
    assert_eq!(p.next(), Some(&Token::Var("a".into())));
    assert_eq!(p.next(), Some(&Token::Var("b".into())));
    assert_eq!(p.next(), None);
    assert_eq!(p.peek(), None);
}

#[test]
fn parse_while_body() {
    let mut p = Parser::new(tokens_of("while a < 3 do a = a + 1 end"));
    match p.parse_statement() {
        Some(Statement::WHILE(_, body)) => assert_eq!(body.len(), 1),
        other => panic!("unexpected {:?}", other),
    }
}

#[test]
fn evaluate_arithmetic() {
    let mut env = Env::new();
    run_line("a = 7 / 2", &mut env);
    assert_eq!(env.get("a"), Some(&RuntimeEval::Number(3)));
    run_line("b = 0 - 7 / 2", &mut env);
    assert_eq!(env.get("b"), Some(&RuntimeEval::Number(-3)));
    run_line("c = \"ab\" * 3", &mut env);
    assert_eq!(env.get("c"), Some(&RuntimeEval::Str("ababab".into())));
    run_line("d = 2 * \"x\" + 5", &mut env);
    assert_eq!(env.get("d"), Some(&RuntimeEval::Str("xx5".into())));
    run_line("e = 0 - 5 + \"!\"", &mut env);
    assert_eq!(env.get("e"), Some(&RuntimeEval::Str("-5!".into())));
    assert_eq!(env.len(), 5);
}

#[test]
fn evaluate_comparisons() {
    let env = Env::new();
    let value = |src: &str| {
        let mut p = Parser::new(tokens_of(src));
        let e = p.parse_cond().unwrap();
        try_evaluate_expr(&e, &env)
    };
    assert_eq!(value("1 < \"x\""), Some(RuntimeEval::Bool(true)));
    assert_eq!(value("\"ab\" < \"b\""), Some(RuntimeEval::Bool(true)));
    assert_eq!(value("\"b\" <= \"ab\""), Some(RuntimeEval::Bool(false)));
    assert_eq!(value("3 != 3"), Some(RuntimeEval::Bool(false)));
    assert_eq!(value("4 >= 4"), Some(RuntimeEval::Bool(true)));
    assert_eq!(value("\"a\" == \"a\""), Some(RuntimeEval::Bool(true)));
    assert_eq!(value("1 + 1"), Some(RuntimeEval::Number(2)));
}

#[test]
fn assignment_takes_a_sum_only() {
    let mut env = Env::new();
    run_line("a = 1 < \"x\"", &mut env);
    assert_eq!(env.get("a"), Some(&RuntimeEval::Number(1)));
}

#[test]
fn evaluate_failures() {
    let env = Env::new();
    let fails = |src: &str| {
        let mut p = Parser::new(tokens_of(src));
        let e = p.parse().unwrap();
        try_evaluate_expr(&e, &env).is_none()
    };
    assert!(fails("1 / 0"));
    assert!(fails("y + 1"));
    assert!(fails("\"a\" - 1"));
    assert!(fails("9223372036854775807 + 1"));
    assert!(fails("\"a\" * \"b\""));
    assert!(!fails("9223372036854775807 * 1"));
    let mut p = Parser::new(tokens_of("2 + 3"));
    let e = p.parse().unwrap();
    assert_eq!(evaluate_expr(&e, &env), RuntimeEval::Number(5));
}

#[test]
fn run_with_fuel() {
    let t = Tokenizer::tokenize("while 1 < 2 do x = 1 end".into());
    let stmt = Parser::new(t.get_tokens()).parse_statement().unwrap();
    let mut env = Env::new();
    assert_eq!(try_exe_stmt(&stmt, &mut env, 5), RunStatus::OutOfFuel);
    assert_eq!(env.len(), 0);

    let t = Tokenizer::tokenize("if 1 then x = 1 end".into());
    let stmt = Parser::new(t.get_tokens()).parse_statement().unwrap();
    assert_eq!(try_exe_stmt(&stmt, &mut env, 5), RunStatus::Failed);

    let t = Tokenizer::tokenize("while x < 3 do x = x + 1 end".into());
    let stmt = Parser::new(t.get_tokens()).parse_statement().unwrap();
    env.insert("x".into(), RuntimeEval::Number(0));
    assert_eq!(try_exe_stmt(&stmt, &mut env, 2), RunStatus::OutOfFuel);
    assert_eq!(env.get("x"), Some(&RuntimeEval::Number(0)));
    assert_eq!(try_exe_stmt(&stmt, &mut env, 4), RunStatus::Done);
    assert_eq!(env.get("x"), Some(&RuntimeEval::Number(3)));
}

#[test]
fn env_insert_replaces() {
    let mut env = Env::new();
    env.insert("a".into(), RuntimeEval::Number(1));
    env.insert("b".into(), RuntimeEval::Bool(true));
    env.insert("a".into(), RuntimeEval::Str("z".into()));
    assert_eq!(env.len(), 2);
    assert_eq!(env.get("a"), Some(&RuntimeEval::Str("z".into())));
    assert_eq!(env.get("b"), Some(&RuntimeEval::Bool(true)));
    assert!(!env.contains_key("c"));
}

#[test]
fn parse_syntax_errors() {
    let mut p = Parser::new(tokens_of("if a x = 1 end"));
    assert_eq!(p.try_parse_statement().err(), Some(SyntaxError));
    let mut p = Parser::new(tokens_of("while a do x = 1"));
    assert_eq!(p.try_parse_statement().err(), Some(SyntaxError));
    let mut p = Parser::new(tokens_of("if a then if b then x = 1 end end"));
    match p.try_parse_statement() {
        Ok(Some(Statement::IF(_, body))) => assert_eq!(body.len(), 1),
        other => panic!("unexpected {:?}", other),
    }
    let mut p = Parser::new(tokens_of("if a then end"));
    match p.parse_if_cond() {
        Some(Statement::IF(_, body)) => assert!(body.is_empty()),
        other => panic!("unexpected {:?}", other),
    }
}

#[test]
fn comment_text_is_ignored() {
    assert_eq!(tokens_of("-- Comment a = 1"), vec![]);
    assert_eq!(
        tokens_of("a = 1 -- b = 2"),
        vec![Token::Var("a".into()), Token::ASSIGN, Token::Number(1)]
    );
    assert_eq!(tokens_of("a = 1 -- b = 2"), tokens_of("a = 1 "));
    assert_eq!(tokens_of("x = 2--3"), tokens_of("x = 2"));
}

#[test]
fn joined_lines_concatenate_tokens() {
    let a = "x = 1 -- set x";
    let b = "y = x + 2";
    let mut expected = tokens_of(a);
    expected.extend(tokens_of(b));
    assert_eq!(tokens_of(&format!("{}\n{}", a, b)), expected);
    assert_eq!(tokens_of(&format!("{}\r\n{}", "z\t", b)), {
        let mut v = tokens_of("z");
        v.extend(tokens_of(b));
        v
    });
}

#[test]
fn classification_from_given_answers() {
    let chars = |s: &str| s.chars().collect::<Vec<char>>();
    let with = |k: usize| {
        let mut v = vec![false; WORD_PATTERN_COUNT];
        v[k] = true;
        v
    };
    assert_eq!(word_pattern(0), CHAR_PATTERN);
    assert_eq!(word_pattern(WORD_PATTERN_COUNT - 1), LT_PATTERN);
    assert_eq!(classify_from_matches(&[], &chars("abc")), Some(Token::Unknown));
    assert_eq!(classify_from_matches(&with(0), &chars("'a'")), Some(Token::Char));
    assert_eq!(classify_from_matches(&with(1), &chars("\"hi\"")), Some(Token::Str("hi".into())));
    assert_eq!(classify_from_matches(&with(2), &chars("true")), Some(Token::Bool(true)));
    assert_eq!(classify_from_matches(&with(2), &chars("false")), Some(Token::Bool(false)));
    assert_eq!(classify_from_matches(&with(3), &chars("-12")), Some(Token::Number(-12)));
    assert_eq!(classify_from_matches(&with(3), &chars("1.5")), Some(Token::Float("1.5".into())));
    assert_eq!(classify_from_matches(&with(3), &chars("1.2.3")), None);
    assert_eq!(classify_from_matches(&with(4), &chars("+")), Some(Token::PLUS));
    assert_eq!(classify_from_matches(&with(26), &chars("abc")), Some(Token::Var("abc".into())));
    // An earlier answer wins over a later one.
    let mut both = with(26);
    both[9] = true;
    assert_eq!(classify_from_matches(&both, &chars("let")), Some(Token::LET));
}
