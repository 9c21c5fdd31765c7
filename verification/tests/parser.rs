use frontend::ast::{Expression, Node, NodeTrait, Program, Statement};
use frontend::diagnostic::{Diagnostic, Expected};
use frontend::grammar::{lookup_infix, lookup_prefix, lookup_statement, Precedence, PrefixRule, StatementRule};
use frontend::lexer::Lexer;
use frontend::parser::{parse, Parser};
use frontend::token::TokenType;

fn show(expression: &Expression) -> String {
    match expression {
        Expression::IntegerLiteral { token } => token.literal.clone(),
        Expression::IdentifierRef(identifier) => identifier.value.clone(),
        Expression::PrefixExpression { operator, operand } => {
            format!("({}{})", operator.literal, show(operand))
        }
        Expression::InfixExpression { operator, left, right } => {
            format!("({} {} {})", show(left), operator.literal, show(right))
        }
    }
}

fn show_statement(statement: &Statement) -> String {
    match statement {
        Statement::LetStatement(s) => format!(
            "{} {} = {};",
            s.token.literal,
            s.name.as_ref().unwrap().value,
            show(s.value.as_ref().unwrap())
        ),
        Statement::ExpressionStatement(s) => format!("{};", show(&s.expression)),
    }
}

fn run(input: &str) -> (Vec<String>, Vec<Diagnostic>) {
    let mut parser = Parser::new(Lexer::new(input.to_string()));
    let program = parser.parse_program();
    assert_eq!(parser.current_token.typo, TokenType::EOF);
    (program.statements.iter().map(show_statement).collect(), parser.diagnostics)
}

fn statements_of(input: &str) -> Vec<String> {
    let (statements, diagnostics) = run(input);
    assert!(diagnostics.is_empty(), "{:?}", diagnostics);
    statements
}

fn failure(d: &Diagnostic) -> (Expected, TokenType, String) {
    (d.expected, d.found.typo, d.found.literal.clone())
}

#[test]
fn test_let_statements() {
    let input = r"let x = 5;
                          let y = 10;
                          let foobar = 838383;";
    let l = Lexer::new(input.to_string());
    let mut p = Parser::new(l);
    let program = p.parse_program();

    assert_eq!(
        program.statements.len(),
        3,
        "Program.statements does not contain 3 statements got={}",
        program.statements.len()
    );

    struct ExpectedIdentifier<'a> {
        value: &'a str,
    }

    let tests = vec![
        ExpectedIdentifier { value: "x" },
        ExpectedIdentifier { value: "y" },
        ExpectedIdentifier { value: "foobar" },
    ];

    for (i, tt) in tests.iter().enumerate() {
        let stmt = match &program.statements[i] {
            Statement::LetStatement(x) => x,
            _ => panic!("Expected letStatement, found {:?}", &program.statements[1]),
        };

        assert_eq!(
            stmt.token.literal,
            String::from("let"),
            "s.token.literal not 'let'. got={}",
            stmt.token.literal
        );

        assert_eq!(
            stmt.name.as_ref().unwrap().value.to_string(),
            tt.value,
            "stmt.Name.Value not'{}'.got={}",
            tt.value,
            stmt.name.as_ref().unwrap().value.to_string()
        );

        assert_eq!(
            stmt.name.as_ref().unwrap().token.literal.to_string(),
            tt.value,
            "s.name not '{}'. got={}",
            tt.value,
            stmt.name.as_ref().unwrap().token.literal.to_string(),
        )
    }
}

#[test]
fn single_let_statement() {
    let mut parser = Parser::new(Lexer::new("let x = 5;".to_string()));
    let program = parser.parse_program();
    assert!(parser.diagnostics.is_empty());
    assert_eq!(program.statements.len(), 1);
    match &program.statements[0] {
        Statement::LetStatement(s) => {
            assert_eq!(s.token.typo, TokenType::Let);
            assert_eq!(s.token.literal, "let");
            let name = s.name.as_ref().unwrap();
            assert_eq!(name.value, "x");
            assert_eq!(name.token.typo, TokenType::Ident);
            assert_eq!(name.token.literal, "x");
            assert_eq!(show(s.value.as_ref().unwrap()), "5");
        }
        other => panic!("not a let statement: {:?}", other),
    }
}

#[test]
fn three_let_statements_in_order() {
    assert_eq!(
        statements_of("let x = 5; let y = 10; let foobar = 838383;"),
        vec!["let x = 5;", "let y = 10;", "let foobar = 838383;"]
    );
}

#[test]
fn let_without_assign_is_one_diagnostic_and_no_statement() {
    let (statements, diagnostics) = run("let x 5;");
    assert_eq!(statements.len(), 0);
    assert_eq!(diagnostics.len(), 1);
    assert_eq!(
        failure(&diagnostics[0]),
        (Expected::Kind(TokenType::Assign), TokenType::Int, "5".to_string())
    );
}

#[test]
fn let_without_name_is_one_diagnostic() {
    let (statements, diagnostics) = run("let = 5;");
    assert!(statements.is_empty());
    assert_eq!(diagnostics.len(), 1);
    assert_eq!(
        failure(&diagnostics[0]),
        (Expected::Kind(TokenType::Ident), TokenType::Assign, "=".to_string())
    );
}

#[test]
fn let_without_value_is_one_diagnostic() {
    let (statements, diagnostics) = run("let x = ;");
    assert!(statements.is_empty());
    assert_eq!(diagnostics.len(), 1);
    assert_eq!(
        failure(&diagnostics[0]),
        (Expected::Expression, TokenType::SemiColon, ";".to_string())
    );
}

#[test]
fn let_cut_short_by_the_end_of_input() {
    let (statements, diagnostics) = run("let x =");
    assert!(statements.is_empty());
    assert_eq!(diagnostics.len(), 1);
    assert_eq!(failure(&diagnostics[0]), (Expected::Expression, TokenType::EOF, "\0".to_string()));

    let (statements, diagnostics) = run("let");
    assert!(statements.is_empty());
    assert_eq!(diagnostics.len(), 1);
    assert_eq!(
        failure(&diagnostics[0]),
        (Expected::Kind(TokenType::Ident), TokenType::EOF, "\0".to_string())
    );
}

#[test]
fn missing_terminator_is_accepted() {
    assert_eq!(statements_of("let x = 5"), vec!["let x = 5;"]);
    assert_eq!(statements_of("x + 1"), vec!["(x + 1);"]);
    assert_eq!(statements_of("5 5"), vec!["5;", "5;"]);
}

#[test]
fn lone_plus_is_no_statement() {
    let (statements, diagnostics) = run("+");
    assert_eq!(statements.len(), 0);
    assert_eq!(diagnostics.len(), 1);
    assert_eq!(failure(&diagnostics[0]), (Expected::Expression, TokenType::EOF, "\0".to_string()));
}

#[test]
fn token_that_starts_no_expression() {
    let (statements, diagnostics) = run(")");
    assert!(statements.is_empty());
    assert_eq!(diagnostics.len(), 1);
    assert_eq!(failure(&diagnostics[0]), (Expected::Expression, TokenType::Rparen, ")".to_string()));

    let (statements, diagnostics) = run("@;");
    assert!(statements.is_empty());
    assert_eq!(diagnostics.len(), 1);
    assert_eq!(
        failure(&diagnostics[0]),
        (Expected::Expression, TokenType::Illegal, "@".to_string())
    );
}

#[test]
fn parsing_resumes_after_the_failed_statement() {
    let (statements, diagnostics) = run("let x 5; let y = 10; let = 3; z;");
    assert_eq!(statements, vec!["let y = 10;", "z;"]);
    assert_eq!(diagnostics.len(), 2);
    assert_eq!(
        failure(&diagnostics[0]),
        (Expected::Kind(TokenType::Assign), TokenType::Int, "5".to_string())
    );
    assert_eq!(
        failure(&diagnostics[1]),
        (Expected::Kind(TokenType::Ident), TokenType::Assign, "=".to_string())
    );
}

#[test]
fn lone_semicolon_is_one_diagnostic() {
    let (statements, diagnostics) = run("; x;");
    assert_eq!(statements, vec!["x;"]);
    assert_eq!(diagnostics.len(), 1);
    assert_eq!(
        failure(&diagnostics[0]),
        (Expected::Expression, TokenType::SemiColon, ";".to_string())
    );
}

#[test]
fn expression_statements() {
    assert_eq!(statements_of("foobar;"), vec!["foobar;"]);
    assert_eq!(statements_of("5;"), vec!["5;"]);
    assert_eq!(statements_of("+5;"), vec!["(+5);"]);
    assert_eq!(statements_of("a + b;"), vec!["(a + b);"]);
}

#[test]
fn sum_groups_to_the_left() {
    assert_eq!(statements_of("a + b + c"), vec!["((a + b) + c);"]);
    assert_eq!(statements_of("1 + 2 + 3 + 4;"), vec!["(((1 + 2) + 3) + 4);"]);
}

#[test]
fn sum_binds_tighter_than_comparison() {
    assert_eq!(statements_of("a + b == c + d"), vec!["((a + b) == (c + d));"]);
    assert_eq!(statements_of("a == b + c"), vec!["(a == (b + c));"]);
    assert_eq!(statements_of("a != b == c"), vec!["((a != b) == c);"]);
    assert_eq!(statements_of("a == b != c + 1"), vec!["((a == b) != (c + 1));"]);
}

#[test]
fn prefix_binds_tightest() {
    assert_eq!(statements_of("+a + b"), vec!["((+a) + b);"]);
    assert_eq!(statements_of("a + +b"), vec!["(a + (+b));"]);
    assert_eq!(statements_of("++a == b"), vec!["((+(+a)) == b);"]);
}

#[test]
fn let_with_compound_value() {
    assert_eq!(statements_of("let total = a + 2 == b;"), vec!["let total = ((a + 2) == b);"]);
}

#[test]
fn failure_in_a_right_operand() {
    let (statements, diagnostics) = run("a + ; b");
    assert_eq!(statements, vec!["b;"]);
    assert_eq!(diagnostics.len(), 1);
    assert_eq!(
        failure(&diagnostics[0]),
        (Expected::Expression, TokenType::SemiColon, ";".to_string())
    );
}

#[test]
fn parse_program_on_a_lone_plus() {
    let input = "+";
    let lexer = Lexer::new(input.to_string());
    let mut parser = Parser::new(lexer);
    let program = parser.parse_program();

    assert_eq!(program.statements.len(), 0);
    assert_eq!(parser.diagnostics.len(), 1);
}

#[test]
fn whole_source_success() {
    match parse("let x = 5; x + 1;".to_string()) {
        Ok(program) => {
            let shown: Vec<String> = program.statements.iter().map(show_statement).collect();
            assert_eq!(shown, vec!["let x = 5;", "(x + 1);"]);
        }
        Err(failure) => panic!("unexpected diagnostics: {:?}", failure.diagnostics),
    }
    assert!(parse("".to_string()).unwrap().statements.is_empty());
}

#[test]
fn whole_source_failure_keeps_what_parsed() {
    match parse("let a = 1; let b 2; let c = 3;".to_string()) {
        Ok(_) => panic!("a diagnostic was expected"),
        Err(f) => {
            let shown: Vec<String> = f.program.statements.iter().map(show_statement).collect();
            assert_eq!(shown, vec!["let a = 1;", "let c = 3;"]);
            assert_eq!(f.diagnostics.len(), 1);
            assert_eq!(
                failure(&f.diagnostics[0]),
                (Expected::Kind(TokenType::Assign), TokenType::Int, "2".to_string())
            );
        }
    }
}

#[test]
fn window_and_primitives() {
    let mut parser = Parser::new(Lexer::new("let x = 5;".to_string()));
    assert!(parser.current_token_is(TokenType::Let));
    assert!(parser.peek_token_is(TokenType::Ident));
    assert!(!parser.peek_token_is(TokenType::Assign));

    assert!(!parser.expect_peek(TokenType::Assign));
    assert!(parser.current_token_is(TokenType::Let));
    assert!(parser.peek_token_is(TokenType::Ident));

    assert!(parser.expect_peek(TokenType::Ident));
    assert!(parser.current_token_is(TokenType::Ident));
    assert_eq!(parser.current_token.literal, "x");
    assert!(parser.peek_token_is(TokenType::Assign));

    parser.next_token();
    parser.next_token();
    assert!(parser.current_token_is(TokenType::Int));
    parser.next_token();
    parser.next_token();
    assert!(parser.current_token_is(TokenType::EOF));
    parser.next_token();
    assert!(parser.current_token_is(TokenType::EOF));
    assert!(parser.peek_token_is(TokenType::EOF));
    assert!(parser.diagnostics.is_empty());
}

#[test]
fn statement_parsers_leave_the_cursor_on_the_last_token() {
    let mut parser = Parser::new(Lexer::new("let x = 5; y".to_string()));
    let statement = parser.parse_let_statement().unwrap();
    assert_eq!(show_statement(&statement), "let x = 5;");
    assert!(parser.current_token_is(TokenType::SemiColon));
    assert!(parser.peek_token_is(TokenType::Ident));

    let mut parser = Parser::new(Lexer::new("let x 5;".to_string()));
    assert!(parser.parse_statement().is_none());
    assert!(parser.current_token_is(TokenType::Ident));
    assert!(parser.peek_token_is(TokenType::Int));
    assert_eq!(parser.diagnostics.len(), 1);
    parser.skip_to_terminator();
    assert!(parser.current_token_is(TokenType::SemiColon));
    parser.skip_to_terminator();
    assert!(parser.current_token_is(TokenType::SemiColon));

    let mut parser = Parser::new(Lexer::new("a + b c".to_string()));
    let statement = parser.parse_expression_statement().unwrap();
    assert_eq!(show_statement(&statement), "(a + b);");
    assert_eq!(parser.current_token.literal, "b");
}

#[test]
fn expression_stops_at_the_given_precedence() {
    let mut parser = Parser::new(Lexer::new("a + b == c".to_string()));
    let expression = parser.parse_expression(Precedence::Equals).unwrap();
    assert_eq!(show(&expression), "(a + b)");
    assert!(parser.peek_token_is(TokenType::Equal));

    let mut parser = Parser::new(Lexer::new("a + b == c".to_string()));
    let expression = parser.parse_expression(Precedence::Sum).unwrap();
    assert_eq!(show(&expression), "a");
    assert!(parser.peek_token_is(TokenType::Plus));
}

#[test]
fn rule_tables() {
    assert_eq!(lookup_prefix(TokenType::Ident), Some(PrefixRule::Identifier));
    assert_eq!(lookup_prefix(TokenType::Int), Some(PrefixRule::Integer));
    assert_eq!(lookup_prefix(TokenType::Plus), Some(PrefixRule::Unary));
    assert_eq!(lookup_prefix(TokenType::Let), None);
    assert_eq!(lookup_prefix(TokenType::EOF), None);
    assert_eq!(lookup_infix(TokenType::Equal), Precedence::Equals);
    assert_eq!(lookup_infix(TokenType::NotEq), Precedence::Equals);
    assert_eq!(lookup_infix(TokenType::Plus), Precedence::Sum);
    assert_eq!(lookup_infix(TokenType::Assign), Precedence::Lowest);
    assert_eq!(lookup_statement(TokenType::Let), StatementRule::Let);
    assert_eq!(lookup_statement(TokenType::Ident), StatementRule::Expression);
    assert_eq!(Precedence::Lowest.level(), 0);
    assert_eq!(Precedence::Equals.level(), 1);
    assert_eq!(Precedence::Sum.level(), 2);
    assert_eq!(Precedence::Prefix.level(), 3);
}

#[test]
fn token_literals_of_nodes() {
    let program = parse("let x = 5; a + b;".to_string()).unwrap();
    assert_eq!(program.token_literal(), "let");
    assert_eq!(program.statements[0].token_literal(), "let");
    assert_eq!(program.statements[1].token_literal(), "a");
    match &program.statements[1] {
        Statement::ExpressionStatement(s) => {
            assert_eq!(s.expression.token_literal(), "+");
            let copy = s.expression.clone();
            assert_eq!(show(&copy), "(a + b)");
            assert_eq!(Node::Expression(copy).token_literal(), "+");
        }
        other => panic!("not an expression statement: {:?}", other),
    }
    assert_eq!(Node::Statement(program.statements[0].clone()).token_literal(), "let");
    assert_eq!(Node::Program(program).token_literal(), "let");
    assert_eq!(Program::new().token_literal(), "");
    assert_eq!(Program::new().statements.len(), 0);
}

#[test]
fn parsing_stops_at_a_nul_in_the_text() {
    let mut parser = Parser::new(Lexer::new("a; \0 b;".to_string()));
    let program = parser.parse_program();
    assert_eq!(program.statements.len(), 1);
    assert!(parser.diagnostics.is_empty());
    parser.next_token();
    let program = parser.parse_program();
    assert_eq!(program.statements.len(), 1);
    assert_eq!(show_statement(&program.statements[0]), "b;");
}
