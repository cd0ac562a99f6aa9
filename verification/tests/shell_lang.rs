use i6::i6_shell::lang::{
    ASTNode, Action, DefaultInterpreter, DefaultLexer, DefaultParser, Diagnostic, Interpreter,
    InterpreterTraitObject, Lexer, LexerTraitObject, Parser, ParserTraitObject, Token, TokenType,
};

fn kinds(tokens: &[Token]) -> Vec<TokenType> {
    tokens.iter().map(|t| t.token_type).collect()
}

fn values(tokens: &[Token]) -> Vec<String> {
    tokens.iter().map(|t| t.value.clone()).collect()
}

#[test]
fn lexer_classifies_words() {
    let tokens = DefaultLexer::_run("  ls -la  | grep  foo && echo hi ");
    assert_eq!(values(&tokens), vec!["ls", "-la", "|", "grep", "foo", "&&", "echo", "hi"]);
    assert_eq!(
        kinds(&tokens),
        vec![
            TokenType::Command,
            TokenType::Argument,
            TokenType::Operator,
            TokenType::Command,
            TokenType::Argument,
            TokenType::Operator,
            TokenType::Command,
            TokenType::Argument,
        ]
    );
}

#[test]
fn lexer_empty_line_has_no_tokens() {
    assert!(DefaultLexer.run("   \t ").is_empty());
}

#[test]
fn lexer_operators_and_unicode_space() {
    let tokens = DefaultLexer::_run("a\u{3000}>>\u{a0}b || c > d");
    assert_eq!(values(&tokens), vec!["a", ">>", "b", "||", "c", ">", "d"]);
    assert_eq!(tokens[1].token_type, TokenType::Operator);
    assert_eq!(tokens[2].token_type, TokenType::Command);
    assert_eq!(tokens[5].token_type, TokenType::Operator);
}

#[test]
fn lexer_operator_first_then_command() {
    let tokens = DefaultLexer::_run("&& x y");
    assert_eq!(kinds(&tokens), vec![TokenType::Operator, TokenType::Command, TokenType::Argument]);
}

fn command_parts(node: &ASTNode) -> (String, Vec<String>) {
    match node {
        ASTNode::Command { name, args } => (
            name.clone(),
            args.iter()
                .map(|a| match a {
                    ASTNode::Argument { value } => value.clone(),
                    _ => panic!("not an argument"),
                })
                .collect(),
        ),
        _ => panic!("not a command"),
    }
}

#[test]
fn parser_plain_command() {
    let ast = DefaultParser::_run(DefaultLexer::_run("echo a b"));
    assert_eq!(command_parts(&ast), ("echo".to_string(), vec!["a".to_string(), "b".to_string()]));
}

#[test]
fn parser_pipe() {
    let ast = DefaultParser.run(DefaultLexer::_run("ls -l | grep x"));
    match ast {
        ASTNode::Pipe { left, right } => {
            assert_eq!(command_parts(&left), ("ls".to_string(), vec!["-l".to_string()]));
            assert_eq!(command_parts(&right), ("grep".to_string(), vec!["x".to_string()]));
        }
        _ => panic!("expected a pipe"),
    }
}

#[test]
fn parser_and_chain_nests_left() {
    let ast = DefaultParser::_run(DefaultLexer::_run("a && b && c"));
    match ast {
        ASTNode::Operator { op, args } => {
            assert_eq!(op, "&&");
            assert_eq!(args.len(), 2);
            match &args[0] {
                ASTNode::Operator { op, args } => {
                    assert_eq!(op, "&&");
                    assert_eq!(command_parts(&args[0]).0, "a");
                    assert_eq!(command_parts(&args[1]).0, "b");
                }
                _ => panic!("expected an operator"),
            }
            assert_eq!(command_parts(&args[1]).0, "c");
        }
        _ => panic!("expected an operator"),
    }
}

#[test]
fn parser_invalid_start_gives_default_and_report() {
    let (ast, reports) = DefaultParser::parse_checked(DefaultLexer::_run("&& x")).unwrap();
    assert!(matches!(ast, ASTNode::Argument { ref value } if value.is_empty()));
    assert_eq!(reports, 1);
    let (_, reports) = DefaultParser::parse_checked(Vec::new()).unwrap();
    assert_eq!(reports, 1);
}

#[test]
fn parser_stray_command_token_is_reported() {
    let tokens = vec![
        Token { token_type: TokenType::Command, value: "a".to_string() },
        Token { token_type: TokenType::Command, value: "b".to_string() },
        Token { token_type: TokenType::Argument, value: "c".to_string() },
    ];
    let (ast, reports) = DefaultParser::parse_checked(tokens).unwrap();
    assert_eq!(reports, 1);
    assert_eq!(command_parts(&ast), ("a".to_string(), vec!["c".to_string()]));
}

#[test]
fn parser_pipe_without_command_is_refused() {
    assert!(DefaultParser::parse_checked(DefaultLexer::_run("ls |")).is_none());
    assert!(DefaultParser::parse_checked(DefaultLexer::_run("ls | | x")).is_none());
}

fn action_summary(actions: &[Action]) -> Vec<String> {
    actions
        .iter()
        .map(|a| match a {
            Action::Run { name, args, input } => format!("run {} {:?} [{}]", name, args, input),
            Action::StartPipe { name, args } => format!("start {} {:?}", name, args),
            Action::FinishPipe { name, args } => format!("finish {} {:?}", name, args),
            Action::Report { diagnostic } => format!("report {:?}", diagnostic),
            Action::ShowWords { words } => format!("show {:?}", words),
        })
        .collect()
}

#[test]
fn interpreter_runs_and_chain_in_order() {
    let ast = DefaultParser::_run(DefaultLexer::_run("echo a  b && ls"));
    let actions = DefaultInterpreter::_run(ast);
    assert_eq!(
        action_summary(&actions),
        vec!["run echo [\"a\", \"b\"] [a b]", "run ls [] []"]
    );
}

#[test]
fn interpreter_pipe_actions() {
    let ast = DefaultParser::_run(DefaultLexer::_run("cat f | grep x"));
    let actions = DefaultInterpreter.run(ast);
    assert_eq!(
        action_summary(&actions),
        vec!["start cat [\"f\"]", "show [\"x\"]", "finish grep [\"x\"]"]
    );
}

#[test]
fn interpreter_unknown_operator_and_bare_argument() {
    let ast = DefaultParser::_run(DefaultLexer::_run("a || b"));
    let actions = DefaultInterpreter::_run(ast);
    assert!(matches!(actions[..], [Action::Report { diagnostic: Diagnostic::UnknownOperator }]));
    let actions = DefaultInterpreter::_run(ASTNode::default());
    assert!(matches!(actions[..], [Action::Report { diagnostic: Diagnostic::InvalidSyntax }]));
}

#[test]
fn interpreter_reports_misplaced_arguments() {
    let ast = ASTNode::Command {
        name: "x".to_string(),
        args: vec![
            ASTNode::Argument { value: "1".to_string() },
            ASTNode::Command { name: "y".to_string(), args: vec![] },
        ],
    };
    let actions = DefaultInterpreter::_run(ast);
    assert_eq!(
        action_summary(&actions),
        vec!["report InvalidSyntax", "run x [\"1\", \"\"] [1 ]"]
    );
}

#[test]
fn interpreter_pipe_with_non_command_right() {
    let ast = ASTNode::Pipe {
        left: Box::new(ASTNode::Command { name: "a".to_string(), args: vec![] }),
        right: Box::new(ASTNode::Argument { value: "z".to_string() }),
    };
    assert_eq!(action_summary(&DefaultInterpreter::_run(ast)), vec!["start a []"]);
    let ast = ASTNode::Pipe {
        left: Box::new(ASTNode::Argument { value: "z".to_string() }),
        right: Box::new(ASTNode::Command { name: "a".to_string(), args: vec![] }),
    };
    assert!(DefaultInterpreter::_run(ast).is_empty());
}
