use i6::shell::lang::{
    ASTNode, Action, DefaultInterpreter, DefaultLexer, DefaultParser, Diagnostic, Interpreter,
    Lexer, Outcome, Parser, TokenType,
};

#[test]
fn builtin_lexer_knows_input_redirection() {
    let tokens = DefaultLexer::_run("sort < file");
    let kinds: Vec<TokenType> = tokens.iter().map(|t| t.token_type).collect();
    assert_eq!(kinds, vec![TokenType::Command, TokenType::Operator, TokenType::Command]);
}

#[test]
fn builtin_plain_command_plan() {
    let ast = DefaultParser::_run(DefaultLexer::_run("grep a  b"));
    let plan = DefaultInterpreter::_run(&ast);
    assert_eq!(plan.outcome, Outcome::LastRun);
    assert_eq!(plan.steps.len(), 3);
    match &plan.steps[0] {
        Action::ShowNodes { nodes } => assert_eq!(
            format!("{:?}", nodes),
            r#"[Argument { value: "a" }, Argument { value: "b" }]"#
        ),
        _ => panic!("expected the argument nodes"),
    }
    match &plan.steps[1] {
        Action::ShowWords { words } => assert_eq!(format!("{:?}", words), r#"["a", "b"]"#),
        _ => panic!("expected the argument texts"),
    }
    match &plan.steps[2] {
        Action::Run { name, args, input } => {
            assert_eq!(name, "grep");
            assert_eq!(args, &vec!["a".to_string(), "b".to_string()]);
            assert_eq!(input, "a b");
        }
        _ => panic!("expected a run"),
    }
}

#[test]
fn builtin_pipe_is_an_unknown_operator() {
    let (ast, reports) = DefaultParser::parse_with_reports(DefaultLexer::_run("ls | grep x"));
    assert_eq!(reports, 0);
    match &ast {
        ASTNode::Operator { op, args } => {
            assert_eq!(op, "|");
            assert_eq!(args.len(), 2);
        }
        _ => panic!("expected an operator"),
    }
    let plan = DefaultInterpreter::_run(&ast);
    assert!(plan.steps.is_empty());
    assert_eq!(plan.outcome, Outcome::Failed(Diagnostic::UnknownOperator));
}

#[test]
fn builtin_and_chain_succeeds_empty() {
    let ast = DefaultParser::_run(DefaultLexer::_run("pwd && ls x"));
    let plan = DefaultInterpreter::_run(&ast);
    assert_eq!(plan.outcome, Outcome::Empty);
    let names: Vec<String> = plan
        .steps
        .iter()
        .map(|s| match s {
            Action::Run { name, .. } => name.clone(),
            Action::Report { .. } => "report".to_string(),
            Action::ShowNodes { .. } => "nodes".to_string(),
            Action::ShowWords { .. } => "words".to_string(),
        })
        .collect();
    assert_eq!(names, vec!["nodes", "words", "pwd", "nodes", "words", "ls"]);
}

#[test]
fn builtin_bare_argument_fails() {
    let plan = DefaultInterpreter::_run(&ASTNode::Argument { value: "v".to_string() });
    assert!(plan.steps.is_empty());
    assert_eq!(plan.outcome, Outcome::Failed(Diagnostic::InvalidSyntax));
}

#[test]
fn builtin_misplaced_argument_shown_then_reported() {
    let ast = ASTNode::Command {
        name: "echo".to_string(),
        args: vec![
            ASTNode::Argument { value: "a".to_string() },
            ASTNode::Command { name: "x".to_string(), args: vec![] },
        ],
    };
    let plan = DefaultInterpreter::_run(&ast);
    let kinds: Vec<String> = plan
        .steps
        .iter()
        .map(|s| match s {
            Action::Run { input, .. } => format!("run [{}]", input),
            Action::Report { diagnostic } => format!("report {:?}", diagnostic),
            Action::ShowNodes { nodes } => format!("{:?}", nodes),
            Action::ShowWords { words } => format!("{:?}", words),
        })
        .collect();
    assert_eq!(
        kinds,
        vec![
            r#"[Argument { value: "a" }, Command { name: "x", args: [] }]"#.to_string(),
            "report InvalidSyntax".to_string(),
            r#"["a", ""]"#.to_string(),
            "run [a ]".to_string(),
        ]
    );
}
