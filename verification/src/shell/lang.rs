//! Lexing, parsing and planning the execution of one line of the built-in
//! shell.
//!
//! A line is split at white space into words. Words are classified as
//! operators (`&&`, `||`, `|`, `>`, `>>`, `<`), commands (the first word and
//! any word right after an operator) and arguments. The parser folds the
//! tokens into an [`ASTNode`], and the interpreter turns a tree into an
//! [`ExecPlan`]: the actions that the caller performs in order and what the
//! line evaluates to.

use vstd::prelude::*;
use crate::text::{chars_of, split_whitespace, strings_view, ws_words, join, joined, copy_strings};

verus! {

/// What kind of word a token is.
#[derive(Debug, Clone, Copy, PartialEq, Eq, Structural)]
pub enum TokenType {
    Command,
    Argument,
    Operator,
}

/// One word of a line with its kind.
#[derive(Debug)]
pub struct Token {
    pub token_type: TokenType,
    pub value: String,
}

/// The mathematical content of a [`Token`].
pub struct TokenView {
    pub token_type: TokenType,
    pub value: Seq<char>,
}

impl View for Token {
    type V = TokenView;

    open spec fn view(&self) -> TokenView {
        TokenView { token_type: self.token_type, value: self.value@ }
    }
}

/// The views of a sequence of tokens.
pub open spec fn tokens_view(ts: Seq<Token>) -> Seq<TokenView> {
    ts.map_values(|t: Token| t@)
}

/// The words that the lexer treats as operators.
pub open spec fn is_operator_word(w: Seq<char>) -> bool {
    ||| w == seq!['&', '&']
    ||| w == seq!['|', '|']
    ||| w == seq!['|']
    ||| w == seq!['>']
    ||| w == seq!['>', '>']
    ||| w == seq!['<']
}

/// The kind of the `i`-th word of a line: an operator word is an operator;
/// otherwise the first word and a word after an operator word is a command;
/// every other word is an argument.
pub open spec fn word_token_type(words: Seq<Seq<char>>, i: int) -> TokenType {
    if is_operator_word(words[i]) {
        TokenType::Operator
    } else if i == 0 || is_operator_word(words[i - 1]) {
        TokenType::Command
    } else {
        TokenType::Argument
    }
}

/// The tokens of a line: one per white-space separated word, in order.
pub open spec fn lex_spec(input: Seq<char>) -> Seq<TokenView> {
    let words = ws_words(input);
    Seq::new(
        words.len(),
        |i: int| TokenView { token_type: word_token_type(words, i), value: words[i] },
    )
}

/// Whether `w` is one of the operator words.
pub fn is_operator(w: &String) -> (r: bool)
    ensures
        r == is_operator_word(w@),
{
    let cs = chars_of(w.as_str());
    proof {
        if cs@.len() == 1 {
            assert(w@ =~= seq![cs@[0]]);
            assert(seq![cs@[0]][0] == cs@[0]);
        } else if cs@.len() == 2 {
            assert(w@ =~= seq![cs@[0], cs@[1]]);
            assert(seq![cs@[0], cs@[1]][0] == cs@[0]);
            assert(seq![cs@[0], cs@[1]][1] == cs@[1]);
        }
    }
    if cs.len() == 1 {
        cs[0] == '|' || cs[0] == '>' || cs[0] == '<'
    } else if cs.len() == 2 {
        (cs[0] == '&' && cs[1] == '&') || (cs[0] == '|' && cs[1] == '|') || (cs[0] == '>' && cs[1]
            == '>')
    } else {
        proof {
            assert(cs@.len() != 1 && cs@.len() != 2);
        }
        false
    }
}

/// Turns a line into tokens.
pub trait Lexer: Default {
    /// The tokens of a line.
    spec fn lexed(input: Seq<char>) -> Seq<TokenView>;

    fn _run(input: &str) -> (tokens: Vec<Token>)
        ensures
            tokens_view(tokens@) == Self::lexed(input@),
    ;
}

/// Object-style access to a [`Lexer`].
pub trait LexerTraitObject {
    /// The tokens of a line.
    spec fn lexed(&self, input: Seq<char>) -> Seq<TokenView>;

    fn run(&self, input: &str) -> (tokens: Vec<Token>)
        ensures
            tokens_view(tokens@) == self.lexed(input@),
    ;
}

impl<T: Lexer> LexerTraitObject for T {
    open spec fn lexed(&self, input: Seq<char>) -> Seq<TokenView> {
        <T as Lexer>::lexed(input)
    }

    fn run(&self, input: &str) -> Vec<Token> {
        <T as Lexer>::_run(input)
    }
}

/// The lexer of the shell.
#[derive(Default)]
pub struct DefaultLexer;

impl Lexer for DefaultLexer {
    open spec fn lexed(input: Seq<char>) -> Seq<TokenView> {
        lex_spec(input)
    }

    fn _run(input: &str) -> (tokens: Vec<Token>)
        ensures
            tokens_view(tokens@) == lex_spec(input@),
    {
        let words = split_whitespace(input);
        let ghost ws = ws_words(input@);
        let mut tokens: Vec<Token> = Vec::new();
        let mut prev_is_operator = false;
        let mut i: usize = 0;
        while i < words.len()
            invariant
                i <= words@.len(),
                strings_view(words@) == ws,
                tokens@.len() == i,
                i > 0 ==> prev_is_operator == is_operator_word(ws[i - 1]),
                forall|k: int|
                    0 <= k < i ==> #[trigger] tokens@[k]@ == (TokenView {
                        token_type: word_token_type(ws, k),
                        value: ws[k],
                    }),
            decreases words@.len() - i,
        {
            let word = &words[i];
            let op = is_operator(word);
            let token_type = if op {
                TokenType::Operator
            } else if i == 0 || prev_is_operator {
                TokenType::Command
            } else {
                TokenType::Argument
            };
            assert(ws[i as int] == words@[i as int]@);
            tokens.push(Token { token_type, value: word.clone() });
            prev_is_operator = op;
            i += 1;
        }
        assert(tokens_view(tokens@) == lex_spec(input@));
        tokens
    }
}

} // verus!

verus! {

/// The syntax tree of a line.
#[derive(Debug)]
pub enum ASTNode {
    Command { name: String, args: Vec<ASTNode> },
    Operator { op: String, args: Vec<ASTNode> },
    Argument { value: String },
}

/// The mathematical content of an [`ASTNode`].
pub enum AstView {
    Command { name: Seq<char>, args: Seq<AstView> },
    Operator { op: Seq<char>, args: Seq<AstView> },
    Argument { value: Seq<char> },
}

/// The view of one node.
pub open spec fn ast_view(n: ASTNode) -> AstView
    decreases n,
{
    match n {
        ASTNode::Command { name, args } => AstView::Command {
            name: name@,
            args: asts_view(args@),
        },
        ASTNode::Operator { op, args } => AstView::Operator { op: op@, args: asts_view(args@) },
        ASTNode::Argument { value } => AstView::Argument { value: value@ },
    }
}

/// The views of a sequence of nodes.
pub open spec fn asts_view(s: Seq<ASTNode>) -> Seq<AstView>
    decreases s,
{
    if s.len() == 0 {
        seq![]
    } else {
        asts_view(s.drop_last()).push(ast_view(s.last()))
    }
}

impl View for ASTNode {
    type V = AstView;

    open spec fn view(&self) -> AstView {
        ast_view(*self)
    }
}

/// The views of a sequence grow with it.
pub proof fn lemma_asts_view_push(s: Seq<ASTNode>, n: ASTNode)
    ensures
        asts_view(s.push(n)) == asts_view(s).push(ast_view(n)),
        asts_view(s).len() == s.len(),
    decreases s.len(),
{
    assert(s.push(n).drop_last() == s);
    lemma_asts_view_len(s);
}

/// One view per node.
pub proof fn lemma_asts_view_len(s: Seq<ASTNode>)
    ensures
        asts_view(s).len() == s.len(),
    decreases s.len(),
{
    if s.len() > 0 {
        lemma_asts_view_len(s.drop_last());
    }
}

/// The index of the first token at or after `k` that is not an argument.
pub open spec fn argument_run_end(ts: Seq<TokenView>, k: int) -> int
    decreases ts.len() - k,
{
    if 0 <= k < ts.len() && ts[k].token_type == TokenType::Argument {
        argument_run_end(ts, k + 1)
    } else {
        k
    }
}

/// The run of arguments ends at or after where it starts, inside the tokens.
pub proof fn lemma_argument_run_end(ts: Seq<TokenView>, k: int)
    requires
        0 <= k <= ts.len(),
    ensures
        k <= argument_run_end(ts, k) <= ts.len(),
        forall|x: int|
            k <= x < argument_run_end(ts, k) ==> ts[x].token_type == TokenType::Argument,
        argument_run_end(ts, k) < ts.len() ==> ts[argument_run_end(ts, k)].token_type
            != TokenType::Argument,
    decreases ts.len() - k,
{
    if k < ts.len() && ts[k].token_type == TokenType::Argument {
        lemma_argument_run_end(ts, k + 1);
    }
}

/// Argument nodes for the tokens `from..to`.
pub open spec fn arguments_of(ts: Seq<TokenView>, from: int, to: int) -> Seq<AstView> {
    Seq::new((to - from) as nat, |i: int| AstView::Argument { value: ts[from + i].value })
}

/// After an operator: gathers each following command with its arguments onto
/// `acc`, and gives the gathered nodes and the index where parsing resumes. A
/// token that is not a command where a command is expected is consumed and
/// ends the gathering; so do the end of the tokens and an operator.
pub open spec fn collect_commands(ts: Seq<TokenView>, j: int, acc: Seq<AstView>) -> (Seq<
    AstView,
>, int)
    decreases ts.len() - j,
{
    if j < 0 || j >= ts.len() {
        (acc, j)
    } else if ts[j].token_type != TokenType::Command {
        (acc, j + 1)
    } else {
        let e = argument_run_end(ts, j + 1);
        let acc2 = acc.push(AstView::Command { name: ts[j].value, args: arguments_of(ts, j + 1, e) });
        if e >= ts.len() || ts[e].token_type == TokenType::Operator {
            (acc2, e)
        } else {
            proof {
                lemma_argument_run_end(ts, j + 1);
            }
            collect_commands(ts, e, acc2)
        }
    }
}

/// Gathering moves forward and stays inside the tokens.
pub proof fn lemma_collect_commands(ts: Seq<TokenView>, j: int, acc: Seq<AstView>)
    requires
        0 <= j <= ts.len(),
    ensures
        j <= collect_commands(ts, j, acc).1 <= ts.len(),
        j < ts.len() ==> j < collect_commands(ts, j, acc).1,
        collect_commands(ts, j, acc).0.len() >= acc.len(),
    decreases ts.len() - j,
{
    if j < ts.len() && ts[j].token_type == TokenType::Command {
        lemma_argument_run_end(ts, j + 1);
        let e = argument_run_end(ts, j + 1);
        let acc2 = acc.push(AstView::Command { name: ts[j].value, args: arguments_of(ts, j + 1, e) });
        if !(e >= ts.len() || ts[e].token_type == TokenType::Operator) {
            lemma_collect_commands(ts, e, acc2);
        }
    }
}

/// `root` with one more argument, when it is a command.
pub open spec fn with_argument(root: AstView, value: Seq<char>) -> AstView {
    match root {
        AstView::Command { name, args } => AstView::Command {
            name,
            args: args.push(AstView::Argument { value }),
        },
        _ => root,
    }
}

/// Parsing from token `i` with the tree built so far and the number of
/// syntax reports so far. An operator builds an operator node over the tree so
/// far and the commands gathered after it.
pub open spec fn parse_from(ts: Seq<TokenView>, i: int, root: AstView, reports: nat) -> (
    AstView,
    nat,
)
    decreases ts.len() - i,
{
    if i < 0 || i >= ts.len() {
        (root, reports)
    } else {
        let t = ts[i];
        match t.token_type {
            TokenType::Argument => parse_from(ts, i + 1, with_argument(root, t.value), reports),
            TokenType::Command => parse_from(ts, i + 1, root, reports + 1),
            TokenType::Operator => {
                let (args, j) = collect_commands(ts, i + 1, seq![root]);
                proof {
                    lemma_collect_commands(ts, i + 1, seq![root]);
                }
                parse_from(ts, j, AstView::Operator { op: t.value, args }, reports)
            },
        }
    }
}

/// The token lists the parser takes: they start with a command.
pub open spec fn parsable(ts: Seq<TokenView>) -> bool {
    ts.len() > 0 && ts[0].token_type == TokenType::Command
}

/// The tree of a token list that starts with a command, and the number of
/// "Invalid syntax" reports the parser makes: a command token after the first
/// one that is not gathered by an operator is reported and skipped.
pub open spec fn parse_spec(ts: Seq<TokenView>) -> (AstView, nat) {
    parse_from(ts, 1, AstView::Command { name: ts[0].value, args: seq![] }, 0)
}

/// The index of the first token at or after `k` that is not an argument.
fn find_argument_run_end(tokens: &Vec<Token>, k: usize) -> (e: usize)
    requires
        k <= tokens@.len(),
    ensures
        e == argument_run_end(tokens_view(tokens@), k as int),
        k <= e <= tokens@.len(),
{
    let ghost ts = tokens_view(tokens@);
    let mut e = k;
    while e < tokens.len() && tokens[e].token_type == TokenType::Argument
        invariant
            k <= e <= tokens@.len(),
            ts == tokens_view(tokens@),
            argument_run_end(ts, e as int) == argument_run_end(ts, k as int),
        decreases tokens@.len() - e,
    {
        e += 1;
    }
    e
}

/// Argument nodes for the tokens `from..to`.
fn arguments_from(tokens: &Vec<Token>, from: usize, to: usize) -> (r: Vec<ASTNode>)
    requires
        from <= to <= tokens@.len(),
    ensures
        asts_view(r@) == arguments_of(tokens_view(tokens@), from as int, to as int),
{
    let ghost ts = tokens_view(tokens@);
    let mut r: Vec<ASTNode> = Vec::new();
    let mut x = from;
    while x < to
        invariant
            from <= x <= to <= tokens@.len(),
            ts == tokens_view(tokens@),
            asts_view(r@) == arguments_of(ts, from as int, x as int),
        decreases to - x,
    {
        let node = ASTNode::Argument { value: tokens[x].value.clone() };
        proof {
            lemma_asts_view_push(r@, node);
        }
        r.push(node);
        x += 1;
        assert(asts_view(r@) == arguments_of(ts, from as int, x as int));
    }
    r
}

/// Gathers the commands after an operator (see [`collect_commands`]).
fn gather_commands(tokens: &Vec<Token>, start: usize, init: Vec<ASTNode>) -> (r: (
    Vec<ASTNode>,
    usize,
))
    requires
        start <= tokens@.len(),
    ensures
        (asts_view(r.0@), r.1 as int) == collect_commands(
            tokens_view(tokens@),
            start as int,
            asts_view(init@),
        ),
        r.1 <= tokens@.len(),
{
    let ghost ts = tokens_view(tokens@);
    let ghost goal = collect_commands(ts, start as int, asts_view(init@));
    let mut acc = init;
    let mut j = start;
    loop
        invariant
            j <= tokens@.len(),
            ts == tokens_view(tokens@),
            collect_commands(ts, j as int, asts_view(acc@)) == goal,
            goal == collect_commands(tokens_view(tokens@), start as int, asts_view(init@)),
        decreases tokens@.len() - j,
    {
        if j >= tokens.len() {
            return (acc, j);
        }
        assert(ts[j as int] == tokens@[j as int]@);
        if tokens[j].token_type != TokenType::Command {
            return (acc, j + 1);
        }
        let e = find_argument_run_end(tokens, j + 1);
        let args = arguments_from(tokens, j + 1, e);
        let node = ASTNode::Command { name: tokens[j].value.clone(), args };
        proof {
            lemma_asts_view_push(acc@, node);
        }
        acc.push(node);
        if e >= tokens.len() || tokens[e].token_type == TokenType::Operator {
            return (acc, e);
        }
        proof {
            lemma_argument_run_end(ts, j + 1);
        }
        j = e;
    }
}

/// Turns tokens into a tree.
pub trait Parser: Default {
    /// The token lists that the parser takes.
    spec fn accepts(tokens: Seq<TokenView>) -> bool;

    /// The tree of an accepted token list.
    spec fn parsed(tokens: Seq<TokenView>) -> AstView;

    fn _run(tokens: Vec<Token>) -> (ast: ASTNode)
        requires
            Self::accepts(tokens_view(tokens@)),
        ensures
            ast@ == Self::parsed(tokens_view(tokens@)),
    ;
}

/// Object-style access to a [`Parser`].
pub trait ParserTraitObject {
    /// The token lists that the parser takes.
    spec fn accepts(&self, tokens: Seq<TokenView>) -> bool;

    /// The tree of an accepted token list.
    spec fn parsed(&self, tokens: Seq<TokenView>) -> AstView;

    fn run(&self, tokens: Vec<Token>) -> (ast: ASTNode)
        requires
            self.accepts(tokens_view(tokens@)),
        ensures
            ast@ == self.parsed(tokens_view(tokens@)),
    ;
}

impl<T: Parser> ParserTraitObject for T {
    open spec fn accepts(&self, tokens: Seq<TokenView>) -> bool {
        <T as Parser>::accepts(tokens)
    }

    open spec fn parsed(&self, tokens: Seq<TokenView>) -> AstView {
        <T as Parser>::parsed(tokens)
    }

    fn run(&self, tokens: Vec<Token>) -> ASTNode {
        <T as Parser>::_run(tokens)
    }
}

/// The parser of the shell.
#[derive(Default)]
pub struct DefaultParser;

impl DefaultParser {
    /// Parses `tokens`, giving the tree and the number of "Invalid syntax"
    /// reports.
    pub fn parse_with_reports(tokens: Vec<Token>) -> (r: (ASTNode, usize))
        requires
            parsable(tokens_view(tokens@)),
        ensures
            r.0@ == parse_spec(tokens_view(tokens@)).0,
            r.1 == parse_spec(tokens_view(tokens@)).1,
    {
        let ghost ts = tokens_view(tokens@);
        assert(ts[0] == tokens@[0]@);
        let mut root = ASTNode::Command { name: tokens[0].value.clone(), args: Vec::new() };
        assert(asts_view(Seq::<ASTNode>::empty()) == Seq::<AstView>::empty());
        let mut reports: usize = 0;
        let mut i: usize = 1;
        while i < tokens.len()
            invariant
                1 <= i <= tokens@.len(),
                ts == tokens_view(tokens@),
                reports <= i,
                parse_from(ts, i as int, root@, reports as nat) == parse_spec(ts),
            decreases tokens@.len() - i,
        {
            let ttype = tokens[i].token_type;
            if ttype == TokenType::Argument {
                let value = tokens[i].value.clone();
                root = match root {
                    ASTNode::Command { name, args } => {
                        let mut args = args;
                        let arg = ASTNode::Argument { value };
                        proof {
                            lemma_asts_view_push(args@, arg);
                        }
                        args.push(arg);
                        ASTNode::Command { name, args }
                    },
                    other => other,
                };
                i += 1;
            } else if ttype == TokenType::Command {
                reports += 1;
                i += 1;
            } else {
                let op = tokens[i].value.clone();
                let mut first: Vec<ASTNode> = Vec::new();
                proof {
                    lemma_asts_view_push(first@, root);
                    assert(first@.push(root) == seq![root]);
                }
                first.push(root);
                assert(asts_view(first@) == seq![root@]);
                let (args, j) = gather_commands(&tokens, i + 1, first);
                proof {
                    lemma_collect_commands(ts, i + 1, seq![root@]);
                }
                root = ASTNode::Operator { op, args };
                i = j;
            }
        }
        (root, reports)
    }
}

impl Parser for DefaultParser {
    open spec fn accepts(tokens: Seq<TokenView>) -> bool {
        parsable(tokens)
    }

    open spec fn parsed(tokens: Seq<TokenView>) -> AstView {
        parse_spec(tokens).0
    }

    fn _run(tokens: Vec<Token>) -> (ast: ASTNode)
        ensures
            ast@ == parse_spec(tokens_view(tokens@)).0,
    {
        DefaultParser::parse_with_reports(tokens).0
    }
}

} // verus!

verus! {

/// The index-wise view of a sequence of nodes.
pub proof fn lemma_asts_view_index(s: Seq<ASTNode>, k: int)
    requires
        0 <= k < s.len(),
    ensures
        asts_view(s).len() == s.len(),
        asts_view(s)[k] == ast_view(s[k]),
    decreases s.len(),
{
    lemma_asts_view_len(s);
    if k < s.len() - 1 {
        lemma_asts_view_index(s.drop_last(), k);
    }
}

/// A message that the interpreter reports on the error stream.
#[derive(Debug, Clone, Copy, PartialEq, Eq, Structural)]
pub enum Diagnostic {
    /// "Invalid syntax"
    InvalidSyntax,
    /// "Unknown operator"
    UnknownOperator,
}

/// One thing the caller does to carry out a tree, in order.
#[derive(Debug)]
pub enum Action {
    /// Run the named command with `args`: a custom command or a built-in
    /// command gets `input` (the arguments joined by single spaces), in the
    /// order that `shell::dispatch::dispatch_target` decides; any other
    /// name is started as a process with `args` and its output collected.
    Run { name: String, args: Vec<String>, input: String },
    /// Report a message.
    Report { diagnostic: Diagnostic },
    /// Print the argument nodes of a command in debug form (`{:?}`) on a
    /// line of standard output.
    ShowNodes { nodes: Vec<ASTNode> },
    /// Print the argument texts of a command in debug form (`{:?}`) on a
    /// line of standard output.
    ShowWords { words: Vec<String> },
}

/// The mathematical content of an [`Action`].
pub enum ActionView {
    Run { name: Seq<char>, args: Seq<Seq<char>>, input: Seq<char> },
    Report { diagnostic: Diagnostic },
    ShowNodes { nodes: Seq<AstView> },
    ShowWords { words: Seq<Seq<char>> },
}

/// What a line evaluates to once its actions are done.
#[derive(Debug, Clone, Copy, PartialEq, Eq, Structural)]
pub enum Outcome {
    /// The result of the last action, a [`Action::Run`].
    LastRun,
    /// Success with empty output.
    Empty,
    /// Failure with the message.
    Failed(Diagnostic),
}

/// The actions that carry out a tree and what it evaluates to.
#[derive(Debug)]
pub struct ExecPlan {
    pub steps: Vec<Action>,
    pub outcome: Outcome,
}

impl View for Action {
    type V = ActionView;

    open spec fn view(&self) -> ActionView {
        match self {
            Action::Run { name, args, input } => ActionView::Run {
                name: name@,
                args: strings_view(args@),
                input: input@,
            },
            Action::Report { diagnostic } => ActionView::Report { diagnostic: *diagnostic },
            Action::ShowNodes { nodes } => ActionView::ShowNodes { nodes: asts_view(nodes@) },
            Action::ShowWords { words } => ActionView::ShowWords { words: strings_view(words@) },
        }
    }
}

/// The views of a sequence of actions.
pub open spec fn actions_view(s: Seq<Action>) -> Seq<ActionView> {
    s.map_values(|a: Action| a@)
}

/// The text a command argument stands for: its value, or nothing for a node
/// that is not an argument.
pub open spec fn argument_value(a: AstView) -> Seq<char> {
    match a {
        AstView::Argument { value } => value,
        _ => seq![],
    }
}

/// The texts of a command's arguments.
pub open spec fn argument_values(args: Seq<AstView>) -> Seq<Seq<char>> {
    args.map_values(|a: AstView| argument_value(a))
}

/// One "Invalid syntax" report per node among `args` that is not an argument.
pub open spec fn syntax_reports(args: Seq<AstView>) -> Seq<ActionView>
    decreases args.len(),
{
    if args.len() == 0 {
        seq![]
    } else {
        syntax_reports(args.drop_last()) + if args.last() is Argument {
            Seq::<ActionView>::empty()
        } else {
            seq![ActionView::Report { diagnostic: Diagnostic::InvalidSyntax }]
        }
    }
}

/// The steps that carry out a tree: a command shows its argument nodes,
/// reports its misplaced arguments, shows its argument texts and runs; `&&`
/// carries out its parts one after the other; any other operator and a bare
/// argument do nothing.
pub open spec fn plan_steps(ast: AstView) -> Seq<ActionView>
    decreases ast,
{
    match ast {
        AstView::Command { name, args } => seq![ActionView::ShowNodes { nodes: args }]
            + syntax_reports(args) + seq![
            ActionView::ShowWords { words: argument_values(args) },
            ActionView::Run {
                name,
                args: argument_values(args),
                input: joined(argument_values(args), seq![' ']),
            },
        ],
        AstView::Operator { op, args } => if op == seq!['&', '&'] {
            plan_all(args)
        } else {
            seq![]
        },
        AstView::Argument { .. } => seq![],
    }
}

/// What a tree evaluates to: a command gives the result of its run; `&&`
/// succeeds with empty output whatever its parts gave; any other operator
/// fails as unknown; a bare argument fails as invalid syntax.
pub open spec fn plan_outcome(ast: AstView) -> Outcome {
    match ast {
        AstView::Command { .. } => Outcome::LastRun,
        AstView::Operator { op, .. } => if op == seq!['&', '&'] {
            Outcome::Empty
        } else {
            Outcome::Failed(Diagnostic::UnknownOperator)
        },
        AstView::Argument { .. } => Outcome::Failed(Diagnostic::InvalidSyntax),
    }
}

/// Carrying out `parts` one after the other, their results dropped.
pub open spec fn plan_all(parts: Seq<AstView>) -> Seq<ActionView>
    decreases parts,
{
    if parts.len() == 0 {
        seq![]
    } else {
        plan_all(parts.drop_last()) + plan_steps(parts.last())
    }
}

/// The texts of a command's arguments and the reports for the misplaced ones.
fn argument_texts(args: &Vec<ASTNode>) -> (r: (Vec<String>, Vec<Action>))
    ensures
        strings_view(r.0@) == argument_values(asts_view(args@)),
        actions_view(r.1@) == syntax_reports(asts_view(args@)),
{
    let mut texts: Vec<String> = Vec::new();
    let mut reports: Vec<Action> = Vec::new();
    let mut k: usize = 0;
    proof {
        lemma_asts_view_len(args@);
    }
    while k < args.len()
        invariant
            k <= args@.len(),
            asts_view(args@).len() == args@.len(),
            strings_view(texts@) == argument_values(asts_view(args@.take(k as int))),
            actions_view(reports@) == syntax_reports(asts_view(args@.take(k as int))),
        decreases args@.len() - k,
    {
        proof {
            assert(args@.take(k + 1) == args@.take(k as int).push(args@[k as int]));
            lemma_asts_view_push(args@.take(k as int), args@[k as int]);
            let prefix = asts_view(args@.take(k as int));
            let longer = asts_view(args@.take(k + 1));
            assert(longer.drop_last() == prefix);
            assert(longer.last() == ast_view(args@[k as int]));
        }
        let ghost longer = asts_view(args@.take(k + 1));
        let ghost prefix = asts_view(args@.take(k as int));
        let ghost old_texts = texts@;
        let ghost old_reports = reports@;
        match &args[k] {
            ASTNode::Argument { value } => {
                texts.push(value.clone());
                proof {
                    assert(argument_values(longer) == argument_values(prefix).push(value@));
                    assert(strings_view(texts@) == strings_view(old_texts).push(value@));
                    assert(syntax_reports(longer) == syntax_reports(prefix) + Seq::<
                        ActionView,
                    >::empty());
                }
            },
            _ => {
                texts.push(String::new());
                reports.push(Action::Report { diagnostic: Diagnostic::InvalidSyntax });
                proof {
                    assert(argument_values(longer) == argument_values(prefix).push(seq![]));
                    assert(strings_view(texts@) == strings_view(old_texts).push(seq![]));
                    assert(actions_view(reports@) == actions_view(old_reports).push(
                        ActionView::Report { diagnostic: Diagnostic::InvalidSyntax },
                    ));
                }
            },
        }
        k += 1;
    }
    assert(args@.take(args@.len() as int) == args@);
    (texts, reports)
}

/// The steps that carry out one node (see [`plan_steps`]).
fn plan(ast: &ASTNode) -> (r: Vec<Action>)
    ensures
        actions_view(r@) == plan_steps(ast@),
    decreases ast,
{
    match ast {
        ASTNode::Command { name, args } => {
            let (texts, reports) = argument_texts(args);
            let input = join(&texts, " ");
            proof {
                reveal_strlit(" ");
            }
            let mut r: Vec<Action> = Vec::new();
            let show = Action::ShowNodes { nodes: copy_nodes(args) };
            r.push(show);
            let mut reports = reports;
            let ghost rep = reports@;
            r.append(&mut reports);
            let words = Action::ShowWords { words: copy_strings(&texts) };
            let act = Action::Run { name: name.clone(), args: texts, input };
            let ghost w = words@;
            let ghost a = act@;
            r.push(words);
            r.push(act);
            assert(actions_view(r@) == seq![show@] + actions_view(rep) + seq![w, a]);
            assert(" "@ == seq![' ']);
            assert(ast@ == AstView::Command { name: name@, args: asts_view(args@) });
            r
        },
        ASTNode::Operator { op, args } => {
            let mut r: Vec<Action> = Vec::new();
            if is_and(op) {
                let mut k: usize = 0;
                proof {
                    lemma_asts_view_len(args@);
                }
                #[verifier::loop_isolation(false)]
                while k < args.len()
                    invariant
                        k <= args@.len(),
                        actions_view(r@) == plan_all(asts_view(args@.take(k as int))),
                    decreases args@.len() - k,
                {
                    proof {
                        assert(args@.take(k + 1) == args@.take(k as int).push(args@[k as int]));
                        lemma_asts_view_push(args@.take(k as int), args@[k as int]);
                        let prefix = asts_view(args@.take(k as int));
                        let longer = asts_view(args@.take(k + 1));
                        assert(longer.drop_last() == prefix);
                        assert(decreases_to!(*ast => ast->Operator_args));
                        assert(decreases_to!(ast->Operator_args => args@[k as int]));
                    }
                    let part = plan(&args[k]);
                    let ghost before = r@;
                    let mut part = part;
                    r.append(&mut part);
                    proof {
                        lemma_asts_view_index(args@, k as int);
                        assert(actions_view(r@) == actions_view(before) + plan_steps(
                            ast_view(args@[k as int]),
                        ));
                    }
                    k += 1;
                }
                assert(args@.take(args@.len() as int) == args@);
            } else {
                assert(actions_view(r@) == Seq::<ActionView>::empty());
            }
            r
        },
        ASTNode::Argument { .. } => {
            let r: Vec<Action> = Vec::new();
            assert(actions_view(r@) == Seq::<ActionView>::empty());
            r
        },
    }
}

/// A copy of a node.
fn copy_node(n: &ASTNode) -> (r: ASTNode)
    ensures
        r@ == n@,
    decreases n,
{
    match n {
        ASTNode::Argument { value } => ASTNode::Argument { value: value.clone() },
        ASTNode::Command { name, args } => {
            let copied = copy_node_list(n, args);
            ASTNode::Command { name: name.clone(), args: copied }
        },
        ASTNode::Operator { op, args } => {
            let copied = copy_node_list(n, args);
            ASTNode::Operator { op: op.clone(), args: copied }
        },
    }
}

/// A copy of the child nodes `args` of `parent`.
fn copy_node_list(parent: &ASTNode, args: &Vec<ASTNode>) -> (r: Vec<ASTNode>)
    requires
        (parent is Command && parent->Command_args == *args) || (parent is Operator
            && parent->Operator_args == *args),
    ensures
        asts_view(r@) == asts_view(args@),
    decreases parent, 0nat,
{
    let mut r: Vec<ASTNode> = Vec::new();
    let mut k: usize = 0;
    while k < args.len()
        invariant
            k <= args@.len(),
            (parent is Command && parent->Command_args == *args) || (parent is Operator
                && parent->Operator_args == *args),
            asts_view(r@) == asts_view(args@.take(k as int)),
        decreases args@.len() - k,
    {
        proof {
            assert(args@.take(k + 1).drop_last() == args@.take(k as int));
            if parent is Command {
                assert(decreases_to!(*parent => parent->Command_args));
            } else {
                assert(decreases_to!(*parent => parent->Operator_args));
            }
            assert(decreases_to!(*args => args@[k as int]));
        }
        let c = copy_node(&args[k]);
        let ghost before = r@;
        r.push(c);
        proof {
            lemma_asts_view_push(before, c);
            assert(r@ == before.push(c));
            assert(args@.take(k + 1).last() == args@[k as int]);
        }
        k += 1;
    }
    assert(args@.take(args@.len() as int) == args@);
    r
}

/// The argument nodes of a command, copied.
fn copy_nodes(args: &Vec<ASTNode>) -> (r: Vec<ASTNode>)
    ensures
        asts_view(r@) == asts_view(args@),
{
    let mut r: Vec<ASTNode> = Vec::new();
    let mut k: usize = 0;
    while k < args.len()
        invariant
            k <= args@.len(),
            asts_view(r@) == asts_view(args@.take(k as int)),
        decreases args@.len() - k,
    {
        proof {
            assert(args@.take(k + 1).drop_last() == args@.take(k as int));
        }
        let c = copy_node(&args[k]);
        let ghost before = r@;
        r.push(c);
        proof {
            lemma_asts_view_push(before, c);
            assert(r@ == before.push(c));
            assert(args@.take(k + 1).last() == args@[k as int]);
        }
        k += 1;
    }
    assert(args@.take(args@.len() as int) == args@);
    r
}

/// Whether `w` is the `&&` operator.
fn is_and(w: &String) -> (r: bool)
    ensures
        r == (w@ == seq!['&', '&']),
{
    let cs = chars_of(w.as_str());
    proof {
        if cs@.len() == 2 {
            assert(w@ =~= seq![cs@[0], cs@[1]]);
            assert(seq![cs@[0], cs@[1]][0] == cs@[0]);
            assert(seq![cs@[0], cs@[1]][1] == cs@[1]);
        }
        if w@ == seq!['&', '&'] {
            assert(cs@.len() == 2);
        }
    }
    cs.len() == 2 && cs[0] == '&' && cs[1] == '&'
}

/// Turns a tree into the plan that carries it out.
pub trait Interpreter: Default {
    /// The actions that carry out a tree.
    spec fn planned_steps(ast: AstView) -> Seq<ActionView>;

    /// What a tree evaluates to once its actions are done.
    spec fn planned_outcome(ast: AstView) -> Outcome;

    fn _run(ast: &ASTNode) -> (r: ExecPlan)
        ensures
            actions_view(r.steps@) == Self::planned_steps(ast@),
            r.outcome == Self::planned_outcome(ast@),
    ;
}

/// Object-style access to an [`Interpreter`].
pub trait InterpreterTraitObject {
    /// The actions that carry out a tree.
    spec fn planned_steps(&self, ast: AstView) -> Seq<ActionView>;

    /// What a tree evaluates to once its actions are done.
    spec fn planned_outcome(&self, ast: AstView) -> Outcome;

    fn run(&self, ast: &ASTNode) -> (r: ExecPlan)
        ensures
            actions_view(r.steps@) == self.planned_steps(ast@),
            r.outcome == self.planned_outcome(ast@),
    ;
}

impl<T: Interpreter> InterpreterTraitObject for T {
    open spec fn planned_steps(&self, ast: AstView) -> Seq<ActionView> {
        <T as Interpreter>::planned_steps(ast)
    }

    open spec fn planned_outcome(&self, ast: AstView) -> Outcome {
        <T as Interpreter>::planned_outcome(ast)
    }

    fn run(&self, ast: &ASTNode) -> ExecPlan {
        <T as Interpreter>::_run(ast)
    }
}

/// The interpreter of the built-in shell.
#[derive(Default)]
pub struct DefaultInterpreter;

impl Interpreter for DefaultInterpreter {
    open spec fn planned_steps(ast: AstView) -> Seq<ActionView> {
        plan_steps(ast)
    }

    open spec fn planned_outcome(ast: AstView) -> Outcome {
        plan_outcome(ast)
    }

    fn _run(ast: &ASTNode) -> (r: ExecPlan)
        ensures
            actions_view(r.steps@) == plan_steps(ast@),
            r.outcome == plan_outcome(ast@),
    {
        let steps = plan(ast);
        let outcome = match ast {
            ASTNode::Command { .. } => Outcome::LastRun,
            ASTNode::Operator { op, .. } => if is_and(op) {
                Outcome::Empty
            } else {
                Outcome::Failed(Diagnostic::UnknownOperator)
            },
            ASTNode::Argument { .. } => Outcome::Failed(Diagnostic::InvalidSyntax),
        };
        ExecPlan { steps, outcome }
    }
}

} // verus!

verus! {

/// Argument nodes for `words`.
pub open spec fn arguments_for(words: Seq<Seq<char>>) -> Seq<AstView> {
    words.map_values(|w: Seq<char>| AstView::Argument { value: w })
}

/// Arguments draw no syntax reports.
proof fn lemma_no_reports_for_arguments(words: Seq<Seq<char>>)
    ensures
        syntax_reports(arguments_for(words)) == Seq::<ActionView>::empty(),
    decreases words.len(),
{
    if words.len() > 0 {
        lemma_no_reports_for_arguments(words.drop_last());
        assert(arguments_for(words).drop_last() == arguments_for(words.drop_last()));
    }
}

/// Parsing the arguments of a plain line, from token `i` on.
proof fn lemma_parse_plain_from(input: Seq<char>, i: int)
    requires
        1 <= i <= ws_words(input).len(),
        forall|k: int|
            0 <= k < ws_words(input).len() ==> !is_operator_word(#[trigger] ws_words(input)[k]),
    ensures
        ({
            let words = ws_words(input);
            parse_from(
                lex_spec(input),
                i,
                AstView::Command { name: words[0], args: arguments_for(words.subrange(1, i)) },
                0,
            ) == (
                AstView::Command {
                    name: words[0],
                    args: arguments_for(words.subrange(1, words.len() as int)),
                },
                0nat,
            )
        }),
    decreases ws_words(input).len() - i,
{
    let words = ws_words(input);
    let ts = lex_spec(input);
    if i < words.len() {
        assert(!is_operator_word(words[i]));
        assert(!is_operator_word(words[i - 1]));
        assert(ts[i].token_type == TokenType::Argument);
        assert(arguments_for(words.subrange(1, i)).push(AstView::Argument { value: ts[i].value })
            == arguments_for(words.subrange(1, i + 1)));
        lemma_parse_plain_from(input, i + 1);
    }
}

/// A line without operators is one command with the other words as its
/// arguments; carrying it out shows those arguments, then runs the command
/// once with those words, joined by spaces as its input, and the line gives
/// what that run gives.
pub proof fn lemma_plain_line(input: Seq<char>)
    requires
        ws_words(input).len() > 0,
        forall|k: int|
            0 <= k < ws_words(input).len() ==> !is_operator_word(#[trigger] ws_words(input)[k]),
    ensures
        ({
            let words = ws_words(input);
            let ast = AstView::Command { name: words[0], args: arguments_for(words.skip(1)) };
            &&& parsable(lex_spec(input))
            &&& parse_spec(lex_spec(input)) == (ast, 0nat)
            &&& plan_steps(ast) == seq![
                ActionView::ShowNodes { nodes: arguments_for(words.skip(1)) },
                ActionView::ShowWords { words: words.skip(1) },
                ActionView::Run {
                    name: words[0],
                    args: words.skip(1),
                    input: joined(words.skip(1), seq![' ']),
                },
            ]
            &&& plan_outcome(ast) == Outcome::LastRun
        }),
{
    let words = ws_words(input);
    let ts = lex_spec(input);
    assert(!is_operator_word(words[0]));
    assert(ts[0].token_type == TokenType::Command);
    assert(arguments_for(words.subrange(1, 1)) == Seq::<AstView>::empty());
    lemma_parse_plain_from(input, 1);
    assert(words.subrange(1, words.len() as int) == words.skip(1));
    lemma_no_reports_for_arguments(words.skip(1));
    assert(argument_values(arguments_for(words.skip(1))) == words.skip(1));
    let args = arguments_for(words.skip(1));
    let tail = seq![
        ActionView::ShowWords { words: words.skip(1) },
        ActionView::Run {
            name: words[0],
            args: words.skip(1),
            input: joined(words.skip(1), seq![' ']),
        },
    ];
    assert(seq![ActionView::ShowNodes { nodes: args }] + Seq::<ActionView>::empty() + tail
        == seq![ActionView::ShowNodes { nodes: args }, tail[0], tail[1]]);
}

} // verus!

verus! {

/// The `&&` node over `parts`.
pub open spec fn and_node(parts: Seq<AstView>) -> AstView {
    AstView::Operator { op: seq!['&', '&'], args: parts }
}

/// Carrying out an `&&` of two runs of parts, one after the other, is
/// carrying out the `&&` of the first run, then the `&&` of the second.
pub proof fn lemma_and_append(xs: Seq<AstView>, ys: Seq<AstView>)
    ensures
        plan_steps(and_node(xs + ys)) == plan_steps(and_node(xs)) + plan_steps(and_node(ys)),
    decreases ys.len(),
{
    if ys.len() == 0 {
        assert(xs + ys == xs);
        assert(plan_all(ys) == Seq::<ActionView>::empty());
    } else {
        lemma_and_append(xs, ys.drop_last());
        assert((xs + ys).drop_last() == xs + ys.drop_last());
        assert((xs + ys).last() == ys.last());
    }
}

/// An `&&` of one part does what that part does, whatever its kind.
pub proof fn lemma_and_single(x: AstView)
    ensures
        plan_steps(and_node(seq![x])) == plan_steps(x),
{
    assert(seq![x].drop_last() == Seq::<AstView>::empty());
    assert(seq![x].last() == x);
    assert(plan_all(Seq::<AstView>::empty()) == Seq::<ActionView>::empty());
    assert(Seq::<ActionView>::empty() + plan_steps(x) == plan_steps(x));
}

/// A nested `&&` at the head of an `&&` (as the parser builds `a && b && c`)
/// does what the flat `&&` of all the parts does: every part is carried out,
/// in order.
pub proof fn lemma_and_nested(xs: Seq<AstView>, ys: Seq<AstView>)
    ensures
        plan_steps(and_node(seq![and_node(xs)] + ys)) == plan_steps(and_node(xs + ys)),
{
    lemma_and_append(seq![and_node(xs)], ys);
    lemma_and_single(and_node(xs));
    lemma_and_append(xs, ys);
}

/// The plain command `name`, without arguments.
pub open spec fn bare_command(name: Seq<char>) -> AstView {
    AstView::Command { name, args: seq![] }
}

/// An `&&` of plain commands runs each of them once, in order.
pub proof fn lemma_and_of_commands(names: Seq<Seq<char>>)
    ensures
        plan_steps(and_node(names.map_values(|n: Seq<char>| bare_command(n)))).filter(
            |a: ActionView| a is Run,
        ) == names.map_values(
            |n: Seq<char>| ActionView::Run { name: n, args: seq![], input: seq![] },
        ),
    decreases names.len(),
{
    let cmds = names.map_values(|n: Seq<char>| bare_command(n));
    let runs = names.map_values(
        |n: Seq<char>| ActionView::Run { name: n, args: seq![], input: seq![] },
    );
    reveal(Seq::filter);
    if names.len() == 0 {
        assert(cmds == Seq::<AstView>::empty());
        assert(plan_steps(and_node(cmds)) == Seq::<ActionView>::empty());
        assert(Seq::<ActionView>::empty().filter(|a: ActionView| a is Run) == Seq::<ActionView>::empty());
        assert(runs == Seq::<ActionView>::empty());
    } else {
        let init = names.drop_last();
        let n = names.last();
        lemma_and_of_commands(init);
        let icmds = init.map_values(|n: Seq<char>| bare_command(n));
        assert(cmds == icmds + seq![bare_command(n)]);
        lemma_and_append(icmds, seq![bare_command(n)]);
        lemma_and_single(bare_command(n));
        let one = plan_steps(bare_command(n));
        assert(syntax_reports(Seq::<AstView>::empty()) == Seq::<ActionView>::empty());
        assert(argument_values(Seq::<AstView>::empty()) == Seq::<Seq<char>>::empty());
        assert(joined(Seq::<Seq<char>>::empty(), seq![' ']) == Seq::<char>::empty());
        let run = ActionView::Run { name: n, args: seq![], input: seq![] };
        assert(one.filter(|a: ActionView| a is Run) == seq![run]) by {
            reveal_with_fuel(Seq::filter, 4);
            assert(one.len() >= 1);
        }
        Seq::filter_distributes_over_add(plan_steps(and_node(icmds)), one, |a: ActionView| a is Run);
        assert(runs == init.map_values(
            |n: Seq<char>| ActionView::Run { name: n, args: seq![], input: seq![] },
        ) + seq![run]);
    }
}

} // verus!

verus! {

/// Parsing the arguments of the first command, up to the operator at `m`.
proof fn lemma_parse_args_until(input: Seq<char>, i: int, m: int)
    requires
        1 <= i <= m < ws_words(input).len(),
        forall|k: int| 0 <= k < m ==> !is_operator_word(#[trigger] ws_words(input)[k]),
    ensures
        ({
            let words = ws_words(input);
            parse_from(
                lex_spec(input),
                i,
                AstView::Command { name: words[0], args: arguments_for(words.subrange(1, i)) },
                0,
            ) == parse_from(
                lex_spec(input),
                m,
                AstView::Command { name: words[0], args: arguments_for(words.subrange(1, m)) },
                0,
            )
        }),
    decreases m - i,
{
    let words = ws_words(input);
    let ts = lex_spec(input);
    if i < m {
        assert(!is_operator_word(words[i]));
        assert(!is_operator_word(words[i - 1]));
        assert(ts[i].token_type == TokenType::Argument);
        assert(arguments_for(words.subrange(1, i)).push(AstView::Argument { value: ts[i].value })
            == arguments_for(words.subrange(1, i + 1)));
        lemma_parse_args_until(input, i + 1, m);
    }
}

/// The arguments after the command that follows the operator at `m` run to
/// the end of the line.
proof fn lemma_arguments_to_end(input: Seq<char>, m: int, k: int)
    requires
        1 <= m,
        m + 2 <= k <= ws_words(input).len(),
        forall|x: int|
            m < x < ws_words(input).len() ==> !is_operator_word(#[trigger] ws_words(input)[x]),
    ensures
        argument_run_end(lex_spec(input), k) == ws_words(input).len(),
    decreases ws_words(input).len() - k,
{
    let words = ws_words(input);
    let ts = lex_spec(input);
    if k < words.len() {
        assert(!is_operator_word(words[k]));
        assert(!is_operator_word(words[k - 1]));
        assert(ts[k].token_type == TokenType::Argument);
        lemma_arguments_to_end(input, m, k + 1);
    }
}

/// A line with one operator between two commands, each with its arguments,
/// is the operator over the two commands, each keeping the words that follow
/// it as its arguments.
pub proof fn lemma_one_operator_line(input: Seq<char>, m: int)
    requires
        1 <= m < ws_words(input).len() - 1,
        is_operator_word(ws_words(input)[m]),
        forall|k: int|
            0 <= k < ws_words(input).len() && k != m ==> !is_operator_word(
                #[trigger] ws_words(input)[k],
            ),
    ensures
        ({
            let words = ws_words(input);
            let n = words.len() as int;
            &&& parsable(lex_spec(input))
            &&& parse_spec(lex_spec(input)) == (
                AstView::Operator {
                    op: words[m],
                    args: seq![
                        AstView::Command {
                            name: words[0],
                            args: arguments_for(words.subrange(1, m)),
                        },
                        AstView::Command {
                            name: words[m + 1],
                            args: arguments_for(words.subrange(m + 2, n)),
                        },
                    ],
                },
                0nat,
            )
        }),
{
    let words = ws_words(input);
    let n = words.len() as int;
    let ts = lex_spec(input);
    assert(!is_operator_word(words[0]));
    assert(ts[0].token_type == TokenType::Command);
    assert(arguments_for(words.subrange(1, 1)) == Seq::<AstView>::empty());
    lemma_parse_args_until(input, 1, m);
    let first = AstView::Command { name: words[0], args: arguments_for(words.subrange(1, m)) };
    assert(ts[m].token_type == TokenType::Operator);
    assert(!is_operator_word(words[m + 1]));
    assert(ts[m + 1].token_type == TokenType::Command);
    lemma_arguments_to_end(input, m, m + 2);
    assert(arguments_of(ts, m + 2, n) == arguments_for(words.subrange(m + 2, n)));
    let second = AstView::Command {
        name: words[m + 1],
        args: arguments_for(words.subrange(m + 2, n)),
    };
    assert(collect_commands(ts, m + 1, seq![first]) == (seq![first].push(second), n));
    assert(seq![first].push(second) == seq![first, second]);
    let node = AstView::Operator { op: words[m], args: seq![first, second] };
    assert(ts[m].value == words[m]);
    assert(parse_from(ts, n, node, 0) == (node, 0nat));
    assert(parse_from(ts, m, first, 0) == parse_from(ts, n, node, 0));
    assert(ts[0].value == words[0]);
    assert(parse_spec(ts) == parse_from(ts, 1, AstView::Command {
        name: words[0],
        args: arguments_for(words.subrange(1, 1)),
    }, 0));
}

} // verus!
