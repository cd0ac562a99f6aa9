//! A small registry of two-word sub-commands ("timer create") and the
//! dispatch of an input line to them.

use vstd::prelude::*;
use crate::text::{split_whitespace, strings_view, ws_words, str_eq};

verus! {

/// A sub-command: its two-word name, what runs it, and how many arguments
/// it needs at least.
pub struct Command<F> {
    pub name: String,
    pub function: F,
    pub min_args: usize,
}

/// The sub-commands registered so far.
pub struct CommandParser<F> {
    commands: Vec<Command<F>>,
}

/// The registry that a list of registrations makes: a later registration of a
/// name replaces an earlier one.
pub open spec fn registry_of<F>(s: Seq<Command<F>>) -> Map<Seq<char>, (F, nat)>
    decreases s.len(),
{
    if s.len() == 0 {
        Map::empty()
    } else {
        registry_of(s.drop_last()).insert(
            s.last().name@,
            (s.last().function, s.last().min_args as nat),
        )
    }
}

impl<F> View for CommandParser<F> {
    type V = Map<Seq<char>, (F, nat)>;

    closed spec fn view(&self) -> Map<Seq<char>, (F, nat)> {
        registry_of(self.commands@)
    }
}

/// What an input line asks for.
#[derive(Debug)]
pub enum Dispatch<F> {
    /// Run the sub-command's function with the words after its name.
    Run { function: F, args: Vec<String> },
    /// "Not enough arguments for command <name>"
    NotEnoughArguments { command: String },
    /// "Unknown command <name>"
    UnknownCommand { command: String },
}

/// The mathematical content of a [`Dispatch`].
pub enum DispatchView<F> {
    Run { function: F, args: Seq<Seq<char>> },
    NotEnoughArguments { command: Seq<char> },
    UnknownCommand { command: Seq<char> },
}

impl<F> View for Dispatch<F> {
    type V = DispatchView<F>;

    open spec fn view(&self) -> DispatchView<F> {
        match self {
            Dispatch::Run { function, args } => DispatchView::Run {
                function: *function,
                args: strings_view(args@),
            },
            Dispatch::NotEnoughArguments { command } => DispatchView::NotEnoughArguments {
                command: command@,
            },
            Dispatch::UnknownCommand { command } => DispatchView::UnknownCommand {
                command: command@,
            },
        }
    }
}

/// The sub-command an input line names: its first two words joined by a
/// space.
pub open spec fn command_key(input: Seq<char>) -> Seq<char> {
    let parts = ws_words(input);
    parts[0] + seq![' '] + parts[1]
}

/// What an input line of two words or more asks of `registry`: the named
/// sub-command with the remaining words, when it is registered and they are
/// enough; otherwise the matching complaint.
pub open spec fn dispatch_spec<F>(registry: Map<Seq<char>, (F, nat)>, input: Seq<char>) -> DispatchView<F> {
    let parts = ws_words(input);
    let key = command_key(input);
    if registry.contains_key(key) {
        if parts.len() - 2 >= registry[key].1 {
            DispatchView::Run { function: registry[key].0, args: parts.skip(2) }
        } else {
            DispatchView::NotEnoughArguments { command: key }
        }
    } else {
        DispatchView::UnknownCommand { command: key }
    }
}

/// The last registration of a name decides what the registry holds for it.
proof fn lemma_registry_lookup<F>(s: Seq<Command<F>>, i: int)
    requires
        0 <= i < s.len(),
        forall|j: int| i < j < s.len() ==> s[j].name@ != s[i].name@,
    ensures
        registry_of(s).contains_key(s[i].name@),
        registry_of(s)[s[i].name@] == (s[i].function, s[i].min_args as nat),
    decreases s.len(),
{
    if i < s.len() - 1 {
        lemma_registry_lookup(s.drop_last(), i);
    }
}

/// A name that no registration uses is not in the registry.
proof fn lemma_registry_absent<F>(s: Seq<Command<F>>, name: Seq<char>)
    requires
        forall|j: int| 0 <= j < s.len() ==> s[j].name@ != name,
    ensures
        !registry_of(s).contains_key(name),
    decreases s.len(),
{
    if s.len() > 0 {
        lemma_registry_absent(s.drop_last(), name);
    }
}

/// A registry holds finitely many names.
proof fn lemma_registry_finite<F>(s: Seq<Command<F>>)
    ensures
        registry_of(s).dom().finite(),
    decreases s.len(),
{
    if s.len() > 0 {
        lemma_registry_finite(s.drop_last());
    }
}

impl<F: Copy> CommandParser<F> {
    /// An empty registry.
    pub fn new() -> (r: Self)
        ensures
            r@ == Map::<Seq<char>, (F, nat)>::empty(),
            r@.dom().finite(),
    {
        CommandParser { commands: Vec::new() }
    }

    /// Registers `command`, replacing any sub-command of the same name.
    pub fn register(&mut self, command: Command<F>)
        ensures
            final(self)@ == old(self)@.insert(
                command.name@,
                (command.function, command.min_args as nat),
            ),
            final(self)@.dom().finite(),
            final(self)@.dom().len() == if old(self)@.dom().contains(command.name@) {
                old(self)@.dom().len()
            } else {
                old(self)@.dom().len() + 1
            },
    {
        let ghost before = self.commands@;
        proof {
            lemma_registry_finite(before);
        }
        self.commands.push(command);
        assert(self.commands@.drop_last() == before);
        proof {
            lemma_registry_finite(self.commands@);
        }
    }

    /// What `input` asks for (see [`dispatch_spec`]); the input needs two
    /// words at least.
    pub fn parse(&self, input: &str) -> (r: Dispatch<F>)
        requires
            ws_words(input@).len() >= 2,
        ensures
            r@ == dispatch_spec(self@, input@),
    {
        let parts = split_whitespace(input);
        let ghost ps = ws_words(input@);
        let mut key = parts[0].clone();
        key.push(' ');
        key.append(parts[1].as_str());
        assert(key@ == command_key(input@));
        let ghost s = self.commands@;
        let mut i = self.commands.len();
        while i > 0
            invariant
                i <= s.len(),
                s == self.commands@,
                strings_view(parts@) == ps,
                ps == ws_words(input@),
                ps.len() >= 2,
                key@ == command_key(input@),
                forall|j: int| i <= j < s.len() ==> s[j].name@ != key@,
            decreases i,
        {
            if str_eq(self.commands[i - 1].name.as_str(), key.as_str()) {
                let found = &self.commands[i - 1];
                proof {
                    lemma_registry_lookup(s, i - 1);
                }
                if parts.len() - 2 >= found.min_args {
                    let mut args: Vec<String> = Vec::new();
                    let mut k: usize = 2;
                    while k < parts.len()
                        invariant
                            2 <= k <= parts@.len(),
                            strings_view(parts@) == ps,
                            strings_view(args@) == ps.subrange(2, k as int),
                        decreases parts@.len() - k,
                    {
                        let ghost before = strings_view(args@);
                        args.push(parts[k].clone());
                        assert(strings_view(args@) == before.push(ps[k as int]));
                        k += 1;
                    }
                    assert(ps.subrange(2, ps.len() as int) == ps.skip(2));
                    return Dispatch::Run { function: found.function, args };
                } else {
                    return Dispatch::NotEnoughArguments { command: key };
                }
            }
            i -= 1;
        }
        proof {
            lemma_registry_absent(s, key@);
        }
        Dispatch::UnknownCommand { command: key }
    }
}

} // verus!

verus! {

/// A registered sub-command is what a line naming it dispatches to, with the
/// words after its name, once they are enough; a later registration of the
/// same name takes its place.
pub proof fn lemma_registered_command_dispatches<F>(
    registry: Map<Seq<char>, (F, nat)>,
    command: Command<F>,
    input: Seq<char>,
)
    requires
        ws_words(input).len() >= 2,
        command_key(input) == command.name@,
    ensures
        ws_words(input).len() - 2 >= command.min_args ==> dispatch_spec(
            registry.insert(command.name@, (command.function, command.min_args as nat)),
            input,
        ) == (DispatchView::Run { function: command.function, args: ws_words(input).skip(2) }),
        ws_words(input).len() - 2 < command.min_args ==> dispatch_spec(
            registry.insert(command.name@, (command.function, command.min_args as nat)),
            input,
        ) == (DispatchView::<F>::NotEnoughArguments { command: command.name@ }),
{
}

} // verus!
