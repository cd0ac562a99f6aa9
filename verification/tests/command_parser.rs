use i6::command_parser::{Command, CommandParser, Dispatch};

fn create(_args: Vec<&str>) {}
fn other(_args: Vec<&str>) {}

#[test]
fn dispatch_registered_command() {
    let mut parser: CommandParser<fn(Vec<&str>)> = CommandParser::new();
    parser.register(Command { name: "timer create".to_string(), function: create, min_args: 2 });
    match parser.parse("timer create 90 work") {
        Dispatch::Run { function, args } => {
            assert_eq!(function as usize, create as fn(Vec<&str>) as usize);
            assert_eq!(args, vec!["90".to_string(), "work".to_string()]);
        }
        _ => panic!("expected run"),
    }
}

#[test]
fn dispatch_not_enough_and_unknown() {
    let mut parser: CommandParser<u32> = CommandParser::new();
    parser.register(Command { name: "timer create".to_string(), function: 1, min_args: 2 });
    assert!(matches!(
        parser.parse("timer  create 90"),
        Dispatch::NotEnoughArguments { ref command } if command == "timer create"
    ));
    assert!(matches!(
        parser.parse("timer stop"),
        Dispatch::UnknownCommand { ref command } if command == "timer stop"
    ));
}

#[test]
fn later_registration_replaces() {
    let mut parser: CommandParser<u32> = CommandParser::new();
    parser.register(Command { name: "a b".to_string(), function: 1, min_args: 0 });
    parser.register(Command { name: "a b".to_string(), function: 2, min_args: 1 });
    assert!(matches!(parser.parse("a b"), Dispatch::NotEnoughArguments { .. }));
    assert!(matches!(parser.parse("a b c"), Dispatch::Run { function: 2, .. }));
    let _ = other;
}
