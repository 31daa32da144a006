use group_calculator::axioms::AxiomFailure;
use group_calculator::command::{interpret, parse_command, Argument, Command};
use group_calculator::session::{Response, Session};

fn run(session: &mut Session, line: &str) -> Response {
    session.apply(&parse_command(line))
}

#[test]
fn adding_the_same_integer_twice_adds_it_once() {
    let mut session = Session::new();
    let response = run(&mut session, "add 5 5");
    assert!(matches!(response, Response::Added { any: true }));
    assert_eq!(session.elements.len(), 1);
    assert!(session.elements.contains(5));
    run(&mut session, "add 5");
    assert_eq!(session.elements.len(), 1);
}

#[test]
fn add_reads_each_word() {
    assert_eq!(
        parse_command("add 1 x 2"),
        Command::Add(vec![
            Argument::Number(1),
            Argument::Invalid("x".to_string()),
            Argument::Number(2),
        ])
    );
    assert_eq!(
        parse_command("add +5 -3 007"),
        Command::Add(vec![Argument::Number(5), Argument::Number(-3), Argument::Number(7)])
    );
    assert_eq!(
        parse_command("add 2147483647 2147483648 -2147483648"),
        Command::Add(vec![
            Argument::Number(i32::MAX),
            Argument::Invalid("2147483648".to_string()),
            Argument::Number(i32::MIN),
        ])
    );
    assert_eq!(parse_command("add"), Command::Add(vec![]));
    assert_eq!(
        parse_command("add 1.5 - + 0x10"),
        Command::Add(vec![
            Argument::Invalid("1.5".to_string()),
            Argument::Invalid("-".to_string()),
            Argument::Invalid("+".to_string()),
            Argument::Invalid("0x10".to_string()),
        ])
    );
}

#[test]
fn lines_are_split_at_white_space() {
    assert_eq!(
        parse_command("  add \t 7   8\n"),
        Command::Add(vec![Argument::Number(7), Argument::Number(8)])
    );
    assert_eq!(parse_command("\tlist  "), Command::List);
    assert_eq!(parse_command("identity\u{2003}4"), Command::Identity(Some(4)));
    assert_eq!(parse_command(""), Command::Unknown);
    assert_eq!(parse_command("   "), Command::Unknown);
}

#[test]
fn command_names() {
    assert_eq!(parse_command("list"), Command::List);
    assert_eq!(parse_command("help"), Command::Help);
    assert_eq!(parse_command("create"), Command::Create);
    assert_eq!(parse_command("exit"), Command::Exit);
    assert_eq!(parse_command("list all"), Command::List);
    assert_eq!(parse_command("quit"), Command::Unknown);
    assert_eq!(parse_command("ADD 1"), Command::Unknown);
    assert_eq!(parse_command("adds 1"), Command::Unknown);
    assert_eq!(parse_command("5 add"), Command::Unknown);
}

#[test]
fn identity_takes_the_first_argument() {
    assert_eq!(parse_command("identity 3"), Command::Identity(Some(3)));
    assert_eq!(parse_command("identity -3 9"), Command::Identity(Some(-3)));
    assert_eq!(parse_command("identity"), Command::Identity(None));
    assert_eq!(parse_command("identity x"), Command::Identity(None));
    assert_eq!(parse_command("identity x 3"), Command::Identity(None));
    assert_eq!(parse_command("identity 99999999999"), Command::Identity(None));
}

#[test]
fn interpret_takes_words_as_given() {
    let words = vec!["identity".to_string(), "12".to_string()];
    assert_eq!(interpret(&words), Command::Identity(Some(12)));
    let words = vec!["add".to_string(), "1 2".to_string()];
    assert_eq!(interpret(&words), Command::Add(vec![Argument::Invalid("1 2".to_string())]));
    assert_eq!(interpret(&Vec::new()), Command::Unknown);
    assert_eq!(Argument::read(&"-40".to_string()), Argument::Number(-40));
    assert_eq!(Argument::read(&"".to_string()), Argument::Invalid(String::new()));
}

#[test]
fn invalid_words_do_not_stop_the_valid_ones() {
    let mut session = Session::new();
    let response = run(&mut session, "add a 4 b 6");
    assert!(matches!(response, Response::Added { any: true }));
    assert_eq!(session.elements.to_vec(), vec![4, 6]);
    let response = run(&mut session, "add a b");
    assert!(matches!(response, Response::Added { any: false }));
    let response = run(&mut session, "add");
    assert!(matches!(response, Response::Added { any: false }));
    assert_eq!(session.elements.to_vec(), vec![4, 6]);
    assert_eq!(session.identity, None);
}

#[test]
fn invalid_identity_keeps_the_old_one() {
    let mut session = Session::new();
    assert!(matches!(run(&mut session, "identity x"), Response::IdentityInvalid));
    assert_eq!(session.identity, None);
    assert!(matches!(run(&mut session, "identity 2"), Response::IdentitySet));
    assert_eq!(session.identity, Some(2));
    assert!(matches!(run(&mut session, "identity"), Response::IdentityInvalid));
    assert_eq!(session.identity, Some(2));
    assert!(matches!(run(&mut session, "identity 0"), Response::IdentitySet));
    assert_eq!(session.identity, Some(0));
}

#[test]
fn create_needs_an_identity() {
    let mut session = Session::new();
    run(&mut session, "add 0 1 2");
    assert!(matches!(run(&mut session, "create"), Response::IdentityMissing));
    assert!(matches!(session.create(), Response::IdentityMissing));
    assert_eq!(session.elements.len(), 3);
}

#[test]
fn create_validates_the_working_set() {
    let mut session = Session::new();
    run(&mut session, "add 0 1 2");
    run(&mut session, "identity 0");
    match run(&mut session, "create") {
        Response::Created(group) => {
            assert_eq!(group.elements.to_vec(), vec![0, 1, 2]);
            assert_eq!(group.identity, 0);
        }
        other => panic!("unexpected response: {:?}", other),
    }
    assert_eq!(session.elements.to_vec(), vec![0, 1, 2]);
    assert_eq!(session.identity, Some(0));
    run(&mut session, "add 7");
    match run(&mut session, "create") {
        Response::Rejected(errors) => {
            assert_eq!(errors, vec![AxiomFailure::NotClosed, AxiomFailure::NoIdentity]);
        }
        other => panic!("unexpected response: {:?}", other),
    }
    assert_eq!(session.elements.len(), 4);
}

#[test]
fn create_on_an_empty_set_reports_it() {
    let mut session = Session::new();
    run(&mut session, "identity 0");
    match run(&mut session, "create") {
        Response::Rejected(errors) => assert_eq!(errors, vec![AxiomFailure::EmptySet]),
        other => panic!("unexpected response: {:?}", other),
    }
}

#[test]
fn list_shows_the_state() {
    let mut session = Session::new();
    match run(&mut session, "list") {
        Response::Listing { elements, identity } => {
            assert!(elements.is_empty());
            assert_eq!(identity, None);
        }
        other => panic!("unexpected response: {:?}", other),
    }
    run(&mut session, "add 3 1 3 2");
    run(&mut session, "identity 1");
    match run(&mut session, "list") {
        Response::Listing { elements, identity } => {
            assert_eq!(elements, vec![3, 1, 2]);
            assert_eq!(identity, Some(1));
        }
        other => panic!("unexpected response: {:?}", other),
    }
}

#[test]
fn other_commands_leave_the_state_alone() {
    let mut session = Session::new();
    run(&mut session, "add 1 2");
    run(&mut session, "identity 1");
    assert!(matches!(run(&mut session, "help"), Response::Help));
    assert!(matches!(run(&mut session, "exit"), Response::Exit));
    assert!(matches!(run(&mut session, "nonsense 1 2"), Response::Unknown));
    assert!(matches!(run(&mut session, ""), Response::Unknown));
    assert_eq!(session.elements.to_vec(), vec![1, 2]);
    assert_eq!(session.identity, Some(1));
}

#[test]
fn classify_keeps_an_invalid_word() {
    let word = "seven".to_string();
    assert_eq!(Argument::classify(&word, None), Argument::Invalid("seven".to_string()));
    assert_eq!(Argument::classify(&word, Some(7)), Argument::Number(7));
}
