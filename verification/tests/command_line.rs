use quote_stream::command::{parse_command, parse_endpoint, CommandError, Commands};

#[test]
fn parse_endpoint_documented_example() {
    let ep = parse_endpoint("tcp://127.0.0.1:9000").unwrap();
    assert_eq!(ep.protocol, "tcp");
    assert_eq!(ep.address, "127.0.0.1:9000");
}

#[test]
fn parse_endpoint_splits_at_first_separator() {
    let ep = parse_endpoint("a://b://c").unwrap();
    assert_eq!(ep.protocol, "a");
    assert_eq!(ep.address, "b://c");
    let empty = parse_endpoint("://").unwrap();
    assert_eq!(empty.protocol, "");
    assert_eq!(empty.address, "");
}

#[test]
fn parse_endpoint_refuses_missing_separator() {
    let e = parse_endpoint("udp:/127.0.0.1").err().unwrap();
    assert_eq!(e, "endpoint must be in format <proto>://<address>");
    assert!(parse_endpoint("").is_err());
}

fn stream_parts(line: &str) -> (String, String, Vec<String>) {
    match parse_command(line) {
        Ok(c) => match c.command {
            Commands::Stream { endpoint, tickets } => (endpoint.protocol, endpoint.address, tickets),
        },
        Err(_) => panic!("refused: {}", line),
    }
}

#[test]
fn parse_command_stream_with_tickers() {
    let (p, a, t) = stream_parts("STREAM udp://127.0.0.1:34254 AAPL,TSLA,GOOG\n");
    assert_eq!(p, "udp");
    assert_eq!(a, "127.0.0.1:34254");
    assert_eq!(t, vec!["AAPL", "TSLA", "GOOG"]);
}

#[test]
fn parse_command_aliases_and_several_words() {
    let (_, _, t) = stream_parts("  stream  udp://h:1  A,B   C ");
    assert_eq!(t, vec!["A", "B", "C"]);
    let (_, _, t2) = stream_parts("Stream udp://h:1");
    assert!(t2.is_empty());
}

#[test]
fn parse_command_keeps_empty_pieces() {
    let (_, _, t) = stream_parts("STREAM udp://h:1 A,,B,");
    assert_eq!(t, vec!["A", "", "B", ""]);
}

#[test]
fn parse_command_escape_allows_dash_values() {
    let (_, _, t) = stream_parts("STREAM -- udp://h:1 -A -- -");
    assert_eq!(t, vec!["-A", "--", "-"]);
    let (_, _, single) = stream_parts("STREAM udp://h:1 -");
    assert_eq!(single, vec!["-"]);
}

#[test]
fn parse_command_errors() {
    assert!(matches!(parse_command("   "), Err(CommandError::MissingCommand)));
    match parse_command("start udp://h:1 A") {
        Err(CommandError::UnknownCommand(w)) => assert_eq!(w, "start"),
        _ => panic!("expected an unknown command"),
    }
    match parse_command("STREAM udp://h:1 -x") {
        Err(CommandError::UnexpectedArgument(w)) => assert_eq!(w, "-x"),
        _ => panic!("expected an unexpected argument"),
    }
    match parse_command("STREAM localhost:1 A") {
        Err(CommandError::InvalidEndpoint(w)) => assert_eq!(w, "localhost:1"),
        _ => panic!("expected an invalid endpoint"),
    }
    assert!(matches!(parse_command("STREAM"), Err(CommandError::MissingEndpoint)));
    assert!(matches!(parse_command("STREAM --"), Err(CommandError::MissingEndpoint)));
}

#[test]
fn parse_command_help() {
    assert!(matches!(parse_command("help"), Err(CommandError::HelpRequested)));
    assert!(matches!(parse_command("help STREAM"), Err(CommandError::HelpRequested)));
    assert!(matches!(parse_command("help help"), Err(CommandError::HelpRequested)));
    match parse_command("help nope") {
        Err(CommandError::UnknownCommand(w)) => assert_eq!(w, "nope"),
        _ => panic!("expected an unknown command"),
    }
    match parse_command("help stream x") {
        Err(CommandError::UnknownCommand(w)) => assert_eq!(w, "x"),
        _ => panic!("expected an unknown command"),
    }
    match parse_command("STREAM udp://h:1 --help") {
        Err(CommandError::UnexpectedArgument(w)) => assert_eq!(w, "--help"),
        _ => panic!("expected an unexpected argument"),
    }
}

#[test]
fn parse_command_first_word_errors() {
    match parse_command("-x stream") {
        Err(CommandError::UnexpectedArgument(w)) => assert_eq!(w, "-x"),
        _ => panic!("expected an unexpected argument"),
    }
    match parse_command("--help") {
        Err(CommandError::UnexpectedArgument(w)) => assert_eq!(w, "--help"),
        _ => panic!("expected an unexpected argument"),
    }
    match parse_command("-- stream udp://h:1") {
        Err(CommandError::UnexpectedArgument(w)) => assert_eq!(w, "--"),
        _ => panic!("expected an unexpected argument"),
    }
    match parse_command("-- go") {
        Err(CommandError::UnknownCommand(w)) => assert_eq!(w, "go"),
        _ => panic!("expected an unknown command"),
    }
    assert!(matches!(parse_command("--"), Err(CommandError::MissingCommand)));
    match parse_command("- x") {
        Err(CommandError::UnknownCommand(w)) => assert_eq!(w, "-"),
        _ => panic!("expected an unknown command"),
    }
}
