use quote_stream::client::{tickers_from_file, CliCommands};
use quote_stream::command::{parse_command, Commands};

fn settings() -> CliCommands {
    CliCommands {
        ip_server: "127.0.0.1".to_string(),
        port_server: "8080".to_string(),
        port_udp: "34254".to_string(),
        path_file: "tickers.txt".to_string(),
    }
}

#[test]
fn server_address_joins_ip_and_port() {
    assert_eq!(settings().server_address(), "127.0.0.1:8080");
}

#[test]
fn tickers_from_file_turns_lines_into_commas() {
    assert_eq!(tickers_from_file("AAPL\nTSLA\n"), "AAPL,TSLA,");
    assert_eq!(tickers_from_file(""), "");
}

#[test]
fn stream_request_text() {
    let c = settings();
    assert_eq!(
        c.stream_request(Some("AAPL\nTSLA".to_string())),
        "STREAM udp://127.0.0.1:34254 AAPL,TSLA"
    );
    assert_eq!(c.stream_request(None), "STREAM udp://127.0.0.1:34254 ");
}

#[test]
fn server_understands_client_request() {
    let c = settings();
    let line = c.stream_request(Some("AAPL\nTSLA\n".to_string()));
    match parse_command(&line).ok().unwrap().command {
        Commands::Stream { endpoint, tickets } => {
            assert_eq!(endpoint.protocol, "udp");
            assert_eq!(endpoint.address, "127.0.0.1:34254");
            assert_eq!(tickets, vec!["AAPL", "TSLA", ""]);
        }
    }
    let none = c.stream_request(None);
    match parse_command(&none).ok().unwrap().command {
        Commands::Stream { tickets, .. } => assert!(tickets.is_empty()),
    }
}
