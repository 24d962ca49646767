use echo_server::client::{Client, Handled};
use echo_server::codec::{decode_server_message, encode_client_message};
use echo_server::message::{
    AddRequest, AddResponse, ClientMessage, EchoMessage, Request, Response, ServerMessage,
};
use echo_server::server::{AcceptOutcome, Action, Server, StopOutcome};

/// A server for `localhost` on the given port, started, with one connection
/// accepted.
fn create_server(port: u16) -> Server {
    let mut server = Server::new(&format!("localhost:{}", port));
    assert_eq!(server.addr(), format!("localhost:{}", port));
    assert!(!server.is_running());
    let pool = server.run();
    assert_eq!(pool.worker_count(), 16);
    assert!(server.is_running());
    server
}

fn connect(server: &Server) -> Client {
    assert_eq!(server.on_accept(AcceptOutcome::Connected), Action::Serve);
    let client = Client::new();
    assert!(client.is_open());
    client
}

/// Sends one message over the connection and returns what comes back.
fn send(client: &mut Client, message: Request) -> Result<ServerMessage, Handled> {
    let bytes = encode_client_message(&ClientMessage { message: Some(message) });
    match client.handle(&bytes) {
        Handled::Reply(reply) => Ok(decode_server_message(&reply).expect("reply does not decode")),
        other => Err(other),
    }
}

fn disconnect(client: &mut Client) -> bool {
    let handled = client.handle(&[]);
    handled == Handled::Disconnected && !client.is_open()
}

fn echo(content: &str) -> EchoMessage {
    EchoMessage { content: content.to_string() }
}

#[test]
fn test_client_connection() {
    let mut server = create_server(8081);
    let mut client = connect(&server);
    assert!(client.keep_serving(server.is_running()), "Failed to connect to the server");

    assert!(disconnect(&mut client), "Failed to disconnect from the server");
    assert!(!client.keep_serving(server.is_running()));

    assert_eq!(server.stop(), StopOutcome::Signaled);
    assert!(!server.is_running());
}

#[test]
fn test_client_echo_message() {
    let mut server = create_server(8082);
    let mut client = connect(&server);

    let echo_message = echo("Hello, World!");
    let response = send(&mut client, Request::Echo(echo_message.clone()));
    assert!(response.is_ok(), "Failed to receive response for EchoMessage");

    match response.unwrap().message {
        Some(Response::Echo(echo)) => {
            assert_eq!(echo.content, echo_message.content, "Echoed message content does not match");
        }
        _ => panic!("Expected EchoMessage, but received a different message"),
    }

    assert!(disconnect(&mut client), "Failed to disconnect from the server");
    assert_eq!(server.stop(), StopOutcome::Signaled);
}

#[test]
fn test_multiple_echo_messages() {
    let mut server = create_server(8083);
    let mut client = connect(&server);

    let messages = vec![
        "Hello, World!".to_string(),
        "How are you?".to_string(),
        "Goodbye!".to_string(),
    ];

    for message_content in messages {
        let response = send(&mut client, Request::Echo(echo(&message_content)));
        assert!(response.is_ok(), "Failed to receive response for EchoMessage");

        match response.unwrap().message {
            Some(Response::Echo(echo)) => {
                assert_eq!(echo.content, message_content, "Echoed message content does not match");
            }
            _ => panic!("Expected EchoMessage, but received a different message"),
        }
    }

    assert!(disconnect(&mut client), "Failed to disconnect from the server");
    assert_eq!(server.stop(), StopOutcome::Signaled);
}

#[test]
fn test_multiple_clients() {
    let mut server = create_server(8084);

    let mut clients: Vec<Client> = vec![connect(&server), connect(&server), connect(&server)];

    let messages = vec![
        "Hello, World!".to_string(),
        "How are you?".to_string(),
        "Goodbye!".to_string(),
    ];

    for message_content in messages {
        for client in clients.iter_mut() {
            let response = send(client, Request::Echo(echo(&message_content)));
            assert!(response.is_ok(), "Failed to receive response for EchoMessage");

            match response.unwrap().message {
                Some(Response::Echo(echo)) => {
                    assert_eq!(
                        echo.content, message_content,
                        "Echoed message content does not match"
                    );
                }
                _ => panic!("Expected EchoMessage, but received a different message"),
            }
        }
    }

    for client in clients.iter_mut() {
        assert!(disconnect(client), "Failed to disconnect from the server");
    }

    assert_eq!(server.stop(), StopOutcome::Signaled);
}

#[test]
fn test_client_add_request() {
    let mut server = create_server(8085);
    let mut client = connect(&server);

    let add_request = AddRequest { a: 10, b: 20 };
    let response = send(&mut client, Request::Add(add_request));
    assert!(response.is_ok(), "Failed to receive response for AddRequest");

    match response.unwrap().message {
        Some(Response::Add(add_response)) => {
            assert_eq!(
                add_response.result,
                add_request.a + add_request.b,
                "AddResponse result does not match"
            );
            assert_eq!(add_response, AddResponse { result: 30 });
        }
        _ => panic!("Expected AddResponse, but received a different message"),
    }

    assert!(disconnect(&mut client), "Failed to disconnect from the server");
    assert_eq!(server.stop(), StopOutcome::Signaled);
}

#[test]
fn clients_with_different_texts_get_their_own_back() {
    let texts = [
        ["Hello, World!", "How are you?", "Goodbye!"],
        ["one", "two", "three"],
        ["", "ünïcödé ✓", "a\nb"],
    ];
    let mut clients = vec![Client::new(), Client::new(), Client::new()];
    for round in 0..3 {
        for (who, client) in clients.iter_mut().enumerate() {
            let sent = texts[who][round];
            let reply = send(client, Request::Echo(echo(sent))).unwrap();
            assert_eq!(reply.message, Some(Response::Echo(echo(sent))));
        }
    }
}

#[test]
fn add_covers_zero_negative_and_wrapping() {
    let cases: [(i32, i32, i32); 8] = [
        (0, 0, 0),
        (0, 7, 7),
        (-5, 0, -5),
        (-3, -4, -7),
        (-10, 10, 0),
        (i32::MAX, 1, i32::MIN),
        (i32::MIN, -1, i32::MAX),
        (i32::MIN, i32::MAX, -1),
    ];
    let mut client = Client::new();
    for (a, b, expected) in cases {
        let reply = send(&mut client, Request::Add(AddRequest { a, b })).unwrap();
        assert_eq!(reply.message, Some(Response::Add(AddResponse { result: expected })));
    }
}

#[test]
fn zero_bytes_close_the_connection_for_good() {
    let mut client = Client::new();
    assert_eq!(client.handle(&[]), Handled::Disconnected);
    assert!(!client.is_open());
    let bytes = encode_client_message(&ClientMessage { message: Some(Request::Echo(echo("x"))) });
    assert_eq!(client.handle(&bytes), Handled::Disconnected);
    assert!(!client.is_open());
    assert!(!client.keep_serving(true));
}

#[test]
fn garbage_gets_no_reply_and_keeps_the_connection() {
    let mut client = Client::new();
    // A key that announces a length-delimited field, then nothing.
    assert_eq!(client.handle(&[0x0a]), Handled::Undecodable);
    // Field number zero is no field.
    assert_eq!(client.handle(&[0x00, 0x00]), Handled::Undecodable);
    // Eleven continuation bytes are no varint.
    assert_eq!(client.handle(&[0xff; 11]), Handled::Undecodable);
    assert!(client.is_open());
    assert!(client.keep_serving(true));
    let reply = send(&mut client, Request::Echo(echo("still here"))).unwrap();
    assert_eq!(reply.message, Some(Response::Echo(echo("still here"))));
}

#[test]
fn message_without_request_is_passed_over() {
    let mut client = Client::new();
    // Field 15, a varint: unknown to the envelope, so it is stepped over.
    assert_eq!(client.handle(&[0x78, 0x01]), Handled::Unanswered);
    assert!(client.is_open());
}

#[test]
fn failed_io_closes_the_connection() {
    let mut client = Client::new();
    client.fail();
    assert!(!client.is_open());
    assert!(!client.keep_serving(true));
    assert_eq!(client.handle(&[0x0a, 0x00]), Handled::Disconnected);
}

#[test]
fn servicing_stops_with_the_server() {
    let client = Client::new();
    assert!(client.keep_serving(true));
    assert!(!client.keep_serving(false));
}

#[test]
fn reply_bytes_of_the_hello_world_echo() {
    let mut client = Client::new();
    let request = [
        0x0a, 0x0f, 0x0a, 0x0d, b'H', b'e', b'l', b'l', b'o', b',', b' ', b'W', b'o', b'r', b'l',
        b'd', b'!',
    ];
    assert_eq!(client.handle(&request), Handled::Reply(request.to_vec()));
}

#[test]
fn reply_bytes_of_ten_plus_twenty() {
    let mut client = Client::new();
    let request = [0x12, 0x04, 0x08, 0x0a, 0x10, 0x14];
    assert_eq!(client.handle(&request), Handled::Reply(vec![0x12, 0x02, 0x08, 0x1e]));
}
