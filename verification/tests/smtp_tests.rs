use mail_lib::connection::{
    multiline_reply_complete, multiline_reply_lines, SMTPConnectionState, CRLF,
};
use mail_lib::credentials::{CredentialValue, Credentials, LoginMechanism};
use mail_lib::ehlo::{EhloCommand, EhloCommandData, EhloResponse, SMTPCommand};
use mail_lib::error::SMTPError;
use mail_lib::extension::{SMTPServerExtension, ServerExtensionParseError};
use mail_lib::statement::{
    MultiLineStatement, MultilineServerResponse, ResponseCode, ServerResponseLine,
    SingleLineStatement, Statement, StatementParseError, StatementWriter,
};
use mail_lib::wire::bytes_as_slice;

#[test]
fn test_plain() {
    let credentials = Credentials::Plain {
        username: "username".to_string(),
        password: "password".to_string(),
    };

    let credential_value: CredentialValue = credentials.to_value().unwrap();

    assert_eq!(credential_value.login_mechanism, LoginMechanism::Plain);

    let credentials: Credentials = credential_value.to_credentials().unwrap();

    assert_eq!(
        credentials,
        Credentials::Plain {
            username: "username".to_string(),
            password: "password".to_string(),
        }
    );
}

#[test]
fn plain_value_is_base64_of_user_pass() {
    let credentials = Credentials::Plain {
        username: "username".to_string(),
        password: "password".to_string(),
    };
    let value = credentials.to_value().unwrap();
    // The base64 of "username:password"; fails if the encoder handed its
    // input back unchanged.
    assert_eq!(value.value, "dXNlcm5hbWU6cGFzc3dvcmQ=");
}

#[test]
fn unsupported_mechanism_is_refused() {
    let credentials = Credentials::Other {
        mechanism_name: "XOAUTH2".to_string(),
        parameters: "whatever".to_string(),
    };
    let e = credentials.to_value().unwrap_err();
    assert_eq!(
        e,
        mail_lib::credentials::CredentialError::UnsupportedLoginMechanism(LoginMechanism::Other(
            "XOAUTH2".to_string()
        ))
    );
    let v = CredentialValue {
        login_mechanism: LoginMechanism::Other("XOAUTH2".to_string()),
        value: "x".to_string(),
    };
    assert!(v.to_credentials().is_err());
}

#[test]
fn bad_base64_is_refused() {
    let v = CredentialValue {
        login_mechanism: LoginMechanism::Plain,
        value: "!!!not base64!!!".to_string(),
    };
    assert_eq!(
        v.to_credentials(),
        Err(mail_lib::credentials::CredentialError::Base64Error)
    );
}

#[test]
fn mechanism_lists_round_trip() {
    let tokens = vec!["PLAIN".to_string(), "LOGIN".to_string()];
    let mechs = LoginMechanism::from_iter(&tokens);
    assert_eq!(
        mechs,
        vec![
            LoginMechanism::Plain,
            LoginMechanism::Other("LOGIN".to_string())
        ]
    );
    assert_eq!(LoginMechanism::format_iter(&mechs), "PLAIN LOGIN");
}

#[test]
fn reply_line_parsing() {
    let line = ServerResponseLine::from_str("250").unwrap();
    assert_eq!(line.code, ResponseCode::Okay);
    assert_eq!(line.message, None);

    let line = ServerResponseLine::from_str("250-SIZE 10485760").unwrap();
    assert_eq!(line.code, ResponseCode::Okay);
    assert_eq!(line.message, Some("SIZE 10485760".to_string()));

    let line = ServerResponseLine::from_str("502 not implemented").unwrap();
    assert_eq!(line.code, ResponseCode::Other(502));
    assert_eq!(line.message, Some("not implemented".to_string()));

    match ServerResponseLine::from_str("2x0 what") {
        Err(StatementParseError::InvalidResponseCode(s)) => assert_eq!(s, "2x0 what"),
        other => panic!("unexpected: {:?}", other),
    }
    assert!(ServerResponseLine::from_str("25").is_err());
}

#[test]
fn reply_line_serialization() {
    let line = ServerResponseLine::new(ResponseCode::Okay, Some("OK".to_string()));
    assert_eq!(line.to_spaced_line(), "250 OK\r\n");
    assert_eq!(line.to_hyphenated_line(), "250-OK\r\n");

    // Codes always render as exactly three digits.
    let line = ServerResponseLine::new(ResponseCode::Other(7), None);
    assert_eq!(line.to_spaced_line(), "007 \r\n");

    let mut buffer = String::new();
    let line = ServerResponseLine::new(ResponseCode::Other(354), Some("go ahead".to_string()));
    line.write_hyphenated_line(&mut buffer).unwrap();
    line.write_spaced_line(&mut buffer).unwrap();
    assert_eq!(buffer, "354-go ahead\r\n354 go ahead\r\n");
}

#[test]
fn statement_sizes() {
    let line = ServerResponseLine::new(ResponseCode::Okay, Some("OK".to_string()));
    assert_eq!(line.statement_size(), 6);
    let multi = MultilineServerResponse::new(vec![
        ServerResponseLine::new(ResponseCode::Okay, Some("OK".to_string())),
        ServerResponseLine::new(ResponseCode::Okay, None),
    ]);
    assert_eq!(multi.statement_size(), 6 + 2 + 4 + 2);
}

#[test]
fn statement_to_bytes() {
    let line = ServerResponseLine::new(ResponseCode::Okay, Some("OK".to_string()));
    let bytes = line.to_bytes();
    assert_eq!(bytes_as_slice(&bytes), b"250 OK\r\n");

    let multi = MultilineServerResponse::new(vec![
        ServerResponseLine::new(ResponseCode::Okay, Some("A".to_string())),
        ServerResponseLine::new(ResponseCode::Okay, Some("B".to_string())),
    ]);
    let bytes = multi.to_bytes();
    assert_eq!(bytes_as_slice(&bytes), b"250-A\r\n250 B\r\n");
}

#[test]
fn string_writer_appends() {
    let mut buffer = String::from("start:");
    buffer.write_str("ab").unwrap();
    buffer.write_bytes(b"cd").unwrap();
    buffer.write_string("ef".to_string()).unwrap();
    assert_eq!(buffer, "start:abcdef");
    assert!(buffer.write_bytes(&[0xFF, 0xFE]).is_err());
}

#[test]
fn multiline_from_lines() {
    let lines = vec!["250-A".to_string(), "250 B".to_string()];
    let reply = MultilineServerResponse::from_lines(&lines).unwrap();
    assert_eq!(reply.0.len(), 2);
    assert_eq!(reply.0[0].message, Some("A".to_string()));
    assert_eq!(reply.0[1].message, Some("B".to_string()));

    let bad = vec!["250-A".to_string(), "nope".to_string()];
    match MultilineServerResponse::from_lines(&bad) {
        Err(StatementParseError::InvalidResponseCode(s)) => assert_eq!(s, "nope"),
        other => panic!("unexpected: {:?}", other),
    }
}

#[test]
fn multiline_from_str_splits_on_crlf() {
    let reply = MultilineServerResponse::from_str("250-A\r\n250 B").unwrap();
    assert_eq!(reply.0.len(), 2);
    assert_eq!(reply.0[0].code, ResponseCode::Okay);
    assert_eq!(reply.0[1].message, Some("B".to_string()));
}

#[test]
fn continuation_rule() {
    assert!(!multiline_reply_complete("250-SIZE 10485760\r\n"));
    assert!(!multiline_reply_complete("250-A\r\n250 B"));
    assert!(multiline_reply_complete("250 OK\r\n"));
    assert!(multiline_reply_complete("250-A\r\n250 B\r\n"));
    assert!(!multiline_reply_complete("250"));
}

#[test]
fn multiline_reply_scenario() {
    let buffer = "250-SIZE 10485760\r\n250-STARTTLS\r\n250 AUTH PLAIN\r\n";
    assert!(multiline_reply_complete(buffer));
    let lines = multiline_reply_lines(buffer);
    assert_eq!(lines.len(), 3);
    let reply = MultilineServerResponse::from_lines(&lines).unwrap();
    assert_eq!(reply.0.len(), 3);
    for line in &reply.0 {
        assert_eq!(line.code, ResponseCode::Okay);
    }
    let extensions: Vec<SMTPServerExtension> = reply
        .0
        .iter()
        .map(|line| SMTPServerExtension::parse(line.message.as_ref().unwrap()).unwrap())
        .collect();
    assert_eq!(
        extensions,
        vec![
            SMTPServerExtension::Size(10485760),
            SMTPServerExtension::StartTLS,
            SMTPServerExtension::Auth(vec![LoginMechanism::Plain]),
        ]
    );
}

#[test]
fn extension_parsing() {
    assert_eq!(
        SMTPServerExtension::parse("SIZE 10485760"),
        Ok(SMTPServerExtension::Size(10485760))
    );
    // The RFC spelling of STARTTLS is recognized.
    assert_eq!(
        SMTPServerExtension::parse("STARTTLS"),
        Ok(SMTPServerExtension::StartTLS)
    );
    assert_eq!(
        SMTPServerExtension::parse("AUTH PLAIN LOGIN"),
        Ok(SMTPServerExtension::Auth(vec![
            LoginMechanism::Plain,
            LoginMechanism::Other("LOGIN".to_string()),
        ]))
    );
    assert_eq!(
        SMTPServerExtension::parse("8BITMIME"),
        Ok(SMTPServerExtension::Other {
            name: "8BITMIME".to_string(),
            value: None,
        })
    );
    assert_eq!(
        SMTPServerExtension::parse("X-CUSTOM a b"),
        Ok(SMTPServerExtension::Other {
            name: "X-CUSTOM".to_string(),
            value: Some("a b".to_string()),
        })
    );
}

#[test]
fn extension_size_errors() {
    assert_eq!(
        SMTPServerExtension::parse("SIZE"),
        Err(ServerExtensionParseError::InvalidSize("SIZE".to_string()))
    );
    assert_eq!(
        SMTPServerExtension::parse("SIZE big"),
        Err(ServerExtensionParseError::InvalidSize(
            "SIZE big".to_string()
        ))
    );
    // A plus sign is accepted, as the standard integer parser accepts it.
    assert_eq!(
        SMTPServerExtension::parse("SIZE +5"),
        Ok(SMTPServerExtension::Size(5))
    );
}

#[test]
fn extension_rendering() {
    assert_eq!(SMTPServerExtension::Size(10485760).to_message(), "SIZE 10485760");
    assert_eq!(SMTPServerExtension::StartTLS.to_message(), "STARTTLS");
    assert_eq!(
        SMTPServerExtension::Auth(vec![LoginMechanism::Plain]).to_message(),
        "AUTH PLAIN"
    );
    assert_eq!(
        SMTPServerExtension::Other {
            name: "X".to_string(),
            value: Some("y".to_string())
        }
        .to_message(),
        "X y"
    );
    assert_eq!(
        SMTPServerExtension::Other {
            name: "X".to_string(),
            value: None
        }
        .to_message(),
        "X"
    );
}

#[test]
fn ehlo_command_contract() {
    assert_eq!(EhloCommand::command(), "EHLO");
    assert!(EhloCommand::can_handle("EHLO client.example.org"));
    assert!(!EhloCommand::can_handle("MAIL FROM:<a@b>"));

    let data = EhloCommand::parse_client_line("EHLO client.example.org");
    assert_eq!(data.client_hostname, "client.example.org");

    let line = EhloCommand::client_line(&EhloCommandData {
        client_hostname: "client.example.org".to_string(),
    });
    assert_eq!(line, format!("EHLO client.example.org{}", CRLF));
}

#[test]
fn ehlo_response_success() {
    let reply = MultilineServerResponse::from_lines(&vec![
        "250 mail.example.org greets you".to_string(),
        "250-SIZE 10485760".to_string(),
        "250 STARTTLS".to_string(),
    ])
    .unwrap();
    let response = EhloResponse::from_response(&reply).unwrap();
    match response {
        EhloResponse::Success {
            hello_code,
            hello_message,
            extensions,
        } => {
            assert_eq!(hello_code, ResponseCode::Okay);
            assert_eq!(hello_message, "mail.example.org greets you");
            assert_eq!(
                extensions,
                vec![
                    SMTPServerExtension::Size(10485760),
                    SMTPServerExtension::StartTLS,
                ]
            );
        }
        other => panic!("unexpected: {:?}", other),
    }
}

#[test]
fn ehlo_response_errors() {
    let refused = MultilineServerResponse::from_lines(&vec!["550 no".to_string()]).unwrap();
    match EhloResponse::from_response(&refused).unwrap() {
        EhloResponse::Error { code, message } => {
            assert_eq!(code, ResponseCode::Other(550));
            assert_eq!(message, "no");
        }
        other => panic!("unexpected: {:?}", other),
    }

    let empty = MultilineServerResponse::new(vec![]);
    match EhloResponse::from_response(&empty).unwrap() {
        EhloResponse::Error { code, message } => {
            assert_eq!(code, ResponseCode::Other(500));
            assert_eq!(message, "No response lines");
        }
        other => panic!("unexpected: {:?}", other),
    }

    let missing = MultilineServerResponse::new(vec![
        ServerResponseLine::new(ResponseCode::Okay, Some("hi".to_string())),
        ServerResponseLine::new(ResponseCode::Okay, None),
    ]);
    match EhloResponse::from_response(&missing) {
        Err(SMTPError::InvalidResponse(s)) => assert_eq!(s, "Expected extension, got none"),
        other => panic!("unexpected: {:?}", other),
    }

    let no_hello = MultilineServerResponse::new(vec![ServerResponseLine::new(
        ResponseCode::Okay,
        None,
    )]);
    match EhloResponse::from_response(&no_hello) {
        Err(SMTPError::InvalidResponse(s)) => assert_eq!(s, "Expected hello message, got none"),
        other => panic!("unexpected: {:?}", other),
    }
}

#[test]
fn ehlo_server_statement() {
    let response = EhloResponse::Success {
        hello_code: ResponseCode::Okay,
        hello_message: "hi".to_string(),
        extensions: vec![SMTPServerExtension::StartTLS],
    };
    let statement = EhloCommand::server_statement(&response);
    assert_eq!(statement.0.len(), 2);
    assert_eq!(statement.0[1].message, Some("STARTTLS".to_string()));
    let bytes = statement.to_bytes();
    assert_eq!(bytes_as_slice(&bytes), b"250-hi\r\n250 STARTTLS\r\n");
}

#[test]
fn connection_state_transition() {
    let state = SMTPConnectionState::Connected;
    assert_eq!(state.after_ehlo_success(), SMTPConnectionState::Helo);
}

#[test]
fn error_codes() {
    assert_eq!(SMTPError::InvalidCommand("FOO".to_string()).get_error_code(), 502);
    assert_eq!(SMTPError::InvalidResponse("x").get_error_code(), 0);
}

#[test]
fn response_code_values() {
    let code = ResponseCode::from(250);
    assert_eq!(code, ResponseCode::Okay);
    assert_eq!(code.as_u16(), 250);
    assert!(code.matches_code(250));
    assert!(!code.matches_code(550));
    assert_eq!(ResponseCode::from(421), ResponseCode::Other(421));
}
