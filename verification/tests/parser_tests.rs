use mail_lib::grammar::{
    parse_addr_spec, parse_display_name, parse_domain, parse_domain_literal, parse_quoted_string,
};
use mail_lib::mail_box::{MailBox, RawMailBox};

#[test]
fn wsp() {
    assert!(mail_lib::chars::wsp_b(b' '));
    assert!(mail_lib::chars::wsp_b(b'\t'));
    assert!(!mail_lib::chars::wsp_b(b'a'));
}

#[test]
fn rfc5322_test_mailbox() {
    let v = RawMailBox::parse("\"Simple Test\" <test@mail.local>");
    assert_eq!(
        v,
        Ok(RawMailBox {
            display_name: Some("Simple Test".into()),
            local: "test".into(),
            domain: "mail.local".into(),
        })
    );
}

#[test]
fn mail_box_test_mailbox() {
    let result = RawMailBox::parse("Test <username@example.com>");
    match result {
        Ok(ok) => {
            assert_eq!(
                ok,
                RawMailBox {
                    display_name: Some("Test".to_string()),
                    local: "username".to_string(),
                    domain: "example.com".to_string(),
                }
            );
        }
        Err(err) => {
            println!("{:?}", err);
            panic!();
        }
    }

    assert_eq!(
        RawMailBox::parse("\"Display Name\" <username@example.com>"),
        Ok(RawMailBox {
            display_name: Some("Display Name".to_string()),
            local: "username".to_string(),
            domain: "example.com".to_string(),
        })
    );
}

#[test]
fn test_name_addr() {
    assert_eq!(
        RawMailBox::parse("\"Display Name\"<username@example.com>").unwrap(),
        RawMailBox {
            display_name: Some("Display Name".to_string()),
            local: "username".to_string(),
            domain: "example.com".to_string(),
        }
    );
}

#[test]
fn test_display_name() {
    assert_eq!(parse_display_name("John"), Some("John".to_string()));
    assert_eq!(
        parse_display_name(r#""Darth Vader""#),
        Some("Darth Vader".to_string())
    );
}

#[test]
fn test_quoted_string() {
    assert_eq!(
        parse_quoted_string(r#""Darth Vader""#),
        Some(r#""Darth Vader""#.to_string())
    );
}

#[test]
fn test_domain_literal() {
    assert_eq!(
        parse_domain_literal("[127.0.0.1]"),
        Some("[127.0.0.1]".to_string())
    );
    assert_eq!(
        parse_domain_literal("[2001:0db8:85a3:0000:0000:8a2e:0370:7334]"),
        Some("[2001:0db8:85a3:0000:0000:8a2e:0370:7334]".to_string())
    );
}

#[test]
fn test_domain() {
    assert_eq!(parse_domain("example.com"), Some("example.com".to_string()));
    assert_eq!(parse_domain("[127.0.0.1]"), Some("[127.0.0.1]".to_string()));
    assert_eq!(
        parse_domain("[2001:0db8:85a3:0000:0000:8a2e:0370:7334]"),
        Some("[2001:0db8:85a3:0000:0000:8a2e:0370:7334]".to_string())
    );
}

fn check(raw: &str, local: &str, domain: &str) {
    let email_address = parse_addr_spec(raw);
    if email_address.is_none() {
        panic!("{:?}: no parse", raw);
    }
    let email_address = email_address.unwrap();
    assert_eq!(email_address.0, local);
    assert_eq!(email_address.1, domain);
}

#[test]
fn rfc5322_test_email_address() {
    check("email@example.com", "email", "example.com");
}

#[test]
fn parse_a_bunch() {
    let instant = std::time::Instant::now();
    for _ in 0..1000 {
        let _ = parse_addr_spec("example@exmaple.com");
    }
    println!("1000 in {:?}", instant.elapsed());
}

#[test]
fn rfc5322_test_weird_cases() {
    check(
        "disposable.style.email.with+symbol@example.com",
        "disposable.style.email.with+symbol",
        "example.com",
    );
    check(
        "other.email-with-dash@example.com",
        "other.email-with-dash",
        "example.com",
    );
    check("x@example.com", "x", "example.com");
    check(
        r#""much.more unusual"@example.com"#,
        r#""much.more unusual""#,
        "example.com",
    );
    check(
        r#""very.(),:;<>[]\".VERY.\"very@ \"very\".unusual"@strange.example.com"#,
        r#""very.(),:;<>[]\".VERY.\"very@ \"very\".unusual""#,
        "strange.example.com",
    );
}

#[test]
fn mailbox_scenario() {
    let m = MailBox::parse("Test <username@example.com>").unwrap();
    assert_eq!(m.get_name(), Some("Test"));
    assert_eq!(m.get_local(), "username");
    assert_eq!(m.get_domain(), "example.com");
    let (name, email) = m.into_inner();
    assert_eq!(name, Some("Test".to_string()));
    assert_eq!(email.as_str(), "username@example.com");
}

#[test]
fn bare_addr_spec_mailbox_has_no_name() {
    let m = MailBox::parse("username@example.com").unwrap();
    assert_eq!(m.get_name(), None);
    assert_eq!(m.get_local(), "username");
    assert_eq!(m.get_domain(), "example.com");
}

#[test]
fn multi_word_display_name() {
    let m = MailBox::parse("John Ronald Reuel <jrr@example.com>").unwrap();
    assert_eq!(m.get_name(), Some("John Ronald Reuel"));
}

#[test]
fn mailbox_parse_failures() {
    assert!(RawMailBox::parse("no-at-sign").is_err());
    assert!(RawMailBox::parse("a@b junk").is_err());
    assert!(RawMailBox::parse("Name <a@b> trailing").is_err());
    assert!(MailBox::parse("<@example.com>").is_err());
    let e = RawMailBox::parse("???").unwrap_err();
    assert_eq!(e.ctx, Some("???".to_string()));
}

#[test]
fn quoted_string_keeps_interior_whitespace() {
    assert_eq!(
        parse_quoted_string("\"a b\""),
        Some("\"a b\"".to_string())
    );
    // The trailing whitespace before the closing quote is consumed but not
    // part of the stripped content.
    assert_eq!(parse_display_name("\"ab \""), Some("ab".to_string()));
}

#[test]
fn domain_literal_rejects_stray_bracket() {
    assert_eq!(parse_domain_literal("[127.0.0.1"), None);
    assert_eq!(parse_domain("dot..dot"), None);
}
