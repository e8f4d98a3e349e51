use mail_lib::email_address::EmailAddress;
use mail_lib::validation::{
    validate_domain, validate_local_part, EmailErrorMessage, EmailPart, InvalidEmailAddress,
};

#[test]
fn lib_test() {}

#[test]
fn test_local() {}

fn check(raw: &str, local: &str, domain: &str) {
    let email_address = EmailAddress::new(raw.to_string());
    if let Err(e) = email_address {
        if let EmailErrorMessage::InvalidCharacter(c, pos) = e.error_message {
            println!("{}", raw);
            println!("{}^", " ".repeat(pos));
            panic!("Invalid character `{}` at position {}", c, pos)
        }
        panic!("{:?}: {:?}", raw, e);
    }
    let email_address = email_address.unwrap();
    assert_eq!(email_address.get_local(), local);
    assert_eq!(email_address.get_domain(), domain);
}

#[test]
fn mod_test_email_address() {
    let email_address = EmailAddress::new("email@example.com".to_string()).unwrap();
    assert_eq!(email_address.get_local(), "email");
    assert_eq!(email_address.get_domain(), "example.com");
}

#[test]
#[should_panic]
fn mod_test_email_address_panic() {
    let _ = EmailAddress::new("invalid{at}email.com".to_string()).unwrap();
}

#[test]
fn test_email_unchecked() {
    let email_address =
        EmailAddress::new_only_check_for_at("email@example.com".to_string()).unwrap();
    assert_eq!(email_address.get_local(), "email");
    assert_eq!(email_address.get_domain(), "example.com");
}

#[test]
fn mod_test_weird_cases() {
    check(
        "disposable.style.email.with+symbol@example.com",
        "disposable.style.email.with+symbol",
        "example.com",
    );
    check(
        "other.email-with-dash@example.com",
        "other.email-with-dash",
        "example.com",
    );
    check("x@example.com", "x", "example.com");
    check(
        r#""much.more unusual"@example.com"#,
        r#""much.more unusual""#,
        "example.com",
    );
    check(
        r#""very.(),:;<>[]\".VERY.\"very@ \"very\".unusual"@strange.example.com"#,
        r#""very.(),:;<>[]\".VERY.\"very@ \"very\".unusual""#,
        "strange.example.com",
    );
}

#[test]
fn round_trip_accepted_address() {
    let raw = "disposable.style.email.with+symbol@example.com";
    let a = EmailAddress::new(raw.to_string()).unwrap();
    let mut rebuilt = String::new();
    rebuilt.push_str(a.get_local());
    rebuilt.push('@');
    rebuilt.push_str(a.get_domain());
    assert_eq!(rebuilt, raw);
    assert_eq!(a.as_str(), raw);
    assert!(validate_local_part(a.get_local()).is_ok());
    assert!(validate_domain(a.get_domain()).is_ok());
}

#[test]
fn parse_is_idempotent() {
    let a1 = EmailAddress::new("email@example.com".to_string()).unwrap();
    let a2 = EmailAddress::new("email@example.com".to_string()).unwrap();
    assert_eq!(a1, a2);
    assert_eq!(a1.as_str(), a2.as_str());
    assert_eq!(a1.get_local(), a2.get_local());
}

#[test]
fn missing_at_is_rejected() {
    let v = EmailAddress::new("invalid{at}email.com".to_string());
    assert_eq!(
        v,
        Err(InvalidEmailAddress {
            error_part: None,
            error_message: EmailErrorMessage::MissingAt,
        })
    );
}

#[test]
fn splits_at_last_unquoted_at() {
    // The quoted local part itself contains an `@`; construction splits at
    // the last one.
    let a = EmailAddress::new(r#""user@host"@example.com"#.to_string()).unwrap();
    assert_eq!(a.get_local(), r#""user@host""#);
    assert_eq!(a.get_domain(), "example.com");
}

#[test]
fn local_part_length_boundaries() {
    let local_64 = "a".repeat(64);
    assert!(validate_local_part(&local_64).is_ok());
    let addr_64 = format!("{}@example.com", local_64);
    assert!(EmailAddress::new(addr_64).is_ok());

    let local_65 = "a".repeat(65);
    assert_eq!(
        validate_local_part(&local_65),
        Err(InvalidEmailAddress {
            error_part: Some(EmailPart::Local),
            error_message: EmailErrorMessage::InvalidLengthOfUser,
        })
    );
    let addr_65 = format!("{}@example.com", local_65);
    assert_eq!(
        EmailAddress::new(addr_65).unwrap_err().error_message,
        EmailErrorMessage::InvalidLengthOfUser
    );
}

#[test]
fn domain_length_boundaries() {
    // 255 bytes: three 63-byte labels and one 63-byte label, dotted.
    let label = "d".repeat(63);
    let domain_255 = format!("{}.{}.{}.{}", label, label, label, label);
    assert_eq!(domain_255.len(), 255);
    assert!(validate_domain(&domain_255).is_ok());

    let domain_256 = format!("{}x", domain_255);
    assert_eq!(
        validate_domain(&domain_256),
        Err(InvalidEmailAddress {
            error_part: Some(EmailPart::Domain),
            error_message: EmailErrorMessage::InvalidLengthOfDomain,
        })
    );
}

#[test]
fn sub_domain_length_boundaries() {
    let label_63 = "s".repeat(63);
    assert!(validate_domain(&format!("{}.com", label_63)).is_ok());
    let label_64 = "s".repeat(64);
    assert_eq!(
        validate_domain(&format!("{}.com", label_64)),
        Err(InvalidEmailAddress {
            error_part: Some(EmailPart::Domain),
            error_message: EmailErrorMessage::InvalidLengthOfSubDomain,
        })
    );
}

#[test]
fn invalid_character_reports_position() {
    let e = EmailAddress::new("bad..dot@example.com".to_string()).unwrap_err();
    assert_eq!(e.error_part, Some(EmailPart::Local));
    assert_eq!(e.error_message, EmailErrorMessage::InvalidCharacter('.', 3));

    let e = validate_domain("exa mple.com").unwrap_err();
    assert_eq!(e.error_part, Some(EmailPart::Domain));
    assert_eq!(e.error_message, EmailErrorMessage::InvalidCharacter(' ', 3));
}

#[test]
fn literal_domain_validation() {
    assert!(validate_domain("[127.0.0.1]").is_ok());
    assert_eq!(
        validate_domain("[127.0.0.1 ]"),
        Err(InvalidEmailAddress {
            error_part: Some(EmailPart::Domain),
            error_message: EmailErrorMessage::InvalidLiteralDomain,
        })
    );
}

#[test]
fn quoted_local_edge_cases() {
    // An empty quoted local part is a length error, not a character error.
    assert_eq!(
        validate_local_part("\"\""),
        Err(InvalidEmailAddress {
            error_part: Some(EmailPart::Local),
            error_message: EmailErrorMessage::InvalidLengthOfUser,
        })
    );
    // A quoted pair must escape a visible character.
    let e = validate_local_part("\"a\\\tb\"").unwrap_err();
    assert_eq!(e.error_message, EmailErrorMessage::InvalidCharacter('\\', 1));
    // An unquoted quote character is not atext.
    let e = validate_local_part("\"").unwrap_err();
    assert_eq!(e.error_message, EmailErrorMessage::InvalidCharacter('"', 0));
}

#[test]
fn unchecked_constructors_record_offset() {
    let a = EmailAddress::new_unchecked_from_parts("user", "example.com");
    assert_eq!(a.as_str(), "user@example.com");
    assert_eq!(a.get_local(), "user");
    assert_eq!(a.get_domain(), "example.com");

    let b = EmailAddress::new_unchecked_raw("user@example.com".to_string(), 4);
    assert_eq!(b.get_local(), "user");
    assert_eq!(b.get_domain(), "example.com");

    let (local, rest) = b.as_parts();
    assert_eq!(local, "user");
    assert_eq!(rest, "@example.com");
    let (local_owned, rest_owned) = b.parts_owned();
    assert_eq!(local_owned, "user");
    assert_eq!(rest_owned, "@example.com");
}
