use email_address_validator::{
    AddrParseError,
    CommentSupport, DisplayNameSupport, Domain, DomainParseError, DomainSupport, DomainType,
    DomainValidationOptions, DomainValidationOptionsBuilder, EmailAddress, EmailParseError,
    EmailValidationOptions, LocalPartValidationOptions, QuotedSupport, TextEncoding,
    TrimWhitespace, ValidationOptionsBuilder,
};
use std::str::FromStr;

#[test]
fn trim_string_removes_whitespace_in_each_mode() {
    assert_eq!(TrimWhitespace::Both.trim_string("   Hello World!   "), "Hello World!");
    assert_eq!(TrimWhitespace::Start.trim_string("   Hello World!   "), "Hello World!   ");
    assert_eq!(TrimWhitespace::End.trim_string("   Hello World!   "), "   Hello World!");
    assert_eq!(TrimWhitespace::NoTrim.trim_string("   Hello World!   "), "   Hello World!   ");
    assert_eq!(TrimWhitespace::Both.trim_string("\u{3000}\t x \u{a0}\n"), "x");
    assert_eq!(TrimWhitespace::Both.trim_string(" \t "), "");
    assert_eq!(TrimWhitespace::Both.trim_string(""), "");
}

#[test]
fn trim_string_is_idempotent() {
    for mode in [
        TrimWhitespace::NoTrim,
        TrimWhitespace::Start,
        TrimWhitespace::End,
        TrimWhitespace::Both,
    ] {
        for text in ["  a b  ", "\u{2003}é\u{2003}", "", "x"] {
            let once = mode.trim_string(text);
            assert_eq!(mode.trim_string(once), once);
        }
    }
}

#[test]
fn option_names_are_spelled_out() {
    assert_eq!(TextEncoding::Ascii.to_string(), "Ascii");
    assert_eq!(TextEncoding::Utf8.to_string(), "Utf8");
    assert_eq!(CommentSupport::LeadingAndTrailing.to_string(), "LeadingAndTrailing");
    assert_eq!(DisplayNameSupport::Disallowed.to_string(), "Disallowed");
    assert_eq!(TrimWhitespace::NoTrim.to_string(), "None");
    assert_eq!(DomainType::IpAddress.to_string(), "IpAddress");
}

#[test]
fn defaults_match_new() {
    assert_eq!(EmailValidationOptions::default(), EmailValidationOptions::new());
    assert_eq!(DomainValidationOptions::default(), DomainValidationOptions::new());
    assert_eq!(LocalPartValidationOptions::default(), LocalPartValidationOptions::new());
    assert_eq!(ValidationOptionsBuilder::default().build(), EmailValidationOptions::new());
    assert_eq!(DomainValidationOptionsBuilder::default().build(), DomainValidationOptions::new());
    let options = DomainValidationOptions::new();
    assert_eq!(options.max_length, 255);
    assert_eq!(options.max_dns_length, 63);
    assert_eq!(options.domain_support, DomainSupport::IpAddressAndHostName);
    assert_eq!(LocalPartValidationOptions::new().max_length, 64);
    assert_eq!(TrimWhitespace::default(), TrimWhitespace::Both);
    assert_eq!(QuotedSupport::default(), QuotedSupport::Allowed);
}

#[test]
fn shared_builder_settings_reach_both_parts() {
    let options = ValidationOptionsBuilder::new()
        .with_comments(CommentSupport::Trailing)
        .with_text_encoding(TextEncoding::Ascii)
        .with_trim_whitespace(TrimWhitespace::Start)
        .build();
    assert_eq!(options.local_part_options.comments, CommentSupport::Trailing);
    assert_eq!(options.domain_options.comments, CommentSupport::Trailing);
    assert_eq!(options.local_part_options.text_encoding, TextEncoding::Ascii);
    assert_eq!(options.domain_options.text_encoding, TextEncoding::Ascii);
    assert_eq!(options.local_part_options.trim_whitespace, TrimWhitespace::Start);
    assert_eq!(options.domain_options.trim_whitespace, TrimWhitespace::Start);
    assert_eq!(options.display_name_support, DisplayNameSupport::Allowed);
}

#[test]
fn readme_example_parses() {
    let email = EmailAddress::try_parse(
        "Testing User <test.user@example.com>",
        &ValidationOptionsBuilder::new().build(),
    )
    .unwrap();
    assert_eq!(email.to_string(), "Testing User <test.user@example.com>");
    assert_eq!(email.local_part(), "test.user");
    assert_eq!(email.domain().to_string(), "example.com");

    let domain = Domain::try_parse(
        "[1234:5678:9abc:def0:1234:5678:9abc:def0]",
        &DomainValidationOptionsBuilder::new().build(),
    )
    .unwrap();
    assert_eq!(domain.address(), "1234:5678:9abc:def0:1234:5678:9abc:def0");
    assert_eq!(domain.domain_type(), &DomainType::IpAddress);
    assert_eq!(domain.to_string(), "[1234:5678:9abc:def0:1234:5678:9abc:def0]");
}

#[test]
fn is_valid_uses_default_options() {
    assert!(EmailAddress::is_valid("test.user@example.com"));
    assert!(!EmailAddress::is_valid("test.user"));
    assert!(!EmailAddress::is_valid("user@local"));
}

#[test]
fn try_create_keeps_the_given_parts() {
    let domain = Domain::from_str("example.com").unwrap();
    let email = EmailAddress::try_create(
        Some("Test User".to_owned()),
        "test",
        domain,
        &EmailValidationOptions::default(),
    )
    .unwrap();
    assert_eq!(email.display_name(), Some("Test User"));
    assert_eq!(email.local_part(), "test");
    assert_eq!(email.to_string(), "Test User <test@example.com>");

    let domain = Domain::from_str("example.com").unwrap();
    let raw = EmailAddress::try_create(None, "  spaced  ", domain, &EmailValidationOptions::new())
        .unwrap();
    assert_eq!(raw.local_part(), "  spaced  ");
    assert_eq!(raw.to_string(), "  spaced  @example.com");

    let domain = Domain::from_str("example.com").unwrap();
    assert_eq!(
        EmailAddress::try_create(None, "a..b", domain, &EmailValidationOptions::new()),
        Err(EmailParseError::InvalidCharacters {
            character_set: "..".to_owned()
        })
    );
}

#[test]
fn parsed_local_part_is_accepted_by_try_create() {
    let options = ValidationOptionsBuilder::new()
        .with_comments(CommentSupport::LeadingAndTrailing)
        .build();
    let email =
        EmailAddress::try_parse("  (hi)  first.last  (bye)@example.com", &options).unwrap();
    assert_eq!(email.local_part(), "first.last");
    let again = EmailAddress::try_create(
        None,
        email.local_part(),
        email.domain().clone(),
        &options,
    )
    .unwrap();
    assert_eq!(again, email);
}

#[test]
fn parsed_host_name_parses_again_to_itself() {
    let options = DomainValidationOptionsBuilder::new()
        .with_domain_support(DomainSupport::All)
        .build();
    for text in ["  sub.example.com ", "\u{a0}local\u{a0}", "exa❤️mple.com"] {
        let domain = Domain::try_parse(text, &options).unwrap();
        assert_eq!(Domain::try_parse(domain.address(), &options).unwrap(), domain);
    }
}

#[test]
fn lone_quote_local_part_is_refused() {
    let special = || {
        Err(EmailParseError::InvalidCharacters {
            character_set: r#""(),:;<>@[\] "#.to_owned(),
        })
    };
    let options = EmailValidationOptions::new();
    assert_eq!(EmailAddress::try_parse("\"@example.com", &options), special());
    assert_eq!(EmailAddress::try_parse(" \" @example.com", &options), special());
    assert!(!EmailAddress::is_valid("\"@example.com"));
    let domain = Domain::from_str("example.com").unwrap();
    assert_eq!(
        EmailAddress::try_create(None, " \" ", domain, &options).unwrap_err(),
        EmailParseError::InvalidCharacters {
            character_set: r#""(),:;<>@[\] "#.to_owned()
        }
    );
    let unquoted = ValidationOptionsBuilder::new()
        .with_allow_quoted_strings(QuotedSupport::Disallowed)
        .build();
    assert_eq!(EmailAddress::try_parse("\"@example.com", &unquoted), special());
    assert!(EmailAddress::try_parse("\"a\"@example.com", &options).is_ok());
}

#[test]
fn email_conversions_use_default_options() {
    let email = EmailAddress::from_str("Test <test@example.com>").unwrap();
    assert_eq!(email.display_name(), Some("Test"));
    assert_eq!(email.local_part(), "test");
    assert_eq!(EmailAddress::try_from("test@example.com").unwrap().to_string(), "test@example.com");
    assert_eq!(
        EmailAddress::try_from(String::from("test@[127.0.0.1]")).unwrap().domain().address(),
        "127.0.0.1"
    );
    assert_eq!(
        EmailAddress::try_from("test").unwrap_err(),
        EmailParseError::MissingDomain
    );
    assert_eq!(
        EmailAddress::from_str("\"@example.com").unwrap_err(),
        EmailParseError::InvalidCharacters {
            character_set: r#""(),:;<>@[\] "#.to_owned()
        }
    );
}

#[test]
fn ip_parse_error_explains_itself() {
    assert_eq!(AddrParseError.to_string(), "invalid IP address syntax");
    assert_eq!(
        Domain::try_parse("[300.1.1.1]", &DomainValidationOptions::new()).unwrap_err(),
        DomainParseError::IpParseError(AddrParseError)
    );
}

#[test]
fn lengths_are_counted_in_bytes() {
    let email = EmailAddress::try_parse(
        "ééé@example.com",
        &ValidationOptionsBuilder::new().with_max_local_part_length(5).build(),
    );
    assert_eq!(
        email.unwrap_err(),
        EmailParseError::LocalPartLengthExceeded {
            length: 6,
            max_length: 5
        }
    );
    let domain = Domain::try_parse(
        "éé.com",
        &DomainValidationOptionsBuilder::new().with_max_length(7).build(),
    );
    assert_eq!(
        domain.unwrap_err(),
        DomainParseError::DomainLengthExceeded {
            length: 8,
            max_length: 7
        }
    );
}

#[test]
fn dns_labels_are_counted_in_characters() {
    let options = |max| {
        DomainValidationOptionsBuilder::new()
            .with_max_dns_length(max)
            .build()
    };
    assert!(Domain::try_parse("éé.com", &options(3)).is_ok());
    assert!(Domain::try_parse("éé.co", &options(2)).is_ok());
    assert!(Domain::try_parse("éa.co", &options(2)).is_ok());
    assert_eq!(
        Domain::try_parse("éé.com", &options(2)).unwrap_err(),
        DomainParseError::DnsLabelTooLong { max_dns_length: 2 }
    );
    assert_eq!(
        Domain::try_parse("ééé.co", &options(2)).unwrap_err(),
        DomainParseError::DnsLabelTooLong { max_dns_length: 2 }
    );
    assert!(Domain::try_parse("abc.de", &options(3)).is_ok());
    assert_eq!(
        Domain::try_parse("abcd.de", &options(3)).unwrap_err(),
        DomainParseError::DnsLabelTooLong { max_dns_length: 3 }
    );
    assert_eq!(
        Domain::try_parse("ab.a_c", &options(2)).unwrap_err(),
        DomainParseError::InvalidCharacters {
            character_set: "_".to_owned()
        }
    );
}

#[test]
fn escapes_in_quoted_local_parts() {
    let options = EmailValidationOptions::new();
    let email = EmailAddress::try_parse("\"a\\\"\"@example.com", &options).unwrap();
    assert_eq!(email.local_part(), "\"a\\\"\"");
    let email = EmailAddress::try_parse("\"é\\\"\"@example.com", &options).unwrap();
    assert_eq!(email.local_part(), "\"é\\\"\"");
    let email = EmailAddress::try_parse("\"ü\\\\x\"@example.com", &options).unwrap();
    assert_eq!(email.local_part(), "\"ü\\\\x\"");
    assert_eq!(
        EmailAddress::try_parse("\"é\\x\"@example.com", &options).unwrap_err(),
        EmailParseError::InvalidEscapeSequence {
            sequence: "\\x".to_owned()
        }
    );
    assert_eq!(
        EmailAddress::try_parse("\"é\\\"@example.com", &options).unwrap_err(),
        EmailParseError::InvalidEscapeSequence {
            sequence: "\\".to_owned()
        }
    );
    assert_eq!(
        EmailAddress::try_parse("\"a.\"@example.com", &options).unwrap_err(),
        EmailParseError::InvalidCharacters {
            character_set: ".".to_owned()
        }
    );
}

#[test]
fn blank_local_part_is_missing() {
    let options = EmailValidationOptions::new();
    assert_eq!(
        EmailAddress::try_parse(" @a.b", &options).unwrap_err(),
        EmailParseError::MissingLocalPart
    );
    assert_eq!(
        EmailAddress::try_parse("@a.b", &options).unwrap_err(),
        EmailParseError::MissingLocalPart
    );
    let comments = ValidationOptionsBuilder::new()
        .with_comments(CommentSupport::Leading)
        .build();
    assert_eq!(
        EmailAddress::try_parse("(note)@a.b", &comments).unwrap_err(),
        EmailParseError::MissingLocalPart
    );
    let domain = Domain::from_str("example.com").unwrap();
    assert_eq!(
        EmailAddress::try_create(None, "  ", domain, &options).unwrap_err(),
        EmailParseError::MissingLocalPart
    );
}

#[test]
fn leading_comment_setting_removes_comments_at_both_ends() {
    let options = ValidationOptionsBuilder::new()
        .with_comments(CommentSupport::Leading)
        .build();
    let email = EmailAddress::try_parse("test(comment)@example.com", &options).unwrap();
    assert_eq!(email.local_part(), "test");
    let email = EmailAddress::try_parse("(a)test(b)@example.com", &options).unwrap();
    assert_eq!(email.local_part(), "test");
    let email = EmailAddress::try_parse("test@(a)example.com(b)", &options).unwrap();
    assert_eq!(email.domain().address(), "example.com");
    let trailing = ValidationOptionsBuilder::new()
        .with_comments(CommentSupport::Trailing)
        .build();
    assert!(EmailAddress::try_parse("(a)test@example.com", &trailing).is_err());
}

#[test]
fn display_names_are_trimmed_and_optional() {
    let options = EmailValidationOptions::new();
    let email = EmailAddress::try_parse("  Name\t <a@example.com>", &options).unwrap();
    assert_eq!(email.display_name(), Some("Name"));
    let email = EmailAddress::try_parse("<a@example.com>", &options).unwrap();
    assert_eq!(email.display_name(), Some(""));
    assert_eq!(email.to_string(), " <a@example.com>");
    let email = EmailAddress::try_parse("a@example.com", &options).unwrap();
    assert_eq!(email.display_name(), None);
    assert_eq!(email.to_string(), "a@example.com");
    assert_eq!(
        EmailAddress::try_parse("no-angle>", &options).unwrap_err(),
        EmailParseError::InvalidDisplayFormat
    );
}

#[test]
fn unmatched_comment_parenthesis_is_kept() {
    let mut options = DomainValidationOptionsBuilder::new().build();
    options.comments = CommentSupport::Trailing;
    let trailing = ValidationOptionsBuilder::new()
        .with_comments(CommentSupport::Trailing)
        .build();
    assert_eq!(
        Domain::try_parse("example.com)", &options).unwrap_err(),
        DomainParseError::InvalidCharacters {
            character_set: ")".to_owned()
        }
    );
    assert_eq!(
        EmailAddress::try_parse("a@example.com)", &trailing).unwrap_err(),
        EmailParseError::MissingDomain
    );
}

#[test]
fn ip_literal_with_ipv6_tag_and_email_to_string() {
    let options = ValidationOptionsBuilder::new()
        .with_domain_support(DomainSupport::All)
        .build();
    let email = EmailAddress::try_parse("x@[IPv6:::1]", &options).unwrap();
    assert_eq!(email.domain().address(), "::1");
    assert_eq!(email.to_string(), "x@[::1]");
    assert_eq!(
        EmailAddress::try_parse("x@[IPv6:]", &options).unwrap_err(),
        EmailParseError::DomainParseError(DomainParseError::IpParseError(AddrParseError))
    );
}

#[test]
fn written_address_parses_back_to_itself() {
    let options = ValidationOptionsBuilder::new()
        .with_domain_support(DomainSupport::All)
        .with_comments(CommentSupport::LeadingAndTrailing)
        .build();
    for text in [
        "  Jane  Doe <jane.doe@example.com>",
        "<x@local>",
        "(c)\"quoted @ part\"(d)@[IPv6:2001:db8::1]",
        "postmaster@[127.0.0.1]",
        "I❤️CHOCOLATE@exa❤️mple.com",
    ] {
        let email = EmailAddress::try_parse(text, &options).unwrap();
        let written = email.to_string();
        assert_eq!(EmailAddress::try_parse(&written, &options).unwrap(), email, "{written}");
    }
}

#[test]
fn quoted_local_part_holds_special_characters() {
    let options = EmailValidationOptions::new();
    let email = EmailAddress::try_parse("\"a b(c),d:e;f<g>h@i[j]\"@example.com", &options).unwrap();
    assert_eq!(email.local_part(), "\"a b(c),d:e;f<g>h@i[j]\"");
    let email = EmailAddress::try_parse("\"\"@example.com", &options).unwrap();
    assert_eq!(email.local_part(), "\"\"");
    assert_eq!(
        EmailAddress::try_parse("\"a\"b\"@example.com", &options).unwrap_err(),
        EmailParseError::InvalidEscapeSequence {
            sequence: "\"".to_owned()
        }
    );
    let unquoted = ValidationOptionsBuilder::new()
        .with_allow_quoted_strings(QuotedSupport::Disallowed)
        .build();
    assert!(EmailAddress::try_parse("\"a b\"@example.com", &unquoted).is_err());
}

#[test]
fn local_part_length_is_checked_before_characters() {
    let options = EmailValidationOptions::new();
    let long = format!("{}@example.com", "(".repeat(65));
    assert_eq!(
        EmailAddress::try_parse(&long, &options).unwrap_err(),
        EmailParseError::LocalPartLengthExceeded {
            length: 65,
            max_length: 64
        }
    );
    let wide = format!("{}@example.com", "é".repeat(33));
    assert_eq!(
        EmailAddress::try_parse(&wide, &options).unwrap_err(),
        EmailParseError::LocalPartLengthExceeded {
            length: 66,
            max_length: 64
        }
    );
    let fits = format!("{}@example.com", "é".repeat(32));
    assert!(EmailAddress::try_parse(&fits, &options).is_ok());
}

#[test]
fn address_literal_refused_when_unsupported() {
    for support in [DomainSupport::HostNameOnly, DomainSupport::LocalAndHostName] {
        let options = DomainValidationOptionsBuilder::new()
            .with_domain_support(support)
            .build();
        for text in ["[127.0.0.1]", "[IPv6:::1]", "[not an address]"] {
            assert_eq!(
                Domain::try_parse(text, &options).unwrap_err(),
                DomainParseError::UnsupportedDomainType
            );
        }
    }
}

#[test]
fn domain_try_from_uses_default_options() {
    let domain = Domain::try_from("example.com").unwrap();
    assert_eq!(domain.address(), "example.com");
    assert_eq!(domain.domain_type(), &DomainType::HostName);
    let domain = Domain::try_from(String::from("[IPv6:::1]")).unwrap();
    assert_eq!(domain.address(), "::1");
    assert_eq!(domain.domain_type(), &DomainType::IpAddress);
    assert_eq!(
        Domain::try_from("localhost").unwrap_err(),
        DomainParseError::UnsupportedDomainType
    );
    assert_eq!(
        Domain::try_from(String::from("exa mple.com")).unwrap_err(),
        DomainParseError::InvalidCharacters {
            character_set: " ".to_owned()
        }
    );
}
