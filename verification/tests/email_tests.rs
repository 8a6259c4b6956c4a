use email_address_validator::{
    CommentSupport, DisplayNameSupport, DomainParseError, DomainSupport, DomainType, EmailAddress,
    EmailParseError, EmailValidationOptions, QuotedSupport, TextEncoding, TrimWhitespace,
    ValidationOptionsBuilder,
};

const SPECIAL_CHARS: &str = r#""(),:;<>@[\] "#;

const VALID_CHARS: &str = "!#$%&'*+-/=?^_`{|}~";

fn assert_domain(email: &EmailAddress, domain_type: DomainType, address: &str) {
    assert_eq!(email.domain().domain_type(), &domain_type);
    assert_eq!(email.domain().address(), address);
}

#[test]
fn empty_email_address_fails() {
    let email = EmailAddress::try_parse(
        "",
        &EmailValidationOptions::default(),
    );
    assert!(email.is_err());
    assert_eq!(email.unwrap_err(), EmailParseError::MissingDomain);
}

#[test]
fn valid_email_address_succeeds() {
    let email = EmailAddress::try_parse(
        "test@example.com",
        &EmailValidationOptions::default(),
    );
    assert!(email.is_ok());
    let email = email.unwrap();
    assert_eq!(email.display_name(), None);
    assert_eq!(email.local_part(), "test");
    assert_domain(&email, DomainType::HostName, "example.com");
}

#[test]
fn missing_domain_fails() {
    let email = EmailAddress::try_parse(
        "test",
        &EmailValidationOptions::default(),
    );
    assert!(email.is_err());
    assert_eq!(email.unwrap_err(), EmailParseError::MissingDomain);
}

#[test]
fn missing_local_part_fails() {
    let email = EmailAddress::try_parse(
        "@example.com",
        &EmailValidationOptions::default(),
    );
    assert!(email.is_err());
    assert_eq!(email.unwrap_err(), EmailParseError::MissingLocalPart);
}

#[test]
fn invalid_characters_in_local_part_fails() {
    for c in SPECIAL_CHARS.chars() {
        let email = EmailAddress::try_parse(
            &format!("te{c}st@example.com"),
            &EmailValidationOptions::default(),
        );

        assert!(email.is_err());
        assert_eq!(
            email.unwrap_err(),
            EmailParseError::InvalidCharacters {
                character_set: SPECIAL_CHARS.to_owned()
            }
        );
    }
}

#[test]
fn display_name_is_parsed_correctly() {
    let email = EmailAddress::try_parse(
        "Test User <test@example.com>",
        &ValidationOptionsBuilder::new()
            .with_display_name_support(DisplayNameSupport::Allowed)
            .build(),
    );
    assert!(email.is_ok());
    let email = email.unwrap();
    assert_eq!(email.display_name(), Some("Test User"));
    assert_eq!(email.local_part(), "test");
    assert_domain(&email, DomainType::HostName, "example.com");
}

#[test]
fn display_name_trims_whitespace_correctly() {
    let email = EmailAddress::try_parse(
        "     Test User     <test@example.com>",
        &ValidationOptionsBuilder::new()
            .with_display_name_support(DisplayNameSupport::Allowed)
            .build(),
    );

    assert!(email.is_ok());
    let email = email.unwrap();
    assert_eq!(email.display_name(), Some("Test User"));
}

#[test]
fn email_address_local_part_front_can_be_trimmed() {
    let email = EmailAddress::try_parse(
        "    spaced_front@example.com",
        &ValidationOptionsBuilder::new()
            .with_trim_whitespace(TrimWhitespace::Start)
            .build(),
    );
    assert!(email.is_ok());
    let email = email.unwrap();
    assert_eq!(email.local_part(), "spaced_front");
    assert_domain(&email, DomainType::HostName, "example.com");
}

#[test]
fn email_address_local_part_back_can_be_trimmed() {
    let email = EmailAddress::try_parse(
        "spaced_back     @example.com",
        &ValidationOptionsBuilder::new()
            .with_trim_whitespace(TrimWhitespace::End)
            .build(),
    );
    assert!(email.is_ok());
    let email = email.unwrap();
    assert_eq!(email.local_part(), "spaced_back");
    assert_domain(&email, DomainType::HostName, "example.com");
}

#[test]
fn invalid_display_name_fails() {
    let email = EmailAddress::try_parse(
        "Test User >test@example.com>",
        &ValidationOptionsBuilder::new()
            .with_display_name_support(DisplayNameSupport::Allowed)
            .build(),
    );
    assert!(email.is_err());
    assert_eq!(email.unwrap_err(), EmailParseError::InvalidDisplayFormat);
}

#[test]
fn display_name_when_not_supported_fails() {
    let email = EmailAddress::try_parse(
        "Test User <test@example.com>",
        &ValidationOptionsBuilder::new()
            .with_display_name_support(DisplayNameSupport::Disallowed)
            .build(),
    );
    assert!(email.is_err());
    assert_eq!(email.unwrap_err(), EmailParseError::InvalidCharacters {
            character_set: SPECIAL_CHARS.to_owned()
        });
}

#[test]
fn local_part_exceeds_max_length_fails() {
    let email = EmailAddress::try_parse(
        "very_long_local_path@example.com",
        &ValidationOptionsBuilder::new()
            .with_max_local_part_length(10)
            .build(),
    );
    assert!(email.is_err());
    assert_eq!(email.unwrap_err(), EmailParseError::LocalPartLengthExceeded {
            length: 20,
            max_length: 10
        });
}

#[test]
fn local_part_at_max_length_is_valid() {
    let email = EmailAddress::try_parse(
        "very_long_local_path@example.com",
        &ValidationOptionsBuilder::new()
            .with_max_local_part_length(20)
            .build(),
    );
    assert!(email.is_ok());
    let email = email.unwrap();
    assert_eq!(email.local_part(), "very_long_local_path");
    assert_domain(&email, DomainType::HostName, "example.com");
}

#[test]
fn domain_name_exceeds_max_length_fails() {
    let email = EmailAddress::try_parse(
        "test@very_long_domain_name.com",
        &ValidationOptionsBuilder::new()
            .with_max_domain_length(10)
            .build(),
    );
    assert!(email.is_err());
    assert_eq!(email.unwrap_err(), EmailParseError::DomainParseError(DomainParseError::DomainLengthExceeded {
            length: 25,
            max_length: 10
        }));
}

#[test]
fn domain_name_at_max_length_is_valid() {
    let email = EmailAddress::try_parse(
        "test@very-long-domain-name.com",
        &ValidationOptionsBuilder::new()
            .with_max_domain_length(25)
            .build(),
    );
    assert!(email.is_ok());
    let email = email.unwrap();
    assert_eq!(email.local_part(), "test");
    assert_domain(&email, DomainType::HostName, "very-long-domain-name.com");
}

#[test]
fn dots_are_allowed_in_local_part() {
    let email = EmailAddress::try_parse(
        "test.user@example.com",
        &EmailValidationOptions::default(),
    );
    assert!(email.is_ok());
    let email = email.unwrap();
    assert_eq!(email.local_part(), "test.user");
    assert_domain(&email, DomainType::HostName, "example.com");
}

#[test]
fn double_dots_are_invalid() {
    let email = EmailAddress::try_parse(
        "test..user@example.com",
        &EmailValidationOptions::default(),
    );
    assert!(email.is_err());
    assert_eq!(email.unwrap_err(), EmailParseError::InvalidCharacters {
            character_set: "..".to_owned(),
        });
}

#[test]
fn dot_at_start_is_invalid() {
    let email = EmailAddress::try_parse(
        ".test@example.com",
        &EmailValidationOptions::default(),
    );
    assert!(email.is_err());
    assert_eq!(email.unwrap_err(), EmailParseError::InvalidCharacters {
            character_set: ".".to_owned(),
        });
}

#[test]
fn dot_at_end_of_local_part_is_invalid() {
    let email = EmailAddress::try_parse(
        "test.user.@example.com",
        &EmailValidationOptions::default(),
    );
    assert!(email.is_err());
    assert_eq!(email.unwrap_err(), EmailParseError::InvalidCharacters {
            character_set: ".".to_owned(),
        });
}

#[test]
fn utf8_encoding_is_supported() {
    let email = EmailAddress::try_parse(
        "テスト.ユーザー@example.com",
        &EmailValidationOptions::default(),
    );
    assert!(email.is_ok());
    let email = email.unwrap();
    assert_eq!(email.local_part(), "テスト.ユーザー");
    assert_domain(&email, DomainType::HostName, "example.com");
}

#[test]
fn utf8_encoding_not_accepted_when_options_ascii() {
    let email = EmailAddress::try_parse(
        "テスト.ユーザー@example.com",
        &ValidationOptionsBuilder::default()
            .with_text_encoding(TextEncoding::Ascii)
            .build(),
    );
    assert!(email.is_err());
    assert_eq!(email.unwrap_err(), EmailParseError::InvalidCharacters {
            character_set: "テ".to_owned(),
        });
}

#[test]
fn utf8_display_name_is_accepted() {
    let email = EmailAddress::try_parse(
        "テスト.ユーザー <test.user@example.com>",
        &EmailValidationOptions::default(),
    );
    assert!(email.is_ok());
    let email = email.unwrap();
    assert_eq!(email.display_name(), Some("テスト.ユーザー"));
    assert_eq!(email.local_part(), "test.user");
    assert_domain(&email, DomainType::HostName, "example.com");
}

#[test]
fn emojis_can_be_used_in_local_part() {
    let email = EmailAddress::try_parse(
        "I❤️CHOCOLATE@example.com",
        &EmailValidationOptions::default(),
    );
    assert!(email.is_ok());
    let email = email.unwrap();
    assert_eq!(email.local_part(), "I❤️CHOCOLATE");
    assert_domain(&email, DomainType::HostName, "example.com");
}

#[test]
fn ipv4_address_is_valid() {
    let email = EmailAddress::try_parse(
        "postmaster@[123.123.123.123]",
        &ValidationOptionsBuilder::default()
            .with_domain_support(DomainSupport::All)
            .build(),
    );
    assert!(email.is_ok());
    let email = email.unwrap();
    assert_eq!(email.local_part(), "postmaster");
    assert_domain(&email, DomainType::IpAddress, "123.123.123.123");
}

#[test]
fn ipv6_address_is_valid() {
    let email = EmailAddress::try_parse(
        "postmaster@[IPv6:2001:0db8:85a3:0000:0000:8a2e:0370:7334]",
        &ValidationOptionsBuilder::default()
            .with_domain_support(DomainSupport::All)
            .build(),
    );
    assert!(email.is_ok());
    let email = email.unwrap();
    assert_eq!(email.local_part(), "postmaster");
    assert_domain(&email, DomainType::IpAddress, "2001:0db8:85a3:0000:0000:8a2e:0370:7334");
}

#[test]
fn hostname_only_with_ipaddress_will_fail() {
    let email = EmailAddress::try_parse(
        "postmaster@[123.123.123.123]",
        &ValidationOptionsBuilder::default()
            .with_domain_support(DomainSupport::HostNameOnly)
            .build(),
    );
    assert!(email.is_err());
    assert_eq!(email.unwrap_err(), EmailParseError::DomainParseError(DomainParseError::UnsupportedDomainType));
}

#[test]
fn hostname_or_local_domain_with_ipaddress_will_fail() {
    let email = EmailAddress::try_parse(
        "postmaster@[123.123.123.123]",
        &ValidationOptionsBuilder::default()
            .with_domain_support(DomainSupport::LocalAndHostName)
            .build(),
    );
    assert!(email.is_err());
    assert_eq!(email.unwrap_err(), EmailParseError::DomainParseError(DomainParseError::UnsupportedDomainType));
}

#[test]
fn domain_label_length_exceeds_max_length_fails() {
    let email = EmailAddress::try_parse(
        "test.user@longer-than.accepted.domain.com",
        &ValidationOptionsBuilder::default()
            .with_max_dns_length(10)
            .build(),
    );
    assert!(email.is_err());
    assert_eq!(email.unwrap_err(), EmailParseError::DomainParseError(DomainParseError::DnsLabelTooLong {
            max_dns_length: 10
        }));
}

#[test]
fn domain_label_length_exceeds_max_length_in_the_middle_fails() {
    let email = EmailAddress::try_parse(
        "test.user@test.longer-than.accepted.domain.com",
        &ValidationOptionsBuilder::default()
            .with_max_dns_length(10)
            .build(),
    );
    assert!(email.is_err());
    assert_eq!(email.unwrap_err(), EmailParseError::DomainParseError(DomainParseError::DnsLabelTooLong {
            max_dns_length: 10
        }));
}

#[test]
fn non_ascii_characters_in_domain_label_is_valid() {
    let email = EmailAddress::try_parse(
        "I❤️CHOCOLATE@exa❤️mple.com",
        &ValidationOptionsBuilder::default()
            .with_text_encoding(TextEncoding::Utf8)
            .build(),
    );
    assert!(email.is_ok());
    let email = email.unwrap();
    assert_eq!(email.local_part(), "I❤️CHOCOLATE");
    assert_domain(&email, DomainType::HostName, "exa❤️mple.com");
}

#[test]
fn local_domain_when_supported_is_valid() {
    let supported_types = [DomainSupport::All, DomainSupport::LocalAndHostName];
    for support in supported_types {
        let email = EmailAddress::try_parse(
            "postmaster@example",
            &ValidationOptionsBuilder::default()
                .with_domain_support(support)
                .build(),
        );

        assert!(email.is_ok());
        let email = email.unwrap();
        assert_eq!(email.local_part(), "postmaster");
        assert_domain(&email, DomainType::LocalDomain, "example");
    }
}

#[test]
fn local_domain_when_not_supported_is_invalid() {
    let unsupported_types = [
        DomainSupport::HostNameOnly,
        DomainSupport::IpAddressAndHostName,
    ];

    for support in unsupported_types {
        let email = EmailAddress::try_parse(
            "postmaster@example",
            &ValidationOptionsBuilder::default()
                .with_domain_support(support)
                .build(),
        );

        assert!(email.is_err());
        assert_eq!(
            email.unwrap_err(),
            EmailParseError::DomainParseError(DomainParseError::UnsupportedDomainType)
        );
    }
}

#[test]
fn local_part_can_be_quoted_when_supported() {
    let email = EmailAddress::try_parse(
        "\"post master\"@example.com",
        &ValidationOptionsBuilder::default()
            .with_allow_quoted_strings(QuotedSupport::Allowed)
            .build(),
    );
    assert!(email.is_ok());
    let email = email.unwrap();
    assert_eq!(email.local_part(), "\"post master\"");
    assert_domain(&email, DomainType::HostName, "example.com");
}

#[test]
fn local_part_can_escape_quoted_when_supported() {
    let email = EmailAddress::try_parse(
        "\"post\\\" master\"@example.com",
        &ValidationOptionsBuilder::default()
            .with_allow_quoted_strings(QuotedSupport::Allowed)
            .build(),
    );
    assert!(email.is_ok());
    let email = email.unwrap();
    assert_eq!(email.local_part(), "\"post\\\" master\"");
    assert_domain(&email, DomainType::HostName, "example.com");
}

#[test]
fn local_part_cannot_escape_anything_but_quotes_when_supported() {
    let email = EmailAddress::try_parse(
        "\"post\\ master\"@example.com",
        &ValidationOptionsBuilder::default()
            .with_allow_quoted_strings(QuotedSupport::Allowed)
            .build(),
    );
    assert!(email.is_err());
    assert_eq!(email.unwrap_err(), EmailParseError::InvalidEscapeSequence {
            sequence: "\\ ".to_owned()
        });
}

#[test]
fn local_part_quotes_must_be_escaped_when_supported() {
    let email = EmailAddress::try_parse(
        "\"post\" master\"@example.com",
        &ValidationOptionsBuilder::default()
            .with_allow_quoted_strings(QuotedSupport::Allowed)
            .build(),
    );
    assert!(email.is_err());
    assert_eq!(email.unwrap_err(), EmailParseError::InvalidEscapeSequence {
            sequence: "\"".to_owned()
        });
}

#[test]
fn local_part_quotes_can_not_end_escaped_when_supported() {
    let email = EmailAddress::try_parse(
        "\"post master\\\"@example.com",
        &ValidationOptionsBuilder::default()
            .with_allow_quoted_strings(QuotedSupport::Allowed)
            .build(),
    );
    assert!(email.is_err());
    assert_eq!(email.unwrap_err(), EmailParseError::InvalidEscapeSequence {
            sequence: "\\".to_owned()
        });
}

#[test]
fn local_part_cannot_be_quoted_when_not_supported() {
    let email = EmailAddress::try_parse(
        "\"post master\"@example.com",
        &ValidationOptionsBuilder::default()
            .with_allow_quoted_strings(QuotedSupport::Disallowed)
            .build(),
    );
    assert!(email.is_err());
    assert_eq!(email.unwrap_err(), EmailParseError::InvalidCharacters {
            character_set: SPECIAL_CHARS.to_owned()
        });
}

#[test]
fn domain_cannot_be_quoted() {
    let email = EmailAddress::try_parse(
        "postmaster@\"example.com\"",
        &ValidationOptionsBuilder::default()
            .with_allow_quoted_strings(QuotedSupport::Allowed)
            .build(),
    );
    assert!(email.is_err());
    assert_eq!(email.unwrap_err(), EmailParseError::MissingDomain);
}

#[test]
fn double_dot_is_supported_when_quoted() {
    let email = EmailAddress::try_parse(
        "\"john..doe\"@example.org",
        &ValidationOptionsBuilder::default()
            .with_allow_quoted_strings(QuotedSupport::Allowed)
            .build(),
    );
    assert!(email.is_ok());
    let email = email.unwrap();
    assert_eq!(email.local_part(), "\"john..doe\"");
    assert_domain(&email, DomainType::HostName, "example.org");
}

#[test]
fn printable_characters_are_supported() {
    for c in VALID_CHARS.chars() {
        let email = EmailAddress::try_parse(
            &format!("test{c}user@example.com"),
            &EmailValidationOptions::default(),
        );
        assert!(email.is_ok());
        let email = email.unwrap();
        assert_eq!(email.local_part(), format!("test{c}user"));
        assert_domain(&email, DomainType::HostName, "example.com");
    }
}

#[test]
fn just_spaces_is_valid_when_quoted() {
    let email = EmailAddress::try_parse(
        "\" \"@example.com",
        &ValidationOptionsBuilder::default()
            .with_allow_quoted_strings(QuotedSupport::Allowed)
            .build(),
    );
    assert!(email.is_ok());
    let email = email.unwrap();
    assert_eq!(email.local_part(), "\" \"");
    assert_domain(&email, DomainType::HostName, "example.com");
}

#[test]
fn unusual_characters_are_valid_when_quoted() {
    let email = EmailAddress::try_parse(
        r#""very.(),:;<>[]\".VERY.\"very@\\ \"very\".unusual"@strange.example.com"#,
        &ValidationOptionsBuilder::default()
            .with_allow_quoted_strings(QuotedSupport::Allowed)
            .build(),
    );
    assert!(email.is_ok());
    let email = email.unwrap();
    assert_eq!(email.local_part(), r#""very.(),:;<>[]\".VERY.\"very@\\ \"very\".unusual""#);
    assert_domain(&email, DomainType::HostName, "strange.example.com");
}

#[test]
fn trailing_comments_are_ignored_in_domain_part() {
    let email = EmailAddress::try_parse(
        "test@example.com(comments ❤️ is@doesn't matter)",
        &ValidationOptionsBuilder::default()
            .with_comments(CommentSupport::Trailing)
            .build(),
    );
    assert!(email.is_ok());
    let email = email.unwrap();
    assert_eq!(email.local_part(), "test");
    assert_domain(&email, DomainType::HostName, "example.com");
}

#[test]
fn leading_comments_are_ignored_in_domain_part() {
    let email = EmailAddress::try_parse(
        "test@(comments ❤️ is@doesn't matter)example.com",
        &ValidationOptionsBuilder::default()
            .with_comments(CommentSupport::Leading)
            .build(),
    );
    assert!(email.is_ok());
    let email = email.unwrap();
    assert_eq!(email.local_part(), "test");
    assert_domain(&email, DomainType::HostName, "example.com");
}

#[test]
fn leading_and_trailing_comments_are_ignored_in_domain_part() {
    let email = EmailAddress::try_parse(
        "test@(comments ❤️ is@doesn't matter)example.com(comments ❤️ is@doesn't matter)",
        &ValidationOptionsBuilder::default()
            .with_comments(CommentSupport::LeadingAndTrailing)
            .build(),
    );
    assert!(email.is_ok());
    let email = email.unwrap();
    assert_eq!(email.local_part(), "test");
    assert_domain(&email, DomainType::HostName, "example.com");
}

#[test]
fn trailing_comments_are_ignored_in_local_part() {
    let email = EmailAddress::try_parse(
        "test(comments ❤️ is@doesn't matter)@example.com",
        &ValidationOptionsBuilder::default()
            .with_comments(CommentSupport::Trailing)
            .build(),
    );
    assert!(email.is_ok());
    let email = email.unwrap();
    assert_eq!(email.local_part(), "test");
    assert_domain(&email, DomainType::HostName, "example.com");
}

#[test]
fn leading_comments_are_ignored_in_local_part() {
    let email = EmailAddress::try_parse(
        "(comments ❤️ is@doesn't matter)test@example.com",
        &ValidationOptionsBuilder::default()
            .with_comments(CommentSupport::Leading)
            .build(),
    );
    assert!(email.is_ok());
    let email = email.unwrap();
    assert_eq!(email.local_part(), "test");
    assert_domain(&email, DomainType::HostName, "example.com");
}

#[test]
fn leading_and_trailing_comments_are_ignored_in_local_part() {
    let email = EmailAddress::try_parse(
        "(comments ❤️ is@doesn't matter)test(comments ❤️ is@doesn't matter)@example.com",
        &ValidationOptionsBuilder::default()
            .with_comments(CommentSupport::LeadingAndTrailing)
            .build(),
    );
    assert!(email.is_ok());
    let email = email.unwrap();
    assert_eq!(email.local_part(), "test");
    assert_domain(&email, DomainType::HostName, "example.com");
}
