use email_address_validator::{
    Domain, DomainParseError, DomainSupport, DomainType, DomainValidationOptionsBuilder,
    TextEncoding, TrimWhitespace,
};

#[test]
fn test_host_name_domain_type() {
    let domain = Domain::try_parse(
        "example.com",
        &DomainValidationOptionsBuilder::new()
            .with_domain_support(DomainSupport::All)
            .build(),
    )
    .unwrap();
    assert_eq!(domain.domain_type(), &DomainType::HostName);
    assert_eq!(domain.address(), "example.com");
}

#[test]
fn test_local_domain_domain_type() {
    let domain = Domain::try_parse(
        "local",
        &DomainValidationOptionsBuilder::new()
            .with_domain_support(DomainSupport::All)
            .build(),
    )
    .unwrap();
    assert_eq!(domain.domain_type(), &DomainType::LocalDomain);
    assert_eq!(domain.address(), "local");
}

#[test]
fn test_ipv6_without_ipv6_prefix_domain_type() {
    let domain = Domain::try_parse(
        "[::1]",
        &DomainValidationOptionsBuilder::new()
            .with_domain_support(DomainSupport::All)
            .build(),
    )
    .unwrap();
    assert_eq!(domain.domain_type(), &DomainType::IpAddress);
    assert_eq!(domain.address(), "::1");
}

#[test]
fn test_ip_address_domain_type_with_ipv6_prefix() {
    let domain = Domain::try_parse(
        "[IPv6:::1]",
        &DomainValidationOptionsBuilder::new()
            .with_domain_support(DomainSupport::All)
            .build(),
    );

    assert!(domain.is_ok());
    let domain = domain.unwrap();
    assert_eq!(domain.domain_type(), &DomainType::IpAddress);
    assert_eq!(domain.address(), "::1");
}

#[test]
fn test_ipv4_address_can_be_parsed() {
    let domain = Domain::try_parse(
        "[127.0.0.1]",
        &DomainValidationOptionsBuilder::new()
            .with_domain_support(DomainSupport::All)
            .build(),
    );

    assert!(domain.is_ok());
    let domain = domain.unwrap();
    assert_eq!(domain.domain_type(), &DomainType::IpAddress);
    assert_eq!(domain.address(), "127.0.0.1");
}

#[test]
fn test_sub_domains_are_allowed() {
    let domain = Domain::try_parse(
        "sub.example.com",
        &DomainValidationOptionsBuilder::new()
            .with_domain_support(DomainSupport::All)
            .build(),
    );

    assert!(domain.is_ok());
    let domain = domain.unwrap();
    assert_eq!(domain.domain_type(), &DomainType::HostName);
    assert_eq!(domain.address(), "sub.example.com");
}

#[test]
fn ip_domain_with_invalid_characters_fails() {
    let domain = Domain::try_parse(
        "[IPv6:127.0.0.1]",
        &DomainValidationOptionsBuilder::new()
            .with_domain_support(DomainSupport::All)
            .build(),
    );

    assert!(domain.is_err());
    let domain_error = domain.unwrap_err();
    assert_eq!(
        domain_error,
        DomainParseError::InvalidCharacters {
            character_set: String::from("IPv6:")
        }
    );
}

#[test]
fn invalid_ip_address_fails() {
    let domain = Domain::try_parse(
        "[127.0.0.1.1]",
        &DomainValidationOptionsBuilder::new()
            .with_domain_support(DomainSupport::All)
            .build(),
    );

    assert!(domain.is_err());
    let domain_error = domain.unwrap_err();
    assert!(matches!(domain_error, DomainParseError::IpParseError { .. }));
}

#[test]
fn fails_parsing_ip_when_not_supported() {
    let domain = Domain::try_parse(
        "[127.0.0.1]",
        &DomainValidationOptionsBuilder::new()
            .with_domain_support(DomainSupport::HostNameOnly)
            .build(),
    );

    assert!(domain.is_err());
    let domain_error = domain.unwrap_err();
    assert_eq!(domain_error, DomainParseError::UnsupportedDomainType);
}

#[test]
fn fails_parsing_local_domain_when_not_supported() {
    let domain = Domain::try_parse(
        "local",
        &DomainValidationOptionsBuilder::new()
            .with_domain_support(DomainSupport::HostNameOnly)
            .build(),
    );

    assert!(domain.is_err());
    let domain_error = domain.unwrap_err();
    assert_eq!(domain_error, DomainParseError::UnsupportedDomainType);
}

#[test]
fn invalid_characters_in_domain_name_fails() {
    let domain = Domain::try_parse(
        "test.com/test",
        &DomainValidationOptionsBuilder::new()
            .with_domain_support(DomainSupport::All)
            .build(),
    );

    assert!(domain.is_err());
    let domain_error = domain.unwrap_err();
    assert_eq!(
        domain_error,
        DomainParseError::InvalidCharacters {
            character_set: String::from("/")
        }
    );
}

#[test]
fn utf8_characters_in_domain_name_are_allowed() {
    let domain = Domain::try_parse(
        "test.com❤️test",
        &DomainValidationOptionsBuilder::new()
            .with_text_encoding(TextEncoding::Utf8)
            .build(),
    );

    assert!(domain.is_ok());
    let domain = domain.unwrap();
    assert_eq!(domain.domain_type(), &DomainType::HostName);
    assert_eq!(domain.address(), "test.com❤️test");
}

#[test]
fn utf8_characters_fails_parsing_when_not_supported() {
    let domain = Domain::try_parse(
        "test.com❤️test",
        &DomainValidationOptionsBuilder::new()
            .with_text_encoding(TextEncoding::Ascii)
            .build(),
    );

    assert!(domain.is_err());
    let domain_error = domain.unwrap_err();
    assert!(matches!(
        domain_error,
        DomainParseError::InvalidCharacters { .. }
    ));
}

#[test]
fn domain_can_be_trimmed() {
    let domain = Domain::try_parse(
        "  test.com  ",
        &DomainValidationOptionsBuilder::new()
            .with_trim_whitespace(TrimWhitespace::Both)
            .build(),
    );

    assert!(domain.is_ok());
    let domain = domain.unwrap();
    assert_eq!(domain.domain_type(), &DomainType::HostName);
    assert_eq!(domain.address(), "test.com");
}

#[test]
fn domain_parse_fails_with_max_length_exceeded() {
    let domain = Domain::try_parse(
        "very-long-domain",
        &DomainValidationOptionsBuilder::new()
            .with_max_length(15)
            .with_domain_support(DomainSupport::All)
            .build(),
    );

    assert!(domain.is_err());
    let domain_error = domain.unwrap_err();
    assert_eq!(
        domain_error,
        DomainParseError::DomainLengthExceeded {
            length: 16,
            max_length: 15
        }
    );
}

#[test]
fn domain_at_max_length_succeeds() {
    let domain = Domain::try_parse(
        "very-long-domain",
        &DomainValidationOptionsBuilder::new()
            .with_max_length(16)
            .with_domain_support(DomainSupport::All)
            .build(),
    );

    assert!(domain.is_ok());
    let domain = domain.unwrap();
    assert_eq!(domain.domain_type(), &DomainType::LocalDomain);
    assert_eq!(domain.address(), "very-long-domain");
}

#[test]
fn subdomain_parse_fails_with_max_dns_length_exceeded() {
    let domain = Domain::try_parse(
        "very-long-subdomain.very-long-domain.com",
        &DomainValidationOptionsBuilder::new()
            .with_max_dns_length(18)
            .with_domain_support(DomainSupport::All)
            .build(),
    );

    assert!(domain.is_err());
    let domain_error = domain.unwrap_err();
    assert_eq!(
        domain_error,
        DomainParseError::DnsLabelTooLong { max_dns_length: 18 }
    );
}

#[test]
fn subdomain_at_max_dns_length_succeeds() {
    let domain = Domain::try_parse(
        "very-long-subdomain.very-long-domain.com",
        &DomainValidationOptionsBuilder::new()
            .with_max_dns_length(19)
            .with_domain_support(DomainSupport::All)
            .build(),
    );

    assert!(domain.is_ok());
    let domain = domain.unwrap();
    assert_eq!(domain.domain_type(), &DomainType::HostName);
    assert_eq!(domain.address(), "very-long-subdomain.very-long-domain.com");
}
