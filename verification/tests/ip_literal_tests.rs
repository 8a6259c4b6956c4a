use email_address_validator::{
    AddrParseError, Domain, DomainParseError, DomainSupport, DomainType, DomainValidationOptionsBuilder, IpVersion,
};

fn parse_literal(text: &str) -> Result<Domain, DomainParseError> {
    Domain::try_parse(
        &format!("[{text}]"),
        &DomainValidationOptionsBuilder::new()
            .with_domain_support(DomainSupport::All)
            .build(),
    )
}

/// Address literals, and the IP version that `std::net::IpAddr` reads in each.
const SAMPLES: &[(&str, Option<IpVersion>)] = &[
    ("", None),
    ("0", None),
    ("1.2.3.4", Some(IpVersion::V4)),
    ("01.2.3.4", None),
    ("0.0.0.0", Some(IpVersion::V4)),
    ("255.255.255.255", Some(IpVersion::V4)),
    ("256.1.1.1", None),
    ("1.2.3", None),
    ("1.2.3.4.5", None),
    ("1.2.3.4:80", None),
    ("1..2.3", None),
    ("1.2.3.04", None),
    ("1.2.3.000", None),
    ("999.1.1.1", None),
    ("1.2.3.4 ", None),
    ("::", Some(IpVersion::V6)),
    ("::1", Some(IpVersion::V6)),
    ("1::", Some(IpVersion::V6)),
    ("1:2:3:4:5:6:7:8", Some(IpVersion::V6)),
    ("1:2:3:4:5:6:7:8:9", None),
    ("1:2:3:4:5:6:7::", Some(IpVersion::V6)),
    ("::2:3:4:5:6:7:8", Some(IpVersion::V6)),
    ("1::8", Some(IpVersion::V6)),
    ("1::2::3", None),
    ("12345::", None),
    ("1:2:3:4:5:6:7", None),
    (":1::", None),
    ("1:::", None),
    ("::ffff:1.2.3.4", Some(IpVersion::V6)),
    ("::1.2.3.4", Some(IpVersion::V6)),
    ("1:2:3:4:5:6:1.2.3.4", Some(IpVersion::V6)),
    ("1:2:3:4:5:6:7:1.2.3.4", None),
    ("1.2.3.4::", None),
    ("1.2.3.4::1", None),
    ("::1.2.3", None),
    ("::1.2.3.4.5", None),
    ("fe80::1", Some(IpVersion::V6)),
    ("FE80::ABCD", Some(IpVersion::V6)),
    ("g::1", None),
    ("2001:db8::ff00:42:8329", Some(IpVersion::V6)),
    ("2001:0db8:85a3:0000:0000:8a2e:0370:7334", Some(IpVersion::V6)),
    ("::0:0:0", Some(IpVersion::V6)),
    ("0:0:0:0:0:0:0:0", Some(IpVersion::V6)),
    ("::1:2:3:4:5:6:7", Some(IpVersion::V6)),
    ("::1:2:3:4:5:6:7:8", None),
    ("1:2:3:4:5::1.2.3.4", Some(IpVersion::V6)),
    ("1:2:3:4:5:6::1.2.3.4", None),
    ("::255.255.255.255", Some(IpVersion::V6)),
    ("::256.0.0.0", None),
    ("abcd::01.2.3.4", None),
    ("0000:0000::", Some(IpVersion::V6)),
    ("00000::", None),
    ("1:2", None),
    ("1.2.3.4/8", None),
    ("[::1]", None),
    ("é::1", None),
    ("::é", None),
];

#[test]
fn ip_literals_are_recognised_like_std_net() {
    for (text, version) in SAMPLES {
        let parsed = parse_literal(text);
        match version {
            Some(_) => {
                let domain = parsed.unwrap();
                assert_eq!(domain.domain_type(), &DomainType::IpAddress);
                assert_eq!(domain.address(), *text);
            }
            None => assert_eq!(parsed.unwrap_err(), DomainParseError::IpParseError(AddrParseError), "{text:?}"),
        }
    }
}

#[test]
fn ipv6_tagged_literals_are_recognised_like_std_net() {
    for (text, version) in SAMPLES {
        let parsed = parse_literal(&format!("IPv6:{text}"));
        match version {
            Some(IpVersion::V6) => {
                let domain = parsed.unwrap();
                assert_eq!(domain.domain_type(), &DomainType::IpAddress);
                assert_eq!(domain.address(), *text);
            }
            Some(IpVersion::V4) => assert_eq!(
                parsed.unwrap_err(),
                DomainParseError::InvalidCharacters {
                    character_set: "IPv6:".to_owned()
                }
            ),
            None => assert_eq!(parsed.unwrap_err(), DomainParseError::IpParseError(AddrParseError), "{text:?}"),
        }
    }
}
