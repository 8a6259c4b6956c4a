# email_address_validator

An email address and domain validator whose behaviour is specified and proved
with Verus.

- `src/` is the verified library:
  - `text.rs`: whitespace, UTF-8 lengths, trimming and searches over characters;
  - `options.rs`: validation options, their builders, whitespace and comment trimming;
  - `ip.rs`: the grammar of IPv4 and IPv6 address literals;
  - `domain.rs`: host names, local domains and address literals;
  - `email.rs`: display names, local parts (plain and quoted) and whole addresses;
  - `error.rs`: the errors and their views;
  - `laws.rs`: properties proved for every input, such as that a written
    address parses back to itself.
- `tests/` exercises the library on concrete inputs.
- `app/` holds copies of the public types that carry `serde` and `thiserror`
  derives and implement `Display`, `FromStr` and `TryFrom`, with conversions
  to and from the library's types.

Every parsing entry point returns an error, never panics, on any input; a
local part that cleans to a lone `"` is refused as holding a special character.
