//! The address to listen on.

use crate::error;
use crate::error::ConfigError;
use crate::text;
use vstd::prelude::*;

verus! {

/// An IP socket address: its text in canonical form, and its port.
#[derive(Debug, PartialEq, Eq)]
pub struct BindAddress {
    pub text: String,
    pub port: u16,
}

/// The text and the port of a `BindAddress`.
pub struct AddressText {
    pub text: Seq<char>,
    pub port: u16,
}

impl View for BindAddress {
    type V = AddressText;

    open spec fn view(&self) -> AddressText {
        AddressText { text: self.text@, port: self.port }
    }
}

impl Clone for BindAddress {
    fn clone(&self) -> (address: Self)
        ensures
            address@ == self@,
    {
        BindAddress { text: self.text.clone(), port: self.port }
    }
}

/// The text and the port of an address, if there is one.
pub open spec fn address_view(address: Option<BindAddress>) -> Option<AddressText> {
    match address {
        Some(address) => Some(address@),
        None => None,
    }
}

/// The address that a configured text stands for, given the IP socket address
/// that the text is without surrounding white space, if it is one.
pub open spec fn validated_address(address: Seq<char>, parsed: Option<AddressText>) -> Result<
    AddressText,
    error::ErrorText,
> {
    let value = text::trimmed(address);
    match parsed {
        None => Err(
            error::ErrorText::InvalidAddress { value, reason: "expected an IP address and port"@ },
        ),
        Some(parsed) => if parsed.port == 0 {
            Err(error::ErrorText::InvalidAddress { value, reason: "port must not be zero"@ })
        } else {
            Ok(parsed)
        },
    }
}

/// Validate `address` as a non-zero IP socket address. `parsed` is the IP
/// socket address that `address` is without surrounding white space, if it is
/// one.
pub fn validate_address(address: &str, parsed: Option<BindAddress>) -> (validated: Result<
    BindAddress,
    ConfigError,
>)
    ensures
        match validated {
            Ok(a) => validated_address(address@, address_view(parsed)) == Ok::<
                AddressText,
                error::ErrorText,
            >(a@),
            Err(e) => validated_address(address@, address_view(parsed)) == Err::<
                AddressText,
                error::ErrorText,
            >(e@),
        },
{
    let value = address.trim();
    match parsed {
        None => Err(
            ConfigError::InvalidAddress {
                value: value.to_owned(),
                reason: "expected an IP address and port",
            },
        ),
        Some(parsed) => if parsed.port == 0 {
            Err(
                ConfigError::InvalidAddress {
                    value: value.to_owned(),
                    reason: "port must not be zero",
                },
            )
        } else {
            Ok(parsed)
        },
    }
}

} // verus!
