//! Client-side model of an Elgato Key Light controller.
//!
//! The library holds the verified core: the device's value encodings
//! (brightness percent, color-temperature codes), the transactional
//! read-modify-write protocol against the cached device state, the
//! exact-name service-discovery selection, and the textual address and
//! endpoint handling. Network transport, timers and the multicast browse
//! engine live outside the library and feed it plain values.

use vstd::prelude::*;

pub mod codes;
pub mod controller;
pub mod discovery;
pub mod light;
pub mod net;

verus! {

/// The error taxonomy of the library. Variants that wrap an underlying
/// transport or parse cause in the I/O layer are unit variants here; the
/// layer that owns the cause keeps it alongside.
#[derive(Clone, Copy, Debug, PartialEq, Eq, Structural)]
pub enum ElgatoError {
    /// A malformed address string was supplied.
    ParseError,
    /// No light is available for the operation.
    NoLight,
    /// Discovery ended without any service matching the requested name.
    DiscoverError,
    /// The device request failed: transport, HTTP status, or body decode.
    RequestError,
    /// A discovery result carried an address that does not parse as IPv4.
    IPError,
    /// The discovery worker's stop signal could not be delivered.
    CancelError,
}

impl ElgatoError {
    /// Short stable label of the error kind.
    pub fn label(&self) -> (r: &'static str)
        ensures
            self is ParseError ==> r@ == "ParseError"@,
            self is NoLight ==> r@ == "NoLight"@,
            self is DiscoverError ==> r@ == "DiscoverError"@,
            self is RequestError ==> r@ == "RequestError"@,
            self is IPError ==> r@ == "IPError"@,
            self is CancelError ==> r@ == "CancelError"@,
    {
        match self {
            ElgatoError::ParseError => "ParseError",
            ElgatoError::NoLight => "NoLight",
            ElgatoError::DiscoverError => "DiscoverError",
            ElgatoError::RequestError => "RequestError",
            ElgatoError::IPError => "IPError",
            ElgatoError::CancelError => "CancelError",
        }
    }
}

} // verus!
