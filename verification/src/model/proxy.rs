//! Proxy server descriptors and the pieces their link rendering is made of.

use vstd::prelude::*;
use self::hysteria2::{Hysteria2, RenderError};

pub mod decimal;
pub mod escape;
pub mod hysteria2;
pub mod ports;
pub mod tool;

verus! {

/// A server descriptor of any supported protocol.
///
/// The protocols form a closed set. Each has its own fields, its own link
/// scheme and its own renderer; all they share is that they render to a
/// link.
#[derive(Clone, Debug)]
pub enum Proxy {
    /// A Hysteria2 server.
    Hysteria2(Hysteria2),
}

impl Proxy {
    /// Renders the descriptor as the link of its protocol.
    pub fn into_string(self) -> (r: Result<String, RenderError>)
        ensures
            match self {
                Proxy::Hysteria2(d) => match r {
                    Ok(text) => d@.port_error() is None && d@.renders_to(text@),
                    Err(e) => d@.port_error() == Some(e),
                },
            },
            self matches Proxy::Hysteria2(d) && d@.port matches Some(port) ==> r matches Ok(text)
                && text@ == d@.uri(port),
    {
        match self {
            Proxy::Hysteria2(d) => d.into_string(),
        }
    }
}

} // verus!
