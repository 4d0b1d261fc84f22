//! Core of an intercepting HTTP/HTTPS forward proxy.
//!
//! The library holds the verified logic of the proxy: the HTTP/1.1 message
//! codec, the connection dispatcher, the plain-forward header rewrite, the
//! MITM tunnel state machine, the certificate-parameter model for the root CA
//! and its minted leaves, the leaf-certificate cache with its single-flight
//! discipline, and the inspection history kept by the terminal front end.
//! The unverified shell around it (sockets, TLS handshakes, the terminal)
//! drives these functions and performs the I/O they decide on.

pub mod cache;
pub mod cert;
pub mod dispatch;
pub mod forward;
pub mod headers;
pub mod http;
pub mod inspect;
pub mod ip;
pub mod num;
pub mod parser;
pub mod pem;
pub mod roundtrip;
pub mod tunnel;
pub mod ui;
