//! The messages that peers and clients exchange.

use vstd::prelude::*;
use crate::module_sign::VmSignature;
use crate::value::Value;

verus! {

/// Requesting an auth challenge.
#[derive(Debug)]
pub struct AuthChalReq {
    /// The api token to include in the 'Authorization' header.
    pub token: crate::hash::Hash,
    /// The nonce to sign.
    pub nonce: crate::hash::Hash,
}

/// Responding to an auth challenge.
#[derive(Debug)]
pub struct AuthChalRes {
    /// The signature over the provided nonce.
    pub nonce_sig: Vec<VmSignature>,
    /// Request access to these contexts: `(<ContextHash>, <AppAuthData>)`.
    pub context_access: Vec<(crate::hash::Hash, Value)>,
}

/// A VoidMerge peer-to-peer message.
#[derive(Debug)]
pub struct VmMsg {
    /// The context of this message.
    pub ctx: crate::hash::Hash,
    /// The addressable peer hash of this message.
    pub peer: crate::hash::Hash,
    /// The payload of this message.
    pub data: Vec<u8>,
}

/// The application logic of a context.
#[derive(Debug)]
pub enum VmLogic {
    /// A single block of UTF-8 code.
    Utf8Single {
        /// All the code as a single block.
        code: String,
    },
}

} // verus!
