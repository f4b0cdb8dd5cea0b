//! What the HTTP transport hands back, as plain values.

use vstd::prelude::*;
use vstd::utf8::{decode_utf8, valid_utf8};
use crate::text::utf8_to_string;

verus! {

/// The most bytes of a body that are read as text.
pub const BODY_LIMIT: usize = 2097152;

/// A response: the bytes of its body.
#[derive(Clone, Debug, PartialEq, Eq)]
pub struct Response {
    pub body: Vec<u8>,
}

/// A request that failed: an error status with its response, or a failure
/// to reach the server.
#[derive(Clone, Debug, PartialEq, Eq)]
pub enum Error {
    Status(u16, Response),
    Transport(String),
}

/// The part of a body that is read as text: its first `BODY_LIMIT` bytes.
pub open spec fn body_prefix(b: Seq<u8>) -> Seq<u8> {
    if b.len() <= BODY_LIMIT {
        b
    } else {
        b.subrange(0, BODY_LIMIT as int)
    }
}

impl Response {
    /// The body as text: its first `BODY_LIMIT` bytes, which must be UTF-8.
    pub fn into_string(self) -> (r: Result<String, String>)
        ensures
            r is Ok <==> valid_utf8(body_prefix(self.body@)),
            r matches Ok(s) ==> s@ == decode_utf8(body_prefix(self.body@)),
    {
        let n = if self.body.len() <= BODY_LIMIT {
            self.body.len()
        } else {
            BODY_LIMIT
        };
        let mut head: Vec<u8> = Vec::new();
        let mut i: usize = 0;
        while i < n
            invariant
                i <= n <= self.body@.len(),
                n == if self.body@.len() <= BODY_LIMIT { self.body@.len() } else { BODY_LIMIT as nat },
                head@ == self.body@.subrange(0, i as int),
            decreases n - i,
        {
            head.push(self.body[i]);
            assert(head@ =~= self.body@.subrange(0, i as int + 1));
            i = i + 1;
        }
        assert(self.body@.len() <= BODY_LIMIT ==> head@ =~= self.body@);
        match utf8_to_string(head.as_slice()) {
            Some(s) => Ok(s),
            None => Err(String::from_str("stream did not contain valid UTF-8")),
        }
    }
}

} // verus!
