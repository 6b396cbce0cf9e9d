//! The layer in front of the service: it turns away any request whose
//! printed form holds the banned number, before the service sees it.

use vstd::prelude::*;
use crate::message::text;
use crate::text::{contains_text, occurs_in};

verus! {

/// The number that no request may hold.
pub open spec fn banned() -> Seq<char> {
    "114514"@
}

/// The message a turned-away request gets.
pub open spec fn refusal() -> Seq<char> {
    "There are inappropriate words and they have been filtered"@
}

/// A service with the screening layer in front of it.
pub struct LogService<S>(pub S);

/// The layer that puts the screening in front of a service.
pub struct LogLayer;

impl LogLayer {
    /// Puts the screening in front of `inner`.
    pub fn layer<S>(self, inner: S) -> (s: LogService<S>)
        ensures
            s.0 == inner,
    {
        LogService(inner)
    }
}

impl<S> LogService<S> {
    /// The service behind the layer.
    pub fn inner(&self) -> (r: &S)
        ensures
            *r == self.0,
    {
        &self.0
    }

    /// Whether a request whose printed form is `command` may pass: `Err`
    /// with the refusal when it holds the banned number.
    pub fn screen(command: &str) -> (r: Result<(), String>)
        ensures
            match r {
                Ok(()) => !occurs_in(command@, banned()),
                Err(m) => occurs_in(command@, banned()) && m@ == refusal(),
            },
    {
        if contains_text(command, "114514") {
            Err(text("There are inappropriate words and they have been filtered"))
        } else {
            Ok(())
        }
    }
}

} // verus!
