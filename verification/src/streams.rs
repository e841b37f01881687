//! Streams consumption: the message a worker reads from a topic and the
//! capability that produces them.

use vstd::prelude::*;
use crate::config::{ConfigMap, clone_config};
use crate::error::Error;

verus! {

/// Mathematical content of a [`StreamsMessage`].
pub struct StreamsMessageV {
    pub payload: Option<Seq<char>>,
    pub headers: Seq<(String, String)>,
}

/// One message read from a subscribed topic: its payload, when it decodes
/// as text, and its headers.
pub struct StreamsMessage {
    pub payload: Option<String>,
    pub headers: ConfigMap,
}

impl View for StreamsMessage {
    type V = StreamsMessageV;

    open spec fn view(&self) -> StreamsMessageV {
        StreamsMessageV {
            payload: match self.payload {
                Some(ref p) => Some(p@),
                None => None,
            },
            headers: self.headers@,
        }
    }
}

impl Clone for StreamsMessage {
    /// A copy with the same content as the original.
    fn clone(&self) -> (r: StreamsMessage)
        ensures
            r@ == self@,
    {
        StreamsMessage {
            payload: match &self.payload {
                Some(p) => Some(p.clone()),
                None => None,
            },
            headers: clone_config(&self.headers),
        }
    }
}

/// A source of messages for one subscription.  `Ok(None)` means the source
/// is currently empty; an error does not poison the source.  The wire-level
/// consumer implements this outside the library; nothing in the core reads
/// messages itself.
pub trait StreamsConsumer {
    /// Read one message, if any is pending.
    fn consume(&mut self) -> Result<Option<StreamsMessage>, Error>;
}

} // verus!
