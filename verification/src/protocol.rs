use vstd::prelude::*;

verus! {

/// A message exchanged over the network: the key it is published under and its bytes.
#[derive(Debug, Clone, PartialEq, Eq, Default)]
pub struct Message {
    pub topic: String,
    pub payload: Vec<u8>,
}

impl Message {
    /// Builds a message from a topic and a payload, both kept as given.
    pub fn new(topic: &str, payload: Vec<u8>) -> (msg: Message)
        ensures
            msg.topic@ == topic@,
            msg.payload@ == payload@,
    {
        Message { topic: topic.to_owned(), payload }
    }

    /// Builds the message that a query carries: its key as the topic and its payload, or
    /// no bytes when the query has no payload.
    pub fn from_query(key: &str, payload: Option<Vec<u8>>) -> (msg: Message)
        ensures
            msg.topic@ == key@,
            msg.payload@ == match payload {
                Some(bytes) => bytes@,
                None => Seq::<u8>::empty(),
            },
    {
        let bytes = match payload {
            Some(bytes) => bytes,
            None => Vec::new(),
        };
        Message::new(key, bytes)
    }
}

} // verus!
