use vstd::prelude::*;
use crate::protocol::Message;

verus! {

/// A topic this node listens on, with the handler that receives each message put to it.
pub struct Subscriber<C> {
    pub topic: String,
    pub callback: C,
}

impl<C> Subscriber<C> where C: FnMut(Message) + Send + Sync + 'static {
    /// Registers `callback` for `topic`; both are kept as given.
    pub fn new(topic: &str, callback: C) -> (s: Self)
        ensures
            s.topic@ == topic@,
            s.callback == callback,
    {
        Self { topic: topic.to_owned(), callback }
    }
}

impl<C> Subscriber<C> {
    /// The topic, as an owned string.
    pub fn topic(&self) -> (t: String)
        ensures
            t@ == self.topic@,
    {
        self.topic.clone()
    }
}

/// A topic this node answers queries on, with the handler that computes each reply.
pub struct Queryable<C> {
    pub topic: String,
    pub callback: C,
}

impl<C> Queryable<C> where C: FnMut(Message) -> Message + Send + Sync + 'static {
    /// Registers `callback` for `topic`; both are kept as given.
    pub fn new(topic: &str, callback: C) -> (q: Self)
        ensures
            q.topic@ == topic@,
            q.callback == callback,
    {
        Self { topic: topic.to_owned(), callback }
    }
}

impl<C> Queryable<C> {
    /// The topic, as an owned string.
    pub fn topic(&self) -> (t: String)
        ensures
            t@ == self.topic@,
    {
        self.topic.clone()
    }
}

} // verus!
