//! Bounded message buffer for NATS publishing.
//!
//! FIFO buffer that rejects new messages when full, so that no event is lost silently.

use vstd::prelude::*;

use std::collections::VecDeque;

use crate::error::NatsError;
use crate::events::TransactionMessage;

verus! {

/// Maximum capacity of the buffer.
pub const MAX_CAPACITY: usize = 1000;

/// Bounded message buffer.
///
/// Stores messages while NATS is disconnected. Rejects new messages when full, so that
/// the caller knows they cannot be accepted.
pub struct MessageBuffer {
    buffer: VecDeque<TransactionMessage>,
    capacity: usize,
}

impl MessageBuffer {
    /// The buffered messages, oldest first.
    pub closed spec fn contents(&self) -> Seq<TransactionMessage> {
        self.buffer@
    }

    pub closed spec fn spec_capacity(&self) -> usize {
        self.capacity
    }

    pub closed spec fn wf(&self) -> bool {
        self.capacity <= MAX_CAPACITY
    }

    /// Creates an empty buffer whose capacity is `capacity`, at most [`MAX_CAPACITY`].
    pub fn new(capacity: usize) -> (b: Self)
        ensures
            b.wf(),
            b.contents() == Seq::<TransactionMessage>::empty(),
            b.spec_capacity() == if capacity < MAX_CAPACITY { capacity } else { MAX_CAPACITY },
    {
        let capacity = if capacity < MAX_CAPACITY { capacity } else { MAX_CAPACITY };
        MessageBuffer { buffer: VecDeque::with_capacity(capacity), capacity }
    }

    /// Appends a message at the back; rejects it, leaving the buffer as it was, when the
    /// buffer already holds `capacity` messages or more.
    pub fn push(&mut self, message: TransactionMessage) -> (r: Result<(), NatsError>)
        ensures
            final(self).spec_capacity() == old(self).spec_capacity(),
            old(self).wf() ==> final(self).wf(),
            old(self).contents().len() >= old(self).spec_capacity() ==> {
                &&& r == Err::<(), NatsError>(NatsError::BufferFull { capacity: old(self).spec_capacity() })
                &&& final(self).contents() == old(self).contents()
            },
            old(self).contents().len() < old(self).spec_capacity() ==> {
                &&& r is Ok
                &&& final(self).contents() == old(self).contents().push(message)
            },
    {
        if self.is_full() {
            return Err(NatsError::BufferFull { capacity: self.capacity });
        }
        self.buffer.push_back(message);
        Ok(())
    }

    /// Removes and returns the oldest message.
    pub fn pop(&mut self) -> (r: Option<TransactionMessage>)
        ensures
            final(self).spec_capacity() == old(self).spec_capacity(),
            old(self).wf() ==> final(self).wf(),
            old(self).contents().len() == 0 ==> r is None && final(self).contents() == old(self).contents(),
            old(self).contents().len() > 0 ==> {
                &&& r == Some(old(self).contents()[0])
                &&& final(self).contents() == old(self).contents().drop_first()
            },
    {
        let r = self.buffer.pop_front();
        assert(old(self).buffer@.subrange(1, old(self).buffer@.len() as int) =~= old(self).buffer@.drop_first());
        r
    }

    /// Puts a message back at the front, ahead of every buffered message. Used to re-buffer
    /// a message that failed to publish; it bypasses the capacity check.
    pub fn push_front(&mut self, message: TransactionMessage)
        ensures
            final(self).spec_capacity() == old(self).spec_capacity(),
            old(self).wf() ==> final(self).wf(),
            final(self).contents() == seq![message] + old(self).contents(),
    {
        self.buffer.push_front(message);
    }

    /// Puts several messages back at the front, the first of `messages` ending up first.
    /// Bypasses the capacity check.
    pub fn extend_front(&mut self, messages: Vec<TransactionMessage>)
        ensures
            final(self).spec_capacity() == old(self).spec_capacity(),
            old(self).wf() ==> final(self).wf(),
            final(self).contents() == messages@ + old(self).contents(),
    {
        let ghost orig = messages@;
        let mut messages = messages;
        while messages.len() > 0
            invariant
                self.capacity == old(self).capacity,
                orig == messages@ + orig.skip(messages@.len() as int),
                self.buffer@ == orig.skip(messages@.len() as int) + old(self).buffer@,
            decreases messages@.len(),
        {
            let ghost before = messages@;
            let m = messages.pop();
            match m {
                Some(m) => {
                    assert(orig.skip(messages@.len() as int) =~= seq![m] + orig.skip(before.len() as int));
                    self.buffer.push_front(m);
                    assert(self.buffer@ =~= orig.skip(messages@.len() as int) + old(self).buffer@);
                },
                None => {},
            }
        }
        assert(orig.skip(0) =~= orig);
    }

    /// The number of buffered messages.
    pub fn len(&self) -> (n: usize)
        ensures
            n == self.contents().len(),
    {
        self.buffer.len()
    }

    pub fn is_empty(&self) -> (r: bool)
        ensures
            r == (self.contents().len() == 0),
    {
        self.buffer.len() == 0
    }

    pub fn is_full(&self) -> (r: bool)
        ensures
            r == (self.contents().len() >= self.spec_capacity()),
    {
        self.buffer.len() >= self.capacity
    }

    pub fn capacity(&self) -> (c: usize)
        ensures
            c == self.spec_capacity(),
    {
        self.capacity
    }

    /// Removes every message, returning them oldest first.
    pub fn drain(&mut self) -> (v: Vec<TransactionMessage>)
        ensures
            final(self).spec_capacity() == old(self).spec_capacity(),
            old(self).wf() ==> final(self).wf(),
            final(self).contents() == Seq::<TransactionMessage>::empty(),
            v@ == old(self).contents(),
    {
        let mut v: Vec<TransactionMessage> = Vec::new();
        while self.buffer.len() > 0
            invariant
                self.capacity == old(self).capacity,
                old(self).buffer@ == v@ + self.buffer@,
            decreases self.buffer@.len(),
        {
            let ghost before = self.buffer@;
            match self.buffer.pop_front() {
                Some(m) => {
                    v.push(m);
                    assert(old(self).buffer@ =~= v@ + self.buffer@) by {
                        assert(before =~= seq![m] + self.buffer@);
                    }
                },
                None => {},
            }
        }
        assert(old(self).buffer@ =~= v@);
        v
    }
}

} // verus!
