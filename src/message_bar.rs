use vstd::prelude::*;

use crate::ui::Component;

verus! {

/// A point in time: whole seconds and nanoseconds since the Unix epoch.
#[derive(Debug, PartialEq, Eq, Clone, Copy, Structural)]
pub struct Timestamp {
    pub secs: u64,
    pub nanos: u32,
}

/// Nanoseconds since the epoch.
pub open spec fn nanos_of(t: Timestamp) -> int {
    t.secs * 1_000_000_000 + t.nanos
}

/// How long a message stays visible, in nanoseconds.
pub open spec fn message_lifetime() -> int {
    5_000_000_000
}

/// The bottom line, showing the latest message for a few seconds.
pub struct MessageBar {
    pub component: Component,
    pub message: String,
    pub updated_at: Timestamp,
}

impl MessageBar {
    pub fn new(message: String, time: Timestamp) -> (r: MessageBar)
        ensures
            r.message@ == message@,
            r.updated_at == time,
            r.component == (Component { x: 0, y: 0, width: 0, height: 0 }),
    {
        MessageBar { component: Component::new(0, 0, 0, 0), message, updated_at: time }
    }

    /// Shows `message` from `time` on.
    pub fn set(&mut self, message: String, time: Timestamp)
        ensures
            final(self).message@ == message@,
            final(self).updated_at == time,
            final(self).component == old(self).component,
    {
        self.message = message;
        self.updated_at = time;
    }

    /// The message, while fewer than five whole seconds have passed since it
    /// was set at time `now`; nothing where `now` is before it was set.
    pub fn get_message(&self, now: Timestamp) -> (r: Option<String>)
        ensures
            match r {
                Some(m) => m@ == self.message@ && nanos_of(self.updated_at) <= nanos_of(now) < nanos_of(
                    self.updated_at,
                ) + message_lifetime(),
                None => !(nanos_of(self.updated_at) <= nanos_of(now) < nanos_of(self.updated_at)
                    + message_lifetime()),
            },
    {
        let then = self.updated_at.secs as u128 * 1_000_000_000 + self.updated_at.nanos as u128;
        let at = now.secs as u128 * 1_000_000_000 + now.nanos as u128;
        if then <= at && at - then < 5_000_000_000 {
            Some(self.message.clone())
        } else {
            None
        }
    }

    pub fn set_size(&mut self, x: usize, y: usize, width: usize, height: usize)
        ensures
            final(self).component == (Component { x, y, width, height }),
            final(self).message == old(self).message,
            final(self).updated_at == old(self).updated_at,
    {
        self.component.set_size(x, y, width, height);
    }
}

} // verus!
