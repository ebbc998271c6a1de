//! Structured operational events: each lifecycle operation leaves a named
//! record with its attributes, which the surrounding program hands to its
//! logging backend.

use vstd::prelude::*;

verus! {

/// One named event with its attributes.
pub struct Event {
    pub name: String,
    pub attributes: Vec<(String, String)>,
}

/// The events recorded so far, oldest first.
pub struct EventLog {
    pub events: Vec<Event>,
}

impl EventLog {
    /// An empty log.
    pub fn new() -> (log: EventLog)
        ensures
            log.events@.len() == 0,
    {
        EventLog { events: Vec::new() }
    }
}

/// Records one named event with its attributes.
pub fn record_event(log: &mut EventLog, event_name: &str, attributes: Vec<(String, String)>)
    ensures
        final(log).events@.len() == old(log).events@.len() + 1,
        final(log).events@.subrange(0, old(log).events@.len() as int) == old(log).events@,
        final(log).events@.last().name@ == event_name@,
        final(log).events@.last().attributes == attributes,
{
    let name = String::from_str(event_name);
    log.events.push(Event { name, attributes });
    proof {
        assert(log.events@.subrange(0, old(log).events@.len() as int) =~= old(log).events@);
    }
}

} // verus!
