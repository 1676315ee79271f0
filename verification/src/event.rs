//! The event primitive: an append-only log per branch, keyed by a
//! monotonically increasing sequence number, with a secondary view by
//! event type.

use vstd::prelude::*;

use crate::common::StrataError;
use crate::db::{Event, Strata, WalRecord};
use crate::model::{apply_rec, cur, spec_event_append, EventV, RecV};
use crate::value::{clone_string, Value};

verus! {

/// The events of `s` whose type is `t`, in append order.
pub open spec fn events_of_type(s: Seq<EventV>, t: Seq<char>) -> Seq<EventV>
    decreases s.len(),
{
    if s.len() == 0 {
        Seq::empty()
    } else if s.last().event_type == t {
        events_of_type(s.drop_last(), t).push(s.last())
    } else {
        events_of_type(s.drop_last(), t)
    }
}

impl Strata {
    /// Append an event; its assigned sequence number is one past the count
    /// of events already on the branch, so sequences are 1, 2, 3, … and
    /// never reused.
    pub fn event_append(&mut self, event_type: &str, payload: Value) -> (r: Result<
        u64,
        StrataError,
    >)
        requires
            old(self).wf(),
        ensures
            final(self).wf(),
            old(self)@.poisoned || cur(old(self)@).events.len() >= u64::MAX ==> r == Err::<
                u64,
                StrataError,
            >(StrataError::InvalidState) && final(self)@ == old(self)@,
            !old(self)@.poisoned && cur(old(self)@).events.len() < u64::MAX ==> r == Ok::<
                u64,
                StrataError,
            >((cur(old(self)@).events.len() + 1) as u64) && final(self)@ == spec_event_append(
                old(self)@,
                event_type@,
                payload@,
            ),
    {
        if self.poisoned {
            return Err(StrataError::InvalidState);
        }
        let rec = WalRecord::EventAppend {
            branch: clone_string(&self.current),
            event_type: event_type.to_owned(),
            payload: payload.duplicate(),
        };
        let ghost base = self@;
        let mut b = self.take_current();
        if b.events.len() as u64 == u64::MAX {
            let name = clone_string(&self.current);
            self.branches.put(name, b);
            proof {
                assert(self@.branches =~= base.branches);
                assert(self@ == base);
            }
            return Err(StrataError::InvalidState);
        }
        let seq: u64 = b.events.len() as u64 + 1;
        let ghost events0 = b.events@;
        b.events.push(Event { seq, event_type: event_type.to_owned(), value: payload });
        proof {
            assert(crate::db::events_view(b.events@) =~= crate::db::events_view(events0).push(
                b.events@.last()@,
            ));
            assert(apply_rec(base.branches, rec@) == base.branches.insert(base.current, b@));
        }
        self.commit_current(b, rec, Ghost(base));
        Ok(seq)
    }

    /// The event with the given sequence number, if one was appended.
    pub fn event_read(&self, seq: u64) -> (r: Result<Option<Event>, StrataError>)
        requires
            self.wf(),
        ensures
            match r {
                Ok(oe) => match oe {
                    Some(e) => 1 <= seq as int <= cur(self@).events.len() && e@ == cur(
                        self@,
                    ).events[seq as int - 1],
                    None => !(1 <= seq as int <= cur(self@).events.len()),
                },
                Err(_) => false,
            },
    {
        let name = clone_string(&self.current);
        match self.branches.get(name.as_str()) {
            Some(b) => {
                if seq >= 1 && seq <= b.events.len() as u64 {
                    let i: usize = (seq - 1) as usize;
                    let e = &b.events[i];
                    Ok(
                        Some(
                            Event {
                                seq: e.seq,
                                event_type: clone_string(&e.event_type),
                                value: e.value.duplicate(),
                            },
                        ),
                    )
                } else {
                    Ok(None)
                }
            },
            None => vstd::pervasive::unreached(),
        }
    }

    /// `event_read` under its other name.
    pub fn event_get(&self, seq: u64) -> (r: Result<Option<Event>, StrataError>)
        requires
            self.wf(),
        ensures
            match r {
                Ok(oe) => match oe {
                    Some(e) => 1 <= seq as int <= cur(self@).events.len() && e@ == cur(
                        self@,
                    ).events[seq as int - 1],
                    None => !(1 <= seq as int <= cur(self@).events.len()),
                },
                Err(_) => false,
            },
    {
        self.event_read(seq)
    }

    /// Every event of the given type, in append order.
    pub fn event_read_by_type(&self, event_type: &str) -> (r: Result<Vec<Event>, StrataError>)
        requires
            self.wf(),
        ensures
            match r {
                Ok(es) => crate::db::events_view(es@) == events_of_type(
                    cur(self@).events,
                    event_type@,
                ),
                Err(_) => false,
            },
    {
        let name = clone_string(&self.current);
        match self.branches.get(name.as_str()) {
            Some(b) => {
                let mut out: Vec<Event> = Vec::new();
                let mut i: usize = 0;
                while i < b.events.len()
                    invariant
                        i <= b.events@.len(),
                        crate::db::events_view(out@) == events_of_type(
                            crate::db::events_view(b.events@).take(i as int),
                            event_type@,
                        ),
                    decreases b.events@.len() - i,
                {
                    let ghost evs = crate::db::events_view(b.events@);
                    proof {
                        assert(evs.take(i as int + 1).drop_last() =~= evs.take(i as int));
                        assert(evs.take(i as int + 1).last() == evs[i as int]);
                    }
                    let e = &b.events[i];
                    if crate::text::str_eq(e.event_type.as_str(), event_type) {
                        let ghost out0 = out@;
                        out.push(
                            Event {
                                seq: e.seq,
                                event_type: clone_string(&e.event_type),
                                value: e.value.duplicate(),
                            },
                        );
                        proof {
                            assert(crate::db::events_view(out@) =~= crate::db::events_view(
                                out0,
                            ).push(out@.last()@));
                        }
                    }
                    i = i + 1;
                }
                proof {
                    assert(crate::db::events_view(b.events@).take(b.events@.len() as int)
                        =~= crate::db::events_view(b.events@));
                }
                Ok(out)
            },
            None => vstd::pervasive::unreached(),
        }
    }

    /// `event_read_by_type` under its other name.
    pub fn event_get_by_type(&self, event_type: &str) -> (r: Result<Vec<Event>, StrataError>)
        requires
            self.wf(),
        ensures
            match r {
                Ok(es) => crate::db::events_view(es@) == events_of_type(
                    cur(self@).events,
                    event_type@,
                ),
                Err(_) => false,
            },
    {
        self.event_read_by_type(event_type)
    }

    /// How many events the selected branch holds.
    pub fn event_len(&self) -> (r: Result<u64, StrataError>)
        requires
            self.wf(),
        ensures
            r == Ok::<u64, StrataError>((cur(self@).events.len()) as u64),
    {
        let name = clone_string(&self.current);
        match self.branches.get(name.as_str()) {
            Some(b) => Ok(b.events.len() as u64),
            None => vstd::pervasive::unreached(),
        }
    }
}

} // verus!
