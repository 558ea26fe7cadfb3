//! The notification side: recognising a store event addressed to us, and
//! the decisions of the loop that polls the directory's unread flag.

use vstd::prelude::*;
use vstd::string::StringSliceAdditionalSpecFns;
use crate::discovery::bytes_equal;

verus! {

/// A byte that survives the event-data filter: printable ASCII or a space.
/// The zero padding and the length words of the event data fall outside.
pub open spec fn kept_byte(b: u8) -> bool {
    0x20 <= b <= 0x7e
}

/// The bytes of `s` that survive the filter, in order.
pub open spec fn kept_bytes(s: Seq<u8>) -> Seq<u8>
    decreases s.len(),
{
    if s.len() == 0 {
        Seq::empty()
    } else if kept_byte(s.last()) {
        kept_bytes(s.drop_last()).push(s.last())
    } else {
        kept_bytes(s.drop_last())
    }
}

/// `s` without its leading spaces.
pub open spec fn trim_leading_spaces(s: Seq<u8>) -> Seq<u8>
    decreases s.len(),
{
    if s.len() > 0 && s[0] == 0x20 {
        trim_leading_spaces(s.drop_first())
    } else {
        s
    }
}

/// The recipient identity named by the data of a store event. Decoding
/// the data as lossy UTF-8 first would change nothing: a byte outside
/// ASCII never decodes to a printable ASCII character.
pub open spec fn event_recipient(data: Seq<u8>) -> Seq<u8> {
    trim_leading_spaces(kept_bytes(data))
}

/// The recipient identity named by the data of a store event.
pub fn recipient_of_event(data: &[u8]) -> (r: Vec<u8>)
    ensures
        r@ == event_recipient(data@),
{
    let mut kept: Vec<u8> = Vec::new();
    let mut i: usize = 0;
    while i < data.len()
        invariant
            0 <= i <= data@.len(),
            kept@ == kept_bytes(data@.subrange(0, i as int)),
        decreases data@.len() - i,
    {
        assert(data@.subrange(0, i + 1).drop_last() =~= data@.subrange(0, i as int));
        let b = data[i];
        if 0x20 <= b && b <= 0x7e {
            kept.push(b);
        }
        i = i + 1;
    }
    assert(data@.subrange(0, data@.len() as int) =~= data@);
    assert(kept@.subrange(0, kept@.len() as int) =~= kept@);
    let mut start: usize = 0;
    while start < kept.len() && kept[start] == 0x20
        invariant
            0 <= start <= kept@.len(),
            trim_leading_spaces(kept@) == trim_leading_spaces(kept@.subrange(
                start as int,
                kept@.len() as int,
            )),
        decreases kept@.len() - start,
    {
        assert(kept@.subrange(start as int, kept@.len() as int).drop_first() =~= kept@.subrange(
            start + 1,
            kept@.len() as int,
        ));
        start = start + 1;
    }
    let mut out: Vec<u8> = Vec::new();
    let mut j: usize = start;
    while j < kept.len()
        invariant
            start <= j <= kept@.len(),
            out@ == kept@.subrange(start as int, j as int),
        decreases kept@.len() - j,
    {
        out.push(kept[j]);
        assert(out@ =~= kept@.subrange(start as int, j + 1));
        j = j + 1;
    }
    out
}

/// Whether a store event names `my_id` as its recipient.
pub fn event_is_for(data: &[u8], my_id: &str) -> (r: bool)
    ensures
        r == (event_recipient(data@) == my_id.spec_bytes()),
{
    let recipient = recipient_of_event(data);
    bytes_equal(recipient.as_slice(), my_id.as_bytes())
}

/// What the polling loop learned in one round.
#[derive(Debug, Clone, Copy, PartialEq, Eq, Structural)]
pub enum PollEvent {
    /// The directory returned the unread flag.
    Flag(bool),
    /// The directory refused our session token: another device's session
    /// is current.
    InvalidSession,
    /// The directory could not be reached or did not answer in time.
    TransportFault,
    /// The conversation is closing.
    Cancelled,
}

/// What the polling loop does next.
#[derive(Debug, Clone, Copy, PartialEq, Eq, Structural)]
pub enum PollAction {
    /// Read the inbox slot, then clear the unread flag.
    ReadInbox,
    /// Poll again after this many milliseconds.
    Wait { delay_ms: u64 },
    /// Leave the loop.
    Stop,
}

/// `base` doubled `k` times, never above `cap`.
pub open spec fn backoff_delay(base: nat, cap: nat, k: nat) -> nat
    decreases k,
{
    if k == 0 {
        if base <= cap {
            base
        } else {
            cap
        }
    } else {
        let d = 2 * backoff_delay(base, cap, (k - 1) as nat);
        if d <= cap {
            d
        } else {
            cap
        }
    }
}

/// The decisions of the unread-flag polling loop, with exponential backoff
/// on transport faults and a cap on consecutive faults.
pub struct Poller {
    pub interval_ms: u64,
    pub max_delay_ms: u64,
    pub max_faults: u32,
    pub faults: u32,
    pub stopped: bool,
}

/// One more fault, saturating at the largest count.
pub open spec fn next_fault_count(faults: u32) -> u32 {
    if faults < u32::MAX {
        (faults + 1) as u32
    } else {
        faults
    }
}

/// The next poller state and action for an event.
pub open spec fn poll_step(p: Poller, ev: PollEvent) -> (Poller, PollAction) {
    if p.stopped {
        (p, PollAction::Stop)
    } else {
        match ev {
            PollEvent::Cancelled | PollEvent::InvalidSession => (
                Poller { stopped: true, ..p },
                PollAction::Stop,
            ),
            PollEvent::Flag(true) => (Poller { faults: 0, ..p }, PollAction::ReadInbox),
            PollEvent::Flag(false) => (
                Poller { faults: 0, ..p },
                PollAction::Wait {
                    delay_ms: backoff_delay(p.interval_ms as nat, p.max_delay_ms as nat, 0) as u64,
                },
            ),
            PollEvent::TransportFault => if p.faults as nat + 1 >= p.max_faults as nat {
                (Poller { faults: next_fault_count(p.faults), stopped: true, ..p }, PollAction::Stop)
            } else {
                (
                    Poller { faults: next_fault_count(p.faults), ..p },
                    PollAction::Wait {
                        delay_ms: backoff_delay(
                            p.interval_ms as nat,
                            p.max_delay_ms as nat,
                            (p.faults + 1) as nat,
                        ) as u64,
                    },
                )
            },
        }
    }
}

impl Poller {
    /// A running poller that polls every `interval_ms` milliseconds, backs
    /// off up to `max_delay_ms`, and stops after `max_faults` faults in a
    /// row.
    pub fn new(interval_ms: u64, max_delay_ms: u64, max_faults: u32) -> (r: Self)
        ensures
            r == (Poller { interval_ms, max_delay_ms, max_faults, faults: 0, stopped: false }),
    {
        Poller { interval_ms, max_delay_ms, max_faults, faults: 0, stopped: false }
    }

    /// The delay after `k` faults in a row.
    pub fn delay_after(&self, k: u32) -> (r: u64)
        ensures
            r == backoff_delay(self.interval_ms as nat, self.max_delay_ms as nat, k as nat),
    {
        let mut d: u64 = if self.interval_ms <= self.max_delay_ms {
            self.interval_ms
        } else {
            self.max_delay_ms
        };
        let mut i: u32 = 0;
        while i < k
            invariant
                0 <= i <= k,
                d == backoff_delay(self.interval_ms as nat, self.max_delay_ms as nat, i as nat),
                d <= self.max_delay_ms,
            decreases k - i,
        {
            if d <= self.max_delay_ms / 2 {
                d = 2 * d;
            } else {
                d = self.max_delay_ms;
            }
            i = i + 1;
        }
        d
    }

    /// Takes in one event and returns what to do next.
    pub fn on_event(&mut self, ev: PollEvent) -> (r: PollAction)
        ensures
            (*final(self), r) == poll_step(*old(self), ev),
    {
        if self.stopped {
            return PollAction::Stop;
        }
        match ev {
            PollEvent::Cancelled | PollEvent::InvalidSession => {
                self.stopped = true;
                PollAction::Stop
            },
            PollEvent::Flag(true) => {
                self.faults = 0;
                PollAction::ReadInbox
            },
            PollEvent::Flag(false) => {
                self.faults = 0;
                PollAction::Wait { delay_ms: self.delay_after(0) }
            },
            PollEvent::TransportFault => {
                let faults: u32 = if self.faults < u32::MAX {
                    self.faults + 1
                } else {
                    self.faults
                };
                if self.faults >= self.max_faults || self.faults + 1 >= self.max_faults {
                    self.faults = faults;
                    self.stopped = true;
                    PollAction::Stop
                } else {
                    self.faults = faults;
                    PollAction::Wait { delay_ms: self.delay_after(faults) }
                }
            },
        }
    }
}

} // verus!
