//! The MIDI engine's state: the runtime channel, the one pending capture of
//! a message (used to learn a binding), and the connected devices.
use crate::input::midi_message::MidiInputEvent;
use crate::input::midi_ports::{device_list, device_view, devices_facts, MidiInputDevice};
use crate::model::MidiConfig;
use std::sync::mpsc::{Receiver, RecvTimeoutError, Sender};
use std::sync::Arc;
use std::time::Duration;
use vstd::prelude::*;

verus! {

#[verifier::external_type_specification]
#[verifier::external_body]
#[verifier::reject_recursive_types(T)]
pub struct ExSender<T>(Sender<T>);

#[verifier::external_type_specification]
#[verifier::external_body]
#[verifier::reject_recursive_types(T)]
pub struct ExReceiver<T>(Receiver<T>);

/// Messages for the thread that owns the device connections.
pub enum MidiRuntimeMsg {
    Sync,
    Incoming(MidiInputEvent),
}

/// Why waiting for a captured message ended without one.
#[derive(Debug, Clone, Copy, PartialEq, Eq)]
pub enum WaitEnd {
    TimedOut,
    Disconnected,
}

/// `std::sync::mpsc::channel`: a new channel, its sending and its receiving
/// side. Nothing is stated of them.
#[verifier::external_body]
fn channel<T>() -> (Sender<T>, Receiver<T>) {
    std::sync::mpsc::channel()
}

/// `Sender::send`: hands `value` to the receiving side; the result says
/// whether that side still existed, which depends on other threads, so
/// nothing is stated of it.
#[verifier::external_body]
fn send<T>(tx: &Sender<T>, value: T) -> bool {
    tx.send(value).is_ok()
}

/// `Receiver::recv_timeout`: a message, or why none came within `timeout`.
/// What comes back depends on time and on other threads; nothing is stated.
#[verifier::external_body]
fn receive_within<T>(rx: &Receiver<T>, timeout: Duration) -> Result<T, WaitEnd> {
    match rx.recv_timeout(timeout) {
        Ok(value) => Ok(value),
        Err(RecvTimeoutError::Timeout) => Err(WaitEnd::TimedOut),
        Err(RecvTimeoutError::Disconnected) => Err(WaitEnd::Disconnected),
    }
}

/// `Arc::strong_count`: how many handles share `token`; at least the one
/// passed in.
#[verifier::external_body]
fn holders(token: &Arc<()>) -> (n: usize)
    ensures
        n >= 1,
{
    Arc::strong_count(token)
}

/// The pending capture: the waiter's id, its channel, and a token shared
/// with it that tells whether it still waits.
pub struct CaptureSlot {
    pub id: u64,
    tx: Sender<MidiInputEvent>,
    token: Arc<()>,
}

pub struct MidiEngine {
    runtime: Option<Sender<MidiRuntimeMsg>>,
    capture: Option<CaptureSlot>,
    capture_id: u64,
    connected: Vec<String>,
}

/// A caller waiting for the next MIDI message.
pub struct MidiCaptureWait {
    id: u64,
    rx: Receiver<MidiInputEvent>,
    token: Arc<()>,
}

pub open spec fn busy_text() -> Seq<char> {
    "midi_capture_busy"@
}

pub open spec fn timeout_text() -> Seq<char> {
    "midi_capture_timeout"@
}

pub open spec fn cancelled_text() -> Seq<char> {
    "midi_capture_cancelled"@
}

/// What a wait returns for each way it can end.
pub open spec fn outcome_of(res: Result<MidiInputEvent, WaitEnd>) -> Result<MidiInputEvent, Seq<char>> {
    match res {
        Ok(e) => Ok(e),
        Err(WaitEnd::TimedOut) => Err(timeout_text()),
        Err(WaitEnd::Disconnected) => Err(cancelled_text()),
    }
}

pub open spec fn outcome_view(r: Result<MidiInputEvent, String>) -> Result<MidiInputEvent, Seq<char>> {
    match r {
        Ok(e) => Ok(e),
        Err(s) => Err(s@),
    }
}

/// Maps how a wait ended to its result.
pub fn capture_outcome(res: Result<MidiInputEvent, WaitEnd>) -> (r: Result<MidiInputEvent, String>)
    ensures
        outcome_view(r) == outcome_of(res),
{
    match res {
        Ok(event) => Ok(event),
        Err(WaitEnd::TimedOut) => Err("midi_capture_timeout".to_owned()),
        Err(WaitEnd::Disconnected) => Err("midi_capture_cancelled".to_owned()),
    }
}

impl MidiEngine {
    pub closed spec fn pending(&self) -> Option<u64> {
        match self.capture {
            Some(slot) => Some(slot.id),
            None => None,
        }
    }

    pub closed spec fn next_id(&self) -> u64 {
        self.capture_id
    }

    pub closed spec fn connected_ids(&self) -> Seq<String> {
        self.connected@
    }

    pub closed spec fn attached(&self) -> bool {
        self.runtime is Some
    }

    pub fn new() -> (r: Self)
        ensures
            r.pending() is None,
            r.next_id() == 1,
            r.connected_ids().len() == 0,
            !r.attached(),
    {
        MidiEngine { runtime: None, capture: None, capture_id: 1, connected: Vec::new() }
    }

    /// Connects the engine to the runtime thread's channel.
    pub fn attach(&mut self, tx: Sender<MidiRuntimeMsg>)
        ensures
            final(self).attached(),
            final(self).pending() == old(self).pending(),
            final(self).next_id() == old(self).next_id(),
            final(self).connected_ids() == old(self).connected_ids(),
    {
        self.runtime = Some(tx);
    }

    /// Asks the runtime thread to reconnect devices.
    pub fn sync(&self) {
        if let Some(tx) = &self.runtime {
            let _ = send(tx, MidiRuntimeMsg::Sync);
        }
    }

    /// Starts a capture unless one is pending and its waiter still waits
    /// (`previous_waiting`). Every call uses up one id.
    pub fn claim_capture(&mut self, previous_waiting: bool) -> (r: Result<MidiCaptureWait, String>)
        ensures
            final(self).next_id() == old(self).next_id().wrapping_add(1),
            final(self).connected_ids() == old(self).connected_ids(),
            final(self).attached() == old(self).attached(),
            old(self).pending() is Some && previous_waiting ==> {
                &&& r is Err
                &&& r->Err_0@ == busy_text()
                &&& final(self).pending() == old(self).pending()
            },
            !(old(self).pending() is Some && previous_waiting) ==> {
                &&& r is Ok
                &&& r->Ok_0.waiter_id() == old(self).next_id()
                &&& final(self).pending() == Some(old(self).next_id())
            },
    {
        let id = self.capture_id;
        self.capture_id = id.wrapping_add(1);
        if self.capture.is_some() && previous_waiting {
            return Err("midi_capture_busy".to_owned());
        }
        let (tx, rx) = channel();
        let token = Arc::new(());
        let shared = token.clone();
        self.capture = Some(CaptureSlot { id, tx, token: shared });
        Ok(MidiCaptureWait { id, rx, token })
    }

    /// Starts a capture, or fails while another caller still waits for one.
    pub fn begin_capture(&mut self) -> (r: Result<MidiCaptureWait, String>)
        ensures
            final(self).next_id() == old(self).next_id().wrapping_add(1),
            final(self).connected_ids() == old(self).connected_ids(),
            old(self).pending() is None ==> r is Ok,
            r is Ok ==> r->Ok_0.waiter_id() == old(self).next_id() && final(self).pending() == Some(
                old(self).next_id(),
            ),
            r is Err ==> r->Err_0@ == busy_text() && old(self).pending() is Some
                && final(self).pending() == old(self).pending(),
    {
        let waiting = match &self.capture {
            Some(slot) => holders(&slot.token) > 1,
            None => false,
        };
        self.claim_capture(waiting)
    }

    /// Drops the pending capture; its waiter stops waiting.
    pub fn cancel_capture(&mut self)
        ensures
            final(self).pending() is None,
            final(self).next_id() == old(self).next_id(),
            final(self).connected_ids() == old(self).connected_ids(),
            final(self).attached() == old(self).attached(),
    {
        self.capture = None;
    }

    /// Hands `event` to the pending capture when its waiter still waits
    /// (`waiting`), which ends it; otherwise the event comes back to be
    /// dispatched. Either way no capture is pending afterwards.
    pub fn deliver_event(&mut self, event: MidiInputEvent, waiting: bool) -> (r: Option<
        MidiInputEvent,
    >)
        ensures
            old(self).pending() is Some && waiting ==> r is None,
            !(old(self).pending() is Some && waiting) ==> r == Some(event),
            final(self).pending() is None,
            final(self).next_id() == old(self).next_id(),
            final(self).connected_ids() == old(self).connected_ids(),
            final(self).attached() == old(self).attached(),
    {
        match self.capture.take() {
            Some(slot) => if waiting {
                let _ = send(&slot.tx, event);
                None
            } else {
                Some(event)
            },
            None => Some(event),
        }
    }

    /// Hands `event` to the pending capture, which it ends, while its waiter
    /// still waits; a capture whose waiter is gone is dropped, and without a
    /// waiting capture the event comes back to be dispatched.
    pub fn route_event(&mut self, event: MidiInputEvent) -> (r: Option<MidiInputEvent>)
        ensures
            old(self).pending() is None ==> r == Some(event),
            r is None || r == Some(event),
            final(self).pending() is None,
            final(self).next_id() == old(self).next_id(),
            final(self).connected_ids() == old(self).connected_ids(),
            final(self).attached() == old(self).attached(),
    {
        let waiting = match &self.capture {
            Some(slot) => holders(&slot.token) > 1,
            None => false,
        };
        self.deliver_event(event, waiting)
    }

    /// Records the ids of the connected devices; says whether they changed.
    pub fn set_connected(&mut self, ids: Vec<String>) -> (changed: bool)
        ensures
            final(self).connected_ids() == ids@,
            changed == (old(self).connected_ids().map_values(|s: String| s@) != ids@.map_values(
                |s: String| s@,
            )),
            final(self).pending() == old(self).pending(),
            final(self).next_id() == old(self).next_id(),
    {
        let mut same = self.connected.len() == ids.len();
        let mut k: usize = 0;
        proof {
            if !same {
                assert(self.connected@.map_values(|s: String| s@).len() != ids@.map_values(
                    |s: String| s@,
                ).len());
            }
        }
        while same && k < ids.len()
            invariant
                k <= ids.len(),
                same ==> self.connected.len() == ids.len(),
                same ==> forall|m: int| 0 <= m < k ==> self.connected@[m]@ == ids@[m]@,
                !same ==> self.connected@.map_values(|s: String| s@) != ids@.map_values(
                    |s: String| s@,
                ),
            decreases ids.len() - k + (if same {
                1int
            } else {
                0int
            }),
        {
            if self.connected[k] != ids[k] {
                proof {
                    let a = self.connected@.map_values(|s: String| s@);
                    let b = ids@.map_values(|s: String| s@);
                    assert(a[k as int] != b[k as int]);
                }
                same = false;
            } else {
                k += 1;
            }
        }
        proof {
            if same {
                assert(self.connected@.map_values(|s: String| s@) =~= ids@.map_values(|s: String| s@));
            }
        }
        self.connected = ids;
        !same
    }

    /// The device list for the ports offered now and the connected ones.
    pub fn devices(&self, config: &MidiConfig) -> (r: Vec<MidiInputDevice>)
        ensures
            devices_facts(r@) == device_list(Seq::empty(), *config, self.connected_ids()),
    {
        device_view(config, self.connected.as_slice())
    }
}

impl MidiCaptureWait {
    pub closed spec fn waiter_id(&self) -> u64 {
        self.id
    }

    /// Waits up to `timeout` for the captured message.
    pub fn wait(self, timeout: Duration) -> (r: Result<MidiInputEvent, String>)
        ensures
            r is Err ==> r->Err_0@ == timeout_text() || r->Err_0@ == cancelled_text(),
    {
        let res = receive_within(&self.rx, timeout);
        capture_outcome(res)
    }
}

} // verus!
