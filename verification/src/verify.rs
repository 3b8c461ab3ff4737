//! Device verification with emoji, recovery and key backup.
//!
//! Every flow is identified by its flow id. The client library owns the state
//! machines; each step is forwarded to the clients. Nothing is accepted or
//! confirmed without a command from a client.

use vstd::prelude::*;

use crate::events::{RoomEvent, What};
use crate::order;
use crate::protocol::{DeviceInfo, EmojiInfo, Event, VerificationInfo, VerificationStatus};
use crate::refusal::Refusal;
use crate::text;

verus! {

/// The flows that are tracked, each with the other user.
#[derive(Debug, Clone, PartialEq, Eq)]
pub struct Flows {
    entries: Vec<(String, String)>,
}

/// The user of a flow.
pub open spec fn user_in(entries: Seq<(String, String)>, flow: Seq<char>) -> Option<Seq<char>>
    decreases entries.len(),
{
    if entries.len() == 0 {
        None
    } else if entries.last().0@ == flow {
        Some(entries.last().1@)
    } else {
        user_in(entries.drop_last(), flow)
    }
}

spec fn without(entries: Seq<(String, String)>, flow: Seq<char>) -> Seq<(String, String)>
    decreases entries.len(),
{
    if entries.len() == 0 {
        entries
    } else if entries.last().0@ == flow {
        without(entries.drop_last(), flow)
    } else {
        without(entries.drop_last(), flow).push(entries.last())
    }
}

proof fn lemma_without(entries: Seq<(String, String)>, flow: Seq<char>, other: Seq<char>)
    ensures
        user_in(without(entries, flow), other) == (if other == flow {
            None
        } else {
            user_in(entries, other)
        }),
    decreases entries.len(),
{
    if entries.len() > 0 {
        lemma_without(entries.drop_last(), flow, other);
        let rest = without(entries.drop_last(), flow);
        assert(rest.push(entries.last()).drop_last() =~= rest);
    }
}

impl Flows {
    /// The other user of a flow.
    pub closed spec fn user(&self, flow: Seq<char>) -> Option<Seq<char>> {
        user_in(self.entries@, flow)
    }

    pub fn new() -> (f: Flows)
        ensures
            forall|flow: Seq<char>| #[trigger] f.user(flow) is None,
    {
        Flows { entries: Vec::new() }
    }

    /// The other user of a flow.
    pub fn get(&self, flow: &str) -> (r: Option<String>)
        ensures
            text::opt(r) == self.user(flow@),
    {
        let mut i: usize = self.entries.len();
        assert(self.entries@.take(i as int) =~= self.entries@);
        while i > 0
            invariant
                i <= self.entries@.len(),
                user_in(self.entries@, flow@) == user_in(self.entries@.take(i as int), flow@),
            decreases i,
        {
            assert(self.entries@.take(i as int).drop_last() =~= self.entries@.take(i - 1));
            if text::same(self.entries[i - 1].0.as_str(), flow) {
                return Some(self.entries[i - 1].1.clone());
            }
            i -= 1;
        }
        None
    }

    /// A flow ended.
    pub fn remove(&mut self, flow: &str)
        ensures
            forall|other: Seq<char>| #[trigger]
                final(self).user(other) == (if other == flow@ {
                    None
                } else {
                    old(self).user(other)
                }),
    {
        let ghost was = self.entries@;
        let mut left: Vec<(String, String)> = Vec::new();
        std::mem::swap(&mut left, &mut self.entries);
        let mut out: Vec<(String, String)> = Vec::new();
        let mut i: usize = 0;
        while i < left.len()
            invariant
                left@ == was,
                i <= was.len(),
                out@ == without(was.take(i as int), flow@),
            decreases left.len() - i,
        {
            assert(was.take(i + 1).drop_last() =~= was.take(i as int));
            if !text::same(left[i].0.as_str(), flow) {
                out.push((left[i].0.clone(), left[i].1.clone()));
            }
            i += 1;
        }
        assert(was.take(was.len() as int) =~= was);
        self.entries = out;
        assert forall|other: Seq<char>| #[trigger] self.user(other) == (if other == flow@ {
            None
        } else {
            user_in(was, other)
        }) by {
            lemma_without(was, flow@, other);
        }
    }

    /// A flow with another user began.
    pub fn insert(&mut self, flow: &str, user: &str)
        ensures
            forall|other: Seq<char>| #[trigger]
                final(self).user(other) == (if other == flow@ {
                    Some(user@)
                } else {
                    old(self).user(other)
                }),
    {
        let ghost was = self.entries@;
        self.entries.push((flow.to_owned(), user.to_owned()));
        assert(self.entries@.drop_last() =~= was);
    }

    /// The other user of a flow that a command names.
    pub fn lookup(&self, logged_in: bool, flow: &str) -> (r: Result<String, Refusal>)
        ensures
            !logged_in ==> r == Err::<String, Refusal>(Refusal::NotLoggedIn),
            logged_in ==> match self.user(flow@) {
                Some(u) => r is Ok && r->Ok_0@ == u,
                None => r is Err && r->Err_0 is UnknownFlow && r->Err_0->UnknownFlow_0@ == flow@,
            },
    {
        if !logged_in {
            return Err(Refusal::NotLoggedIn);
        }
        match self.get(flow) {
            Some(u) => Ok(u),
            None => Err(Refusal::UnknownFlow(flow.to_owned())),
        }
    }
}

/// Whether a message asks for verification in a room.
pub fn asks_verification(ev: &RoomEvent) -> (r: bool)
    ensures
        r == match ev.what {
            What::Message { content, .. } => content.msgtype@ == "m.key.verification.request"@,
            _ => false,
        },
{
    match &ev.what {
        What::Message { content, .. } => text::same(
            content.msgtype.as_str(),
            "m.key.verification.request",
        ),
        _ => false,
    }
}

/// A flow as its events name it.
#[derive(Debug, Clone, PartialEq, Eq)]
pub struct Flow {
    pub id: String,
    pub other_user: String,
    /// We started it.
    pub outgoing: bool,
}

/// A step of a flow, for the clients.
pub open spec fn step_told(
    e: Event,
    flow: Flow,
    device: Option<(String, Option<String>)>,
    state: Seq<char>,
    emojis: Seq<EmojiInfo>,
    reason: Option<String>,
) -> bool {
    match e {
        Event::Verification(i) => {
            &&& i.flow_id == flow.id
            &&& i.other_user == flow.other_user
            &&& i.other_device == match device {
                Some(d) => Some(d.0),
                None => None,
            }
            &&& i.other_device_name == match device {
                Some(d) => d.1,
                None => None,
            }
            &&& i.outgoing == flow.outgoing
            &&& i.state@ == state
            &&& i.emojis@ == emojis
            &&& i.reason == reason
        },
        _ => false,
    }
}

fn emit(
    flow: &Flow,
    device: Option<(String, Option<String>)>,
    state: &str,
    emojis: Vec<EmojiInfo>,
    reason: Option<String>,
) -> (e: Event)
    ensures
        step_told(e, *flow, device, state@, emojis@, reason),
{
    let (other_device, other_device_name) = match device {
        Some((id, name)) => (Some(id), name),
        None => (None, None),
    };
    Event::Verification(
        VerificationInfo {
            flow_id: flow.id.clone(),
            other_user: flow.other_user.clone(),
            other_device,
            other_device_name,
            outgoing: flow.outgoing,
            state: state.to_owned(),
            emojis,
            reason,
        },
    )
}

/// The state of a verification request.
#[derive(Debug, Clone, PartialEq, Eq)]
pub enum RequestState {
    /// Not answered yet.
    Waiting,
    Ready,
    /// It went over into an exchange, by emoji or otherwise.
    Transitioned { emoji: bool },
    Done,
    Cancelled(String),
}

/// What follows a step.
#[derive(Debug, Clone, PartialEq, Eq)]
pub struct Follow {
    /// What the clients are told.
    pub event: Option<Event>,
    /// Start the emoji exchange; the other side may have done so.
    pub start: bool,
    /// Follow the emoji exchange that the other side started.
    pub follow: bool,
    /// The request is over.
    pub over: bool,
}

/// A new request, announced and tracked. It waits for a command to accept it.
pub fn requested(flows: &mut Flows, flow: &Flow) -> (e: Event)
    ensures
        step_told(e, *flow, None, "requested"@, Seq::empty(), None),
        forall|other: Seq<char>| #[trigger]
            final(flows).user(other) == (if other == flow.id@ {
                Some(flow.other_user@)
            } else {
                old(flows).user(other)
            }),
{
    flows.insert(flow.id.as_str(), flow.other_user.as_str());
    let none: Vec<EmojiInfo> = Vec::new();
    assert(none@ =~= Seq::<EmojiInfo>::empty());
    emit(flow, None, "requested", none, None)
}

/// The flows without `flow`, where it is over.
pub open spec fn tracked_after(was: Flows, now: Flows, flow: Seq<char>, over: bool) -> bool {
    forall|other: Seq<char>| #[trigger]
        now.user(other) == (if over && other == flow {
            None
        } else {
            was.user(other)
        })
}

/// A request moved on. Only a ready one starts anything, and none is accepted
/// here. A flow that goes over into an emoji exchange stays known until that
/// ends, so that its emoji can be confirmed.
pub fn request_step(flows: &mut Flows, flow: &Flow, state: RequestState) -> (r: Follow)
    ensures
        r.start == (state is Ready),
        r.follow == (state matches RequestState::Transitioned { emoji } && emoji),
        r.over == (state is Transitioned || state is Done || state is Cancelled),
        tracked_after(*old(flows), *final(flows), flow.id@, r.over && !r.follow),
        match state {
            RequestState::Waiting => r.event is None,
            RequestState::Transitioned { .. } => r.event is None,
            RequestState::Ready => r.event is Some && step_told(
                r.event->0,
                *flow,
                None,
                "ready"@,
                Seq::empty(),
                None,
            ),
            RequestState::Done => r.event is Some && step_told(
                r.event->0,
                *flow,
                None,
                "done"@,
                Seq::empty(),
                None,
            ),
            RequestState::Cancelled(why) => r.event is Some && step_told(
                r.event->0,
                *flow,
                None,
                "cancelled"@,
                Seq::empty(),
                Some(why),
            ),
        },
{
    let none: Vec<EmojiInfo> = Vec::new();
    assert(none@ =~= Seq::<EmojiInfo>::empty());
    let r = match state {
        RequestState::Waiting => Follow { event: None, start: false, follow: false, over: false },
        RequestState::Ready => Follow {
            event: Some(emit(flow, None, "ready", none, None)),
            start: true,
            follow: false,
            over: false,
        },
        RequestState::Transitioned { emoji } => Follow {
            event: None,
            start: false,
            follow: emoji,
            over: true,
        },
        RequestState::Done => Follow {
            event: Some(emit(flow, None, "done", none, None)),
            start: false,
            follow: false,
            over: true,
        },
        RequestState::Cancelled(why) => Follow {
            event: Some(emit(flow, None, "cancelled", none, Some(why))),
            start: false,
            follow: false,
            over: true,
        },
    };
    if r.over && !r.follow {
        flows.remove(flow.id.as_str());
    }
    r
}

/// The state of an emoji exchange.
#[derive(Debug, Clone, PartialEq, Eq)]
pub enum SasState {
    /// Keys are being exchanged.
    Waiting,
    /// Both sides have the emoji on screen.
    KeysExchanged(Vec<EmojiInfo>),
    Confirmed,
    Done,
    Cancelled(String),
}

/// What the clients are told of an emoji exchange, and whether it is over; its
/// flow is then no longer known. A device that was verified changes the status
/// too.
pub fn sas_step(
    flows: &mut Flows,
    flow: &Flow,
    device: (String, Option<String>),
    state: SasState,
) -> (r: (Vec<Event>, bool))
    ensures
        r.1 == (state is Done || state is Cancelled),
        tracked_after(*old(flows), *final(flows), flow.id@, r.1),
        match state {
            SasState::Waiting => r.0@.len() == 0,
            SasState::KeysExchanged(emojis) => r.0@.len() == 1 && step_told(
                r.0@[0],
                *flow,
                Some(device),
                "emoji"@,
                emojis@,
                None,
            ),
            SasState::Confirmed => r.0@.len() == 1 && step_told(
                r.0@[0],
                *flow,
                None,
                "confirmed"@,
                Seq::empty(),
                None,
            ),
            SasState::Done => r.0@.len() == 2 && step_told(
                r.0@[0],
                *flow,
                None,
                "done"@,
                Seq::empty(),
                None,
            ) && r.0@[1] == Event::VerificationStatusChanged,
            SasState::Cancelled(why) => r.0@.len() == 1 && step_told(
                r.0@[0],
                *flow,
                None,
                "cancelled"@,
                Seq::empty(),
                Some(why),
            ),
        },
{
    let none: Vec<EmojiInfo> = Vec::new();
    assert(none@ =~= Seq::<EmojiInfo>::empty());
    let mut out: Vec<Event> = Vec::new();
    let over = match state {
        SasState::Waiting => false,
        SasState::KeysExchanged(emojis) => {
            out.push(emit(flow, Some(device), "emoji", emojis, None));
            false
        },
        SasState::Confirmed => {
            out.push(emit(flow, None, "confirmed", none, None));
            false
        },
        SasState::Done => {
            out.push(emit(flow, None, "done", none, None));
            out.push(Event::VerificationStatusChanged);
            true
        },
        SasState::Cancelled(why) => {
            out.push(emit(flow, None, "cancelled", none, Some(why)));
            true
        },
    };
    if over {
        flows.remove(flow.id.as_str());
    }
    (out, over)
}

/// Whether an emoji exchange is accepted by itself: one that the other side
/// started within a request that was accepted.
pub fn accepts_exchange(we_started: bool) -> (r: bool)
    ensures
        r == !we_started,
{
    !we_started
}

/// Whether a request that a command names can be acted on.
pub fn request_found(flow: &str, found: bool) -> (r: Result<(), Refusal>)
    ensures
        found ==> r is Ok,
        !found ==> r is Err && r->Err_0 is FlowGone && r->Err_0->FlowGone_0@ == flow@,
{
    if found {
        Ok(())
    } else {
        Err(Refusal::FlowGone(flow.to_owned()))
    }
}

/// Whether the emoji of a flow can be confirmed: there is an exchange, and
/// both sides have the emoji on screen.
pub fn may_confirm(flow: &str, exchange: Option<&SasState>) -> (r: Result<(), Refusal>)
    ensures
        match exchange {
            None => r is Err && r->Err_0 is NoEmoji && r->Err_0->NoEmoji_0@ == flow@,
            Some(s) => r == (if s is KeysExchanged {
                Ok::<(), Refusal>(())
            } else {
                Err(Refusal::NothingToConfirm)
            }),
        },
{
    match exchange {
        None => Err(Refusal::NoEmoji(flow.to_owned())),
        Some(SasState::KeysExchanged(_)) => Ok(()),
        Some(_) => Err(Refusal::NothingToConfirm),
    }
}

/// The state of recovery.
#[derive(Debug, Clone, Copy, PartialEq, Eq, Structural)]
pub enum Recovery {
    Unknown,
    Enabled,
    Disabled,
    Incomplete,
}

/// The state of the key backup.
#[derive(Debug, Clone, Copy, PartialEq, Eq, Structural)]
pub enum Backup {
    Unknown,
    Creating,
    Enabling,
    Resuming,
    Enabled,
    Downloading,
    Disabling,
}

pub open spec fn recovery_text(s: Recovery) -> Seq<char> {
    match s {
        Recovery::Unknown => "unknown"@,
        Recovery::Enabled => "enabled"@,
        Recovery::Disabled => "disabled"@,
        Recovery::Incomplete => "incomplete"@,
    }
}

/// A backup that is being disabled counts as disabled.
pub open spec fn backup_text(s: Backup) -> Seq<char> {
    match s {
        Backup::Unknown => "unknown"@,
        Backup::Creating => "creating"@,
        Backup::Enabling => "enabling"@,
        Backup::Resuming => "resuming"@,
        Backup::Enabled => "enabled"@,
        Backup::Downloading => "downloading"@,
        Backup::Disabling => "disabled"@,
    }
}

fn recovery_name(s: Recovery) -> (r: &'static str)
    ensures
        r@ == recovery_text(s),
{
    match s {
        Recovery::Unknown => "unknown",
        Recovery::Enabled => "enabled",
        Recovery::Disabled => "disabled",
        Recovery::Incomplete => "incomplete",
    }
}

fn backup_name(s: Backup) -> (r: &'static str)
    ensures
        r@ == backup_text(s),
{
    match s {
        Backup::Unknown => "unknown",
        Backup::Creating => "creating",
        Backup::Enabling => "enabling",
        Backup::Resuming => "resuming",
        Backup::Enabled => "enabled",
        Backup::Downloading => "downloading",
        Backup::Disabling => "disabled",
    }
}

/// What the client library knows of our identity and devices.
#[derive(Debug, Clone, PartialEq, Eq)]
pub struct Identity {
    pub device_id: Option<String>,
    /// This device is signed by our own identity, where the device is known.
    pub device_verified: Option<bool>,
    /// There is a cross-signing identity, where that is known.
    pub cross_signing: Option<bool>,
    pub recovery: Recovery,
    pub backup: Backup,
    pub devices: Vec<DeviceInfo>,
}

/// The devices but for the one with this id.
pub open spec fn other_than(devices: Seq<DeviceInfo>, id: Seq<char>) -> Seq<DeviceInfo>
    decreases devices.len(),
{
    if devices.len() == 0 {
        Seq::empty()
    } else if devices.last().id@ == id {
        other_than(devices.drop_last(), id)
    } else {
        other_than(devices.drop_last(), id).push(devices.last())
    }
}

/// The status names one of the states that the client knows, and lists our
/// device nowhere among the others.
pub proof fn lemma_status(recovery: Recovery, backup: Backup, devices: Seq<DeviceInfo>, id: Seq<char>)
    ensures
        seq!["unknown"@, "enabled"@, "disabled"@, "incomplete"@].contains(recovery_text(recovery)),
        seq![
            "unknown"@,
            "enabled"@,
            "disabled"@,
            "creating"@,
            "enabling"@,
            "resuming"@,
            "downloading"@,
        ].contains(backup_text(backup)),
        forall|i: int|
            0 <= i < other_than(devices, id).len() ==> (#[trigger] other_than(
                devices,
                id,
            )[i]).id@ != id && devices.contains(other_than(devices, id)[i]),
    decreases devices.len(),
{
    let r = seq!["unknown"@, "enabled"@, "disabled"@, "incomplete"@];
    assert(r[0] == "unknown"@ && r[1] == "enabled"@ && r[2] == "disabled"@ && r[3]
        == "incomplete"@);
    let b = seq![
        "unknown"@,
        "enabled"@,
        "disabled"@,
        "creating"@,
        "enabling"@,
        "resuming"@,
        "downloading"@,
    ];
    assert(b[0] == "unknown"@ && b[1] == "enabled"@ && b[2] == "disabled"@ && b[3] == "creating"@
        && b[4] == "enabling"@ && b[5] == "resuming"@ && b[6] == "downloading"@);
    if devices.len() > 0 {
        let rest = devices.drop_last();
        lemma_status(recovery, backup, rest, id);
        assert forall|i: int| 0 <= i < other_than(devices, id).len() implies (
        #[trigger] other_than(devices, id)[i]).id@ != id && devices.contains(
            other_than(devices, id)[i],
        ) by {
            let d = other_than(devices, id)[i];
            if i < other_than(rest, id).len() {
                assert(d == other_than(rest, id)[i]);
                let k = choose|k: int| 0 <= k < rest.len() && rest[k] == d;
                assert(devices[k] == d);
            } else {
                assert(devices[devices.len() - 1] == d);
            }
        }
    }
}

/// Our verification status, for the client.
pub fn verification_status(i: Identity) -> (r: VerificationStatus)
    ensures
        r.device_verified == (i.device_verified == Some(true)),
        r.cross_signing == (i.cross_signing == Some(true)),
        r.recovery@ == recovery_text(i.recovery),
        r.backup@ == backup_text(i.backup),
        r.device_id@ == match i.device_id {
            Some(d) => d@,
            None => Seq::empty(),
        },
        r.other_devices@ == other_than(i.devices@, r.device_id@),
        i.device_id matches Some(own) ==> forall|d: DeviceInfo| #[trigger]
            r.other_devices@.contains(d) <==> i.devices@.contains(d) && d.id@ != own@,
{
    proof {
        if i.device_id is Some {
            lemma_other_devices(i.devices@, i.device_id->0@);
        }
    }
    let device_id = match i.device_id {
        Some(d) => d,
        None => String::new(),
    };
    let ghost all = i.devices@;
    let mut left = i.devices;
    crate::order::reverse(&mut left);
    let mut others: Vec<DeviceInfo> = Vec::new();
    let ghost mut n: int = 0;
    while left.len() > 0
        invariant
            0 <= n <= all.len(),
            left@ == all.skip(n).reverse(),
            others@ == other_than(all.take(n), device_id@),
        decreases left@.len(),
    {
        let ghost l0 = left@;
        if let Some(d) = left.pop() {
            assert(d == all[n]) by {
                assert(l0.last() == all.skip(n)[0]);
            }
            assert(left@ =~= all.skip(n + 1).reverse());
            assert(all.take(n + 1).drop_last() =~= all.take(n));
            if !text::same(d.id.as_str(), device_id.as_str()) {
                others.push(d);
            }
            proof {
                n = n + 1;
            }
        }
    }
    assert(all.take(n) =~= all);
    VerificationStatus {
        device_verified: match i.device_verified {
            Some(b) => b,
            None => false,
        },
        cross_signing: match i.cross_signing {
            Some(b) => b,
            None => false,
        },
        recovery: recovery_name(i.recovery).to_owned(),
        backup: backup_name(i.backup).to_owned(),
        device_id,
        other_devices: others,
    }
}

/// What came of a recovery with a key, by the state it left.
pub fn recovered(state: Recovery) -> (r: Result<(), Refusal>)
    ensures
        r == match state {
            Recovery::Enabled => Ok::<(), Refusal>(()),
            Recovery::Incomplete => Err(Refusal::RecoveredPartly),
            _ => Err(Refusal::NotRecovered),
        },
{
    match state {
        Recovery::Enabled => Ok(()),
        Recovery::Incomplete => Err(Refusal::RecoveredPartly),
        _ => Err(Refusal::NotRecovered),
    }
}

/// Whether to create the cross-signing identity before recovery is set up.
pub fn setup_identity(has_master: Option<bool>, state: Recovery) -> (r: Result<bool, Refusal>)
    ensures
        r == (if has_master == Some(true) && state == Recovery::Enabled {
            Err::<bool, Refusal>(Refusal::RecoveryKnown)
        } else {
            Ok(has_master != Some(true))
        }),
{
    let has = match has_master {
        Some(b) => b,
        None => false,
    };
    if has && state == Recovery::Enabled {
        Err(Refusal::RecoveryKnown)
    } else {
        Ok(!has)
    }
}

/// How to set up recovery once there is an identity.
#[derive(Debug, Clone, Copy, PartialEq, Eq, Structural)]
pub enum Setup {
    /// A fresh store gets a key.
    Enable,
    /// A store that was started without the identity gets a new one, so that
    /// the key covers everything.
    Rekey,
}

pub fn setup_recovery(state: Recovery) -> (r: Result<Setup, Refusal>)
    ensures
        r == match state {
            Recovery::Enabled => Err::<Setup, Refusal>(Refusal::RecoverySetUp),
            Recovery::Incomplete => Ok(Setup::Rekey),
            _ => Ok(Setup::Enable),
        },
{
    match state {
        Recovery::Enabled => Err(Refusal::RecoverySetUp),
        Recovery::Incomplete => Ok(Setup::Rekey),
        _ => Ok(Setup::Enable),
    }
}

/// Whether the recovery key can be replaced: there is an identity.
pub fn may_reset_key(has_master: Option<bool>) -> (r: Result<(), Refusal>)
    ensures
        r == (if has_master == Some(true) {
            Ok::<(), Refusal>(())
        } else {
            Err(Refusal::NoEncryption)
        }),
{
    match has_master {
        Some(true) => Ok(()),
        _ => Err(Refusal::NoEncryption),
    }
}

// ---------- laws ----------

/// The other devices are all devices but this one, in order.
pub proof fn lemma_other_devices(devices: Seq<DeviceInfo>, id: Seq<char>)
    ensures
        other_than(devices, id) == devices.filter(|d: DeviceInfo| d.id@ != id),
        forall|d: DeviceInfo| #[trigger]
            other_than(devices, id).contains(d) <==> devices.contains(d) && d.id@ != id,
    decreases devices.len(),
{
    let other = |d: DeviceInfo| d.id@ != id;
    reveal(Seq::filter);
    if devices.len() > 0 {
        lemma_other_devices(devices.drop_last(), id);
    } else {
        assert(other_than(devices, id) =~= devices);
    }
    order::lemma_filter(devices, other);
}

/// A step tells of the flow it belongs to: its id, the other user, and who
/// began it.
pub proof fn lemma_step_told(
    e: Event,
    flow: Flow,
    device: Option<(String, Option<String>)>,
    state: Seq<char>,
    emojis: Seq<EmojiInfo>,
    reason: Option<String>,
)
    requires
        step_told(e, flow, device, state, emojis, reason),
    ensures
        e matches Event::Verification(i) && {
            &&& i.flow_id == flow.id
            &&& i.other_user == flow.other_user
            &&& i.outgoing == flow.outgoing
            &&& i.state@ == state
            &&& i.emojis@ == emojis
            &&& i.reason == reason
            &&& device is None ==> i.other_device is None && i.other_device_name is None
            &&& device matches Some(d) ==> i.other_device == Some(d.0) && i.other_device_name == d.1
        },
{
}

/// Each state of recovery and of the backup is told by its own name, but for
/// a backup that is being switched off, which is told as off.
pub proof fn lemma_state_names(r: Recovery, b: Backup)
    ensures
        recovery_text(r) == "enabled"@ <==> r == Recovery::Enabled,
        recovery_text(r) == "disabled"@ <==> r == Recovery::Disabled,
        recovery_text(r) == "incomplete"@ <==> r == Recovery::Incomplete,
        recovery_text(r) == "unknown"@ <==> r == Recovery::Unknown,
        backup_text(b) == "enabled"@ <==> b == Backup::Enabled,
        backup_text(b) == "disabled"@ <==> b == Backup::Disabling,
        backup_text(b) == "unknown"@ <==> b == Backup::Unknown,
        backup_text(b) == "creating"@ <==> b == Backup::Creating,
        backup_text(b) == "enabling"@ <==> b == Backup::Enabling,
        backup_text(b) == "resuming"@ <==> b == Backup::Resuming,
        backup_text(b) == "downloading"@ <==> b == Backup::Downloading,
{
    reveal_strlit("unknown");
    reveal_strlit("enabled");
    reveal_strlit("disabled");
    reveal_strlit("incomplete");
    reveal_strlit("creating");
    reveal_strlit("enabling");
    reveal_strlit("resuming");
    reveal_strlit("downloading");
    assert("unknown"@[0] == 'u' && "enabled"@[0] == 'e' && "disabled"@[0] == 'd'
        && "incomplete"@[0] == 'i' && "creating"@[0] == 'c' && "enabling"@[0] == 'e'
        && "resuming"@[0] == 'r' && "downloading"@[0] == 'd');
    assert("enabled"@.len() == 7 && "enabling"@.len() == 8 && "disabled"@.len() == 8
        && "downloading"@.len() == 11);
}

/// A flow that is over is no longer tracked; no other flow is touched, and
/// none at all while it goes on.
pub proof fn lemma_tracked_after(was: Flows, now: Flows, flow: Seq<char>, other: Seq<char>, over: bool)
    requires
        tracked_after(was, now, flow, over),
    ensures
        over ==> now.user(flow) is None,
        !over ==> now.user(flow) == was.user(flow),
        other != flow ==> now.user(other) == was.user(other),
{
}

} // verus!
