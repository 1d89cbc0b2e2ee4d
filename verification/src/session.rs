//! The device session: one connection to one scanner, from the request to
//! open it until the read that fails.
//!
//! The session decides; a driver acts. The driver asks for the
//! [`Action`] to perform, performs it against the device, and reports what
//! happened as a [`DeviceEvent`]. The session answers with the
//! [`Notification`]s to deliver, in order.
use vstd::prelude::*;
use vstd::string::StringExecFns;
use crate::framer::Framer;
use crate::ident::{identifier, parse_id};
use crate::lines::{
    lemma_codes_split, lemma_lines_split, lemma_pending_unbroken, lemma_unbroken_is_pending,
    pending_fragment, scan_codes, unbroken,
};
use crate::text::decoded;

verus! {

/// How long one read waits for data, in milliseconds.
pub const READ_TIMEOUT_MS: i32 = 1000;

/// The size of the raw buffer of one read: a typical report.
pub const REPORT_SIZE: usize = 64;

/// Where a session stands.
#[derive(Debug, Clone, Copy, PartialEq, Eq, Structural)]
pub enum Phase {
    /// The device has not been opened yet.
    Connecting,
    /// The device is open and is being read.
    Connected,
    /// The session is over: the device could not be opened, or a read failed.
    Ended,
}

/// The state of a connection, as reported to the consumer.
#[derive(Debug, Clone, PartialEq, Eq)]
pub enum ConnectionStatus {
    Connected,
    Disconnected,
    Error(String),
}

/// What a session reports to the consumer.
#[derive(Debug, Clone, PartialEq, Eq)]
pub enum Notification {
    /// The connection changed state.
    Status(ConnectionStatus),
    /// One line was completed: a trimmed, non-empty scan code.
    Scan(String),
}

/// What happened at the device.
#[derive(Debug, Clone, PartialEq, Eq)]
pub enum DeviceEvent {
    /// The device was opened.
    Opened,
    /// The device could not be opened; the text says why.
    OpenFailed(String),
    /// A read returned these bytes; none where it timed out.
    Data(Vec<u8>),
    /// A read failed.
    ReadFailed,
}

/// What the driver does next.
#[derive(Debug, Clone, Copy, PartialEq, Eq, Structural)]
pub enum Action {
    /// Open the device with these identifiers.
    Open { vendor_id: u16, product_id: u16 },
    /// Read at most `capacity` bytes, waiting at most `timeout_ms`.
    Read { timeout_ms: i32, capacity: usize },
    /// Nothing: the session is over.
    Stop,
}

/// Why a scan could not be started.
#[derive(Debug, Clone, Copy, PartialEq, Eq, Structural)]
pub enum StartError {
    InvalidVendorId,
    InvalidProductId,
}

/// The kind of event under which a notification is delivered.
#[derive(Debug, Clone, Copy, PartialEq, Eq, Structural)]
pub enum Channel {
    /// The connection was made or lost.
    Status,
    /// The device could not be opened.
    Error,
    /// A scan code.
    Data,
}

/// A connection state as plain values.
pub enum StatusView {
    Connected,
    Disconnected,
    Error(Seq<char>),
}

/// A notification as plain values.
pub enum NotificationView {
    Status(StatusView),
    Scan(Seq<char>),
}

/// A device event as plain values.
pub enum EventView {
    Opened,
    OpenFailed(Seq<char>),
    Data(Seq<u8>),
    ReadFailed,
}

/// A session as plain values.
pub struct SessionView {
    pub vendor_id: u16,
    pub product_id: u16,
    pub phase: Phase,
    pub pending: Seq<char>,
}

impl View for ConnectionStatus {
    type V = StatusView;

    open spec fn view(&self) -> StatusView {
        match self {
            ConnectionStatus::Connected => StatusView::Connected,
            ConnectionStatus::Disconnected => StatusView::Disconnected,
            ConnectionStatus::Error(message) => StatusView::Error(message@),
        }
    }
}

impl View for Notification {
    type V = NotificationView;

    open spec fn view(&self) -> NotificationView {
        match self {
            Notification::Status(status) => NotificationView::Status(status@),
            Notification::Scan(code) => NotificationView::Scan(code@),
        }
    }
}

impl View for DeviceEvent {
    type V = EventView;

    open spec fn view(&self) -> EventView {
        match self {
            DeviceEvent::Opened => EventView::Opened,
            DeviceEvent::OpenFailed(why) => EventView::OpenFailed(why@),
            DeviceEvent::Data(bytes) => EventView::Data(bytes@),
            DeviceEvent::ReadFailed => EventView::ReadFailed,
        }
    }
}

/// The notifications of `list`, as plain values.
pub open spec fn notes(list: Seq<Notification>) -> Seq<NotificationView> {
    list.map_values(|n: Notification| n@)
}

/// The events of `list`, as plain values.
pub open spec fn events(list: Seq<DeviceEvent>) -> Seq<EventView> {
    list.map_values(|e: DeviceEvent| e@)
}

/// One scan notification for each code, in order.
pub open spec fn scans(codes: Seq<Seq<char>>) -> Seq<NotificationView> {
    codes.map_values(|c: Seq<char>| NotificationView::Scan(c))
}

/// The message of the error status for a device that could not be opened.
pub open spec fn open_failure_message(why: Seq<char>) -> Seq<char> {
    "Could not open device: "@ + why
}

/// A session that has not opened its device yet.
pub open spec fn initial(vendor_id: u16, product_id: u16) -> SessionView {
    SessionView { vendor_id, product_id, phase: Phase::Connecting, pending: Seq::empty() }
}

/// What the driver of a session in state `s` does next.
pub open spec fn action_of(s: SessionView) -> Action {
    match s.phase {
        Phase::Connecting => Action::Open { vendor_id: s.vendor_id, product_id: s.product_id },
        Phase::Connected => Action::Read { timeout_ms: READ_TIMEOUT_MS, capacity: REPORT_SIZE },
        Phase::Ended => Action::Stop,
    }
}

/// The state after `event` and what is reported for it.
///
/// * Connecting: an opened device connects the session and is reported; a
///   failure to open ends the session with one error status.
/// * Connected: data is fed to the framer and every completed code is
///   reported; a failed read ends the session with one disconnect.
/// * Any other event changes nothing and reports nothing.
pub open spec fn step(s: SessionView, event: EventView) -> (SessionView, Seq<NotificationView>) {
    match (s.phase, event) {
        (Phase::Connecting, EventView::Opened) => (
            SessionView { phase: Phase::Connected, ..s },
            seq![NotificationView::Status(StatusView::Connected)],
        ),
        (Phase::Connecting, EventView::OpenFailed(why)) => (
            SessionView { phase: Phase::Ended, ..s },
            seq![NotificationView::Status(StatusView::Error(open_failure_message(why)))],
        ),
        (Phase::Connected, EventView::Data(bytes)) => (
            SessionView { pending: pending_fragment(s.pending + decoded(bytes)), ..s },
            scans(scan_codes(s.pending + decoded(bytes))),
        ),
        (Phase::Connected, EventView::ReadFailed) => (
            SessionView { phase: Phase::Ended, ..s },
            seq![NotificationView::Status(StatusView::Disconnected)],
        ),
        _ => (s, Seq::empty()),
    }
}

/// The state after a run of events and everything reported for them, in
/// order.
pub open spec fn run(s: SessionView, trace: Seq<EventView>) -> (SessionView, Seq<NotificationView>)
    decreases trace.len(),
{
    if trace.len() == 0 {
        (s, Seq::empty())
    } else {
        let (mid, first) = step(s, trace[0]);
        let (end, rest) = run(mid, trace.drop_first());
        (end, first + rest)
    }
}

/// How far a session has come: it only ever moves forward.
pub open spec fn progress(phase: Phase) -> nat {
    match phase {
        Phase::Connecting => 0,
        Phase::Connected => 1,
        Phase::Ended => 2,
    }
}

/// The events of a run of reads that all succeed.
pub open spec fn data_events(reads: Seq<Seq<u8>>) -> Seq<EventView> {
    reads.map_values(|bytes: Seq<u8>| EventView::Data(bytes))
}

/// The text of a run of reads: every chunk decoded on its own, in order.
pub open spec fn stream_text(reads: Seq<Seq<u8>>) -> Seq<char>
    decreases reads.len(),
{
    if reads.len() == 0 {
        Seq::empty()
    } else {
        decoded(reads[0]) + stream_text(reads.drop_first())
    }
}

/// The channel on which a notification goes out.
pub open spec fn channel_of(note: NotificationView) -> Channel {
    match note {
        NotificationView::Status(StatusView::Connected) => Channel::Status,
        NotificationView::Status(StatusView::Disconnected) => Channel::Status,
        NotificationView::Status(StatusView::Error(_)) => Channel::Error,
        NotificationView::Scan(_) => Channel::Data,
    }
}

/// The text that a notification carries: the name of the state, the error
/// message, or the scan code.
pub open spec fn text_of(note: NotificationView) -> Seq<char> {
    match note {
        NotificationView::Status(StatusView::Connected) => "Connected"@,
        NotificationView::Status(StatusView::Disconnected) => "Disconnected"@,
        NotificationView::Status(StatusView::Error(message)) => message,
        NotificationView::Scan(code) => code,
    }
}

impl Channel {
    /// The name of the event that carries this channel.
    pub fn event_name(&self) -> (name: String)
        ensures
            name@ == match *self {
                Channel::Status => "scanner-status"@,
                Channel::Error => "scanner-error"@,
                Channel::Data => "scanner-data"@,
            },
    {
        match self {
            Channel::Status => String::from_str("scanner-status"),
            Channel::Error => String::from_str("scanner-error"),
            Channel::Data => String::from_str("scanner-data"),
        }
    }
}

impl Notification {
    /// The channel on which this notification goes out.
    pub fn channel(&self) -> (channel: Channel)
        ensures
            channel == channel_of(self@),
    {
        match self {
            Notification::Status(ConnectionStatus::Error(_)) => Channel::Error,
            Notification::Status(_) => Channel::Status,
            Notification::Scan(_) => Channel::Data,
        }
    }

    /// The text that this notification carries.
    pub fn text(&self) -> (text: String)
        ensures
            text@ == text_of(self@),
    {
        match self {
            Notification::Status(ConnectionStatus::Connected) => String::from_str("Connected"),
            Notification::Status(ConnectionStatus::Disconnected) => String::from_str(
                "Disconnected",
            ),
            Notification::Status(ConnectionStatus::Error(message)) => message.clone(),
            Notification::Scan(code) => code.clone(),
        }
    }
}

impl StartError {
    /// The failure text handed to the caller of a start request.
    pub fn message(&self) -> (text: String)
        ensures
            text@ == match *self {
                StartError::InvalidVendorId => "Invalid Vendor ID format"@,
                StartError::InvalidProductId => "Invalid Product ID format"@,
            },
    {
        match self {
            StartError::InvalidVendorId => String::from_str("Invalid Vendor ID format"),
            StartError::InvalidProductId => String::from_str("Invalid Product ID format"),
        }
    }
}

/// One session against one device.
#[derive(Debug)]
pub struct Session {
    vendor_id: u16,
    product_id: u16,
    phase: Phase,
    framer: Framer,
}

impl View for Session {
    type V = SessionView;

    closed spec fn view(&self) -> SessionView {
        SessionView {
            vendor_id: self.vendor_id,
            product_id: self.product_id,
            phase: self.phase,
            pending: self.framer@,
        }
    }
}

impl Session {
    /// A session for the device with these identifiers, not yet opened.
    pub fn new(vendor_id: u16, product_id: u16) -> (session: Session)
        ensures
            session@ == initial(vendor_id, product_id),
    {
        Session { vendor_id, product_id, phase: Phase::Connecting, framer: Framer::new() }
    }

    /// Where the session stands.
    pub fn phase(&self) -> (phase: Phase)
        ensures
            phase == self@.phase,
    {
        self.phase
    }

    /// The vendor identifier of the device.
    pub fn vendor_id(&self) -> (id: u16)
        ensures
            id == self@.vendor_id,
    {
        self.vendor_id
    }

    /// The product identifier of the device.
    pub fn product_id(&self) -> (id: u16)
        ensures
            id == self@.product_id,
    {
        self.product_id
    }

    /// What the driver does next: open the device, read from it, or stop.
    pub fn next_action(&self) -> (action: Action)
        ensures
            action == action_of(self@),
    {
        match self.phase {
            Phase::Connecting => Action::Open {
                vendor_id: self.vendor_id,
                product_id: self.product_id,
            },
            Phase::Connected => Action::Read { timeout_ms: READ_TIMEOUT_MS, capacity: REPORT_SIZE },
            Phase::Ended => Action::Stop,
        }
    }

    /// Takes in what happened at the device and hands out what to report
    /// for it, in order.
    pub fn handle(&mut self, event: &DeviceEvent) -> (reports: Vec<Notification>)
        ensures
            final(self)@ == step(old(self)@, event@).0,
            notes(reports@) == step(old(self)@, event@).1,
            unbroken(final(self)@.pending),
    {
        let mut reports: Vec<Notification> = Vec::new();
        proof {
            use_type_invariant(&self.framer);
        }
        match self.phase {
            Phase::Connecting => match event {
                DeviceEvent::Opened => {
                    self.phase = Phase::Connected;
                    reports.push(Notification::Status(ConnectionStatus::Connected));
                },
                DeviceEvent::OpenFailed(why) => {
                    let mut message = String::from_str("Could not open device: ");
                    message.append(why.as_str());
                    self.phase = Phase::Ended;
                    reports.push(Notification::Status(ConnectionStatus::Error(message)));
                },
                _ => {},
            },
            Phase::Connected => match event {
                DeviceEvent::Data(bytes) => {
                    let codes = self.framer.feed(bytes.as_slice());
                    let mut at: usize = 0;
                    while at < codes.len()
                        invariant
                            at <= codes.len(),
                            reports.len() == at,
                            forall|i: int|
                                0 <= i < at ==> (#[trigger] reports[i])@ == NotificationView::Scan(
                                    codes[i]@,
                                ),
                        decreases codes.len() - at,
                    {
                        reports.push(Notification::Scan(codes[at].clone()));
                        at = at + 1;
                    }
                },
                DeviceEvent::ReadFailed => {
                    self.phase = Phase::Ended;
                    reports.push(Notification::Status(ConnectionStatus::Disconnected));
                },
                _ => {},
            },
            Phase::Ended => {},
        }
        reports
    }

    /// Takes in a whole run of events, as [`Session::handle`] would one by
    /// one, and hands out everything reported for it, in order.
    pub fn replay(&mut self, trace: &Vec<DeviceEvent>) -> (reports: Vec<Notification>)
        ensures
            final(self)@ == run(old(self)@, events(trace@)).0,
            notes(reports@) == run(old(self)@, events(trace@)).1,
            unbroken(final(self)@.pending),
    {
        let mut reports: Vec<Notification> = Vec::new();
        let ghost whole = events(trace@);
        let mut at: usize = 0;
        while at < trace.len()
            invariant
                at <= trace.len(),
                whole == events(trace@),
                (self@, notes(reports@)) == run(old(self)@, whole.take(at as int)),
            decreases trace.len() - at,
        {
            let ghost before = self@;
            let mut more = self.handle(&trace[at]);
            reports.append(&mut more);
            proof {
                let event = whole[at as int];
                assert(whole.take(at + 1) =~= whole.take(at as int) + seq![event]);
                lemma_run_concat(old(self)@, whole.take(at as int), seq![event]);
                lemma_run_one(before, event);
            }
            at = at + 1;
        }
        proof {
            assert(whole.take(at as int) =~= whole);
            use_type_invariant(&self.framer);
        }
        reports
    }
}

/// Starts a scan: reads the two identifiers and sets up the session for
/// that device. The vendor identifier is read first; the first one that
/// is malformed decides the error, and no session starts.
pub fn start_scan(vid_hex: &str, pid_hex: &str) -> (started: Result<Session, StartError>)
    ensures
        match (identifier(vid_hex@), identifier(pid_hex@)) {
            (Some(vendor_id), Some(product_id)) => {
                &&& started matches Ok(session)
                &&& session@ == initial(vendor_id, product_id)
            },
            (None, _) => started matches Err(e) && e == StartError::InvalidVendorId,
            (Some(_), None) => started matches Err(e) && e == StartError::InvalidProductId,
        },
{
    let vendor_id = match parse_id(vid_hex) {
        Ok(id) => id,
        Err(_) => {
            return Err(StartError::InvalidVendorId);
        },
    };
    let product_id = match parse_id(pid_hex) {
        Ok(id) => id,
        Err(_) => {
            return Err(StartError::InvalidProductId);
        },
    };
    Ok(Session::new(vendor_id, product_id))
}

/// A run of one event is one step.
pub proof fn lemma_run_one(s: SessionView, event: EventView)
    ensures
        run(s, seq![event]) == step(s, event),
{
    let mid = step(s, event).0;
    assert(seq![event].drop_first() =~= Seq::<EventView>::empty());
    assert(run(mid, Seq::<EventView>::empty()) == (mid, Seq::<NotificationView>::empty()));
}

/// A run may be cut anywhere: the second part continues where the first
/// ended, and the reports follow each other.
pub proof fn lemma_run_concat(s: SessionView, a: Seq<EventView>, b: Seq<EventView>)
    ensures
        run(s, a + b) == (run(run(s, a).0, b).0, run(s, a).1 + run(run(s, a).0, b).1),
    decreases a.len(),
{
    if a.len() == 0 {
        assert(a + b =~= b);
    } else {
        assert((a + b).drop_first() =~= a.drop_first() + b);
        lemma_run_concat(step(s, a[0]).0, a.drop_first(), b);
    }
}

/// Whatever happens at the device, a session keeps its device, never
/// moves back to an earlier phase, and keeps its pending fragment free of
/// line terminators.
pub proof fn law_session_advances(s: SessionView, trace: Seq<EventView>)
    ensures
        run(s, trace).0.vendor_id == s.vendor_id,
        run(s, trace).0.product_id == s.product_id,
        progress(s.phase) <= progress(run(s, trace).0.phase),
        unbroken(s.pending) ==> unbroken(run(s, trace).0.pending),
    decreases trace.len(),
{
    if trace.len() > 0 {
        let mid = step(s, trace[0]).0;
        if s.phase == Phase::Connected {
            if let EventView::Data(bytes) = trace[0] {
                lemma_pending_unbroken(s.pending + decoded(bytes));
            }
        }
        law_session_advances(mid, trace.drop_first());
    }
}

/// Once a session has ended it stays ended and reports nothing, whatever
/// happens at the device.
pub proof fn law_ended_is_silent(s: SessionView, trace: Seq<EventView>)
    requires
        s.phase == Phase::Ended,
    ensures
        run(s, trace) == (s, Seq::<NotificationView>::empty()),
    decreases trace.len(),
{
    if trace.len() > 0 {
        law_ended_is_silent(s, trace.drop_first());
    }
}

/// A connected session reports for a run of successful reads exactly the
/// scan codes of the stream, in order, and keeps the fragment that the
/// stream leaves pending. How the stream was cut into reads makes no
/// difference.
pub proof fn law_reads_report_stream(s: SessionView, reads: Seq<Seq<u8>>)
    requires
        s.phase == Phase::Connected,
        unbroken(s.pending),
    ensures
        run(s, data_events(reads)) == (
            SessionView { pending: pending_fragment(s.pending + stream_text(reads)), ..s },
            scans(scan_codes(s.pending + stream_text(reads))),
        ),
    decreases reads.len(),
{
    if reads.len() == 0 {
        lemma_unbroken_is_pending(s.pending);
    } else {
        // The first read is one step; the rest follows by induction, and
        // the cut between them changes neither codes nor pending fragment.
        let text = decoded(reads[0]);
        let rest = reads.drop_first();
        let mid = step(s, EventView::Data(reads[0])).0;
        assert(data_events(reads).drop_first() =~= data_events(rest));
        assert((s.pending + text) + stream_text(rest) =~= s.pending + stream_text(reads));
        lemma_pending_unbroken(s.pending + text);
        law_reads_report_stream(mid, rest);
        lemma_lines_split(s.pending + text, stream_text(rest));
        lemma_codes_split(s.pending + text, stream_text(rest));
        assert(scans(scan_codes(s.pending + text) + scan_codes(mid.pending + stream_text(rest)))
            =~= scans(scan_codes(s.pending + text)) + scans(
            scan_codes(mid.pending + stream_text(rest)),
        ));
    }
}

/// A session whose device opens and then fails a read after any number of
/// successful reads reports: connected, then the scan codes completed in
/// those reads, in order, then disconnected, once, and nothing more,
/// whatever follows.
pub proof fn law_read_failure_ends_session(
    vendor_id: u16,
    product_id: u16,
    reads: Seq<Seq<u8>>,
    after: Seq<EventView>,
)
    ensures
        run(
            initial(vendor_id, product_id),
            seq![EventView::Opened] + data_events(reads) + seq![EventView::ReadFailed] + after,
        ).1 == seq![NotificationView::Status(StatusView::Connected)] + scans(
            scan_codes(stream_text(reads)),
        ) + seq![NotificationView::Status(StatusView::Disconnected)],
        run(
            initial(vendor_id, product_id),
            seq![EventView::Opened] + data_events(reads) + seq![EventView::ReadFailed] + after,
        ).0.phase == Phase::Ended,
{
    let start = initial(vendor_id, product_id);
    let open = seq![EventView::Opened];
    let fail = seq![EventView::ReadFailed];
    let connected = SessionView { phase: Phase::Connected, ..start };
    let reading = SessionView { pending: pending_fragment(stream_text(reads)), ..connected };
    let ended = SessionView { phase: Phase::Ended, ..reading };
    lemma_run_one(start, EventView::Opened);
    law_reads_report_stream(connected, reads);
    lemma_run_one(reading, EventView::ReadFailed);
    law_ended_is_silent(ended, after);
    lemma_run_concat(start, open, data_events(reads));
    lemma_run_concat(start, open + data_events(reads), fail);
    lemma_run_concat(start, open + data_events(reads) + fail, after);
    assert(connected.pending + stream_text(reads) =~= stream_text(reads));
}

/// A session whose device cannot be opened reports one error status and
/// nothing else, ever: no connect and no scan code, whatever follows.
pub proof fn law_open_failure_ends_session(
    vendor_id: u16,
    product_id: u16,
    why: Seq<char>,
    after: Seq<EventView>,
)
    ensures
        run(initial(vendor_id, product_id), seq![EventView::OpenFailed(why)] + after) == (
            SessionView { phase: Phase::Ended, ..initial(vendor_id, product_id) },
            seq![NotificationView::Status(StatusView::Error(open_failure_message(why)))],
        ),
{
    let start = initial(vendor_id, product_id);
    let ended = SessionView { phase: Phase::Ended, ..start };
    lemma_run_one(start, EventView::OpenFailed(why));
    law_ended_is_silent(ended, after);
    lemma_run_concat(start, seq![EventView::OpenFailed(why)], after);
}

} // verus!
