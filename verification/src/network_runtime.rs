//! The gateway session: its states, the buffer that puts numbered events
//! back in order, and what the session does on each thing that happens.
use crate::conf::BotConfig;
use crate::text::{decimal, decimal_digits};
use crate::utils::ExponentRegress;
use crate::ws::{
    KookEventMessage, KookWSFrame, WS_HELLO, WS_PONG, WS_RECONNECT, WS_RESUME_ACK,
};
use vstd::arithmetic::power::pow;
use vstd::prelude::*;
use vstd::string::StringExecFns;

verus! {

/// What the session tells its subscribers.
#[derive(Debug, Clone)]
pub enum BotNetworkEvent {
    Connect(),
    Heart(),
    Error(),
    Shutdown(),
    Message(Box<KookEventMessage>),
}

/// The session record that is kept on disk.
#[derive(Debug)]
pub struct BotStore {
    pub session_id: String,
    pub sn: u64,
    pub gateway: String,
}

impl BotStore {
    /// A session record.
    pub fn new(session_id: String, sn: u64, gateway: String) -> (r: Self)
        ensures
            r.session_id == session_id,
            r.sn == sn,
            r.gateway == gateway,
    {
        BotStore { session_id, sn, gateway }
    }
}

/// Where the session stands.
#[derive(Debug, Clone, Copy, PartialEq, Eq, Structural)]
pub enum BotState {
    /// Ask the platform for a gateway.
    GetGateway,
    /// A gateway is known: connect to it.
    ConnectGateway,
    /// Connected: heartbeats and frames.
    Working,
    /// The heartbeat went unanswered: connect again.
    HeartTimeout,
    /// The server asked to start over: ask for a gateway.
    Reconnect,
    /// A session record was found at start: resume it.
    Resume,
}

/// Seconds to wait before asking for a gateway again.
pub const GATEWAY_RETRY_SECS: u64 = 4;

/// After this many failed connections in a row the session asks for a new
/// gateway.
pub const CONNECT_RETRY_LIMIT: u64 = 3;

/// Seconds between two heartbeats.
pub const HEARTBEAT_SECS: u64 = 30;

/// After this many unanswered heartbeats in a row the session stops
/// working.
pub const PONG_TIMEOUT_LIMIT: u64 = 3;

/// Seconds between two writes of the session record.
pub const STORE_SYNC_SECS: u64 = 10;

/// How many subscribers' events the session's broadcast holds.
pub const EVENT_CAPACITY: usize = 64;

/// The number by which a frame is ordered: its serial number, or -1 where
/// it has none.
pub open spec fn sn_key(sn: Option<u64>) -> int {
    match sn {
        Some(n) => n as int,
        None => -1,
    }
}

/// The number by which `f` is ordered.
pub open spec fn sn_of<T>(f: KookWSFrame<T>) -> int {
    sn_key(f.sn)
}

/// Frames in ascending order of serial number.
pub open spec fn sorted<T>(s: Seq<KookWSFrame<T>>) -> bool {
    forall|i: int, j: int| 0 <= i < j < s.len() ==> sn_of(s[i]) <= sn_of(s[j])
}

/// Frames in strictly ascending order of serial number: sorted, and no
/// number twice.
pub open spec fn strictly_sorted<T>(s: Seq<KookWSFrame<T>>) -> bool {
    forall|i: int, j: int| 0 <= i < j < s.len() ==> sn_of(s[i]) < sn_of(s[j])
}

/// Whether a frame of `frames` carries the number `x`.
pub open spec fn has_sn<T>(frames: Seq<KookWSFrame<T>>, x: int) -> bool {
    exists|i: int| 0 <= i < frames.len() && sn_of(#[trigger] frames[i]) == x
}

/// How many frames at the front of `s` have a number up to `n`.
pub open spec fn insert_at<T>(s: Seq<KookWSFrame<T>>, n: int) -> nat
    decreases s.len(),
{
    if s.len() > 0 && sn_of(s[0]) <= n {
        1 + insert_at(s.drop_first(), n)
    } else {
        0
    }
}

/// `s` with `f` put behind the frames at its front whose number is no
/// larger: in a sorted buffer, at the place that keeps it sorted.
pub open spec fn place<T>(s: Seq<KookWSFrame<T>>, f: KookWSFrame<T>) -> Seq<KookWSFrame<T>> {
    s.insert(insert_at(s, sn_of(f)) as int, f)
}

/// The buffer `s` once the frame `f` arrived: `f` stands in its place,
/// unless a frame of its number waits already; then the frame that waits
/// stays and `f` is dropped.
pub open spec fn enqueue<T>(s: Seq<KookWSFrame<T>>, f: KookWSFrame<T>) -> Seq<KookWSFrame<T>> {
    if has_sn(s, sn_of(f)) {
        s
    } else {
        place(s, f)
    }
}

/// How many frames leave the front of `s` when the last number handed on
/// is `cur`: the first while its number is the next one.
pub open spec fn ready<T>(s: Seq<KookWSFrame<T>>, cur: int) -> nat
    decreases s.len(),
{
    if s.len() > 0 && sn_of(s[0]) == cur + 1 {
        1 + ready(s.drop_first(), cur + 1)
    } else {
        0
    }
}

/// Of the frames `s`, those that are handed on to subscribers, in order.
pub open spec fn events_of<T>(s: Seq<KookWSFrame<T>>) -> Seq<KookWSFrame<T>>
    decreases s.len(),
{
    if s.len() == 0 {
        Seq::empty()
    } else if s.last().is_event() {
        events_of(s.drop_last()).push(s.last())
    } else {
        events_of(s.drop_last())
    }
}

/// `insert_at` stays within the sequence.
pub proof fn lemma_insert_at_bound<T>(s: Seq<KookWSFrame<T>>, n: int)
    ensures
        insert_at(s, n) <= s.len(),
    decreases s.len(),
{
    if s.len() > 0 && sn_of(s[0]) <= n {
        lemma_insert_at_bound(s.drop_first(), n);
    }
}

/// In a sorted buffer `insert_at` parts the frames with a number up to `n`
/// from those with a larger one.
pub proof fn lemma_insert_at_parts<T>(s: Seq<KookWSFrame<T>>, n: int)
    requires
        sorted(s),
    ensures
        insert_at(s, n) <= s.len(),
        forall|i: int| 0 <= i < insert_at(s, n) ==> sn_of(#[trigger] s[i]) <= n,
        forall|i: int| insert_at(s, n) <= i < s.len() ==> sn_of(#[trigger] s[i]) > n,
    decreases s.len(),
{
    if s.len() > 0 && sn_of(s[0]) <= n {
        let t = s.drop_first();
        assert(sorted(t)) by {
            assert forall|i: int, j: int| 0 <= i < j < t.len() implies sn_of(t[i]) <= sn_of(
                t[j],
            ) by {
                assert(t[i] == s[i + 1] && t[j] == s[j + 1]);
            }
        }
        lemma_insert_at_parts(t, n);
        assert forall|i: int| 0 <= i < insert_at(s, n) implies sn_of(#[trigger] s[i]) <= n by {
            if i > 0 {
                assert(s[i] == t[i - 1]);
            }
        }
        assert forall|i: int| insert_at(s, n) <= i < s.len() implies sn_of(#[trigger] s[i])
            > n by {
            assert(s[i] == t[i - 1]);
        }
    } else if s.len() > 0 {
        assert forall|i: int| 0 <= i < s.len() implies sn_of(#[trigger] s[i]) > n by {
            if i > 0 {
                assert(sn_of(s[0]) <= sn_of(s[i]));
            }
        }
    }
}

/// What is left of a buffer without a number twice behind its front is
/// without a number twice.
pub proof fn lemma_skip_strict<T>(s: Seq<KookWSFrame<T>>, k: int)
    requires
        strictly_sorted(s),
        0 <= k <= s.len(),
    ensures
        strictly_sorted(s.skip(k)),
{
    let t = s.skip(k);
    assert forall|i: int, j: int| 0 <= i < j < t.len() implies sn_of(t[i]) < sn_of(t[j]) by {
        assert(t[i] == s[i + k] && t[j] == s[j + k]);
    }
}

/// The frames that leave the front carry the numbers that follow `cur`,
/// one after the other, and none of them is past the largest number.
pub proof fn lemma_ready<T>(s: Seq<KookWSFrame<T>>, cur: int)
    requires
        cur >= 0,
    ensures
        ready(s, cur) <= s.len(),
        forall|i: int| 0 <= i < ready(s, cur) ==> sn_of(#[trigger] s[i]) == cur + 1 + i,
        ready(s, cur) < s.len() ==> sn_of(s[ready(s, cur) as int]) != cur + ready(s, cur) + 1,
        cur <= u64::MAX ==> cur + ready(s, cur) <= u64::MAX,
    decreases s.len(),
{
    if s.len() > 0 && sn_of(s[0]) == cur + 1 {
        let t = s.drop_first();
        lemma_ready(t, cur + 1);
        assert forall|i: int| 0 <= i < ready(s, cur) implies sn_of(#[trigger] s[i]) == cur + 1
            + i by {
            if i > 0 {
                assert(s[i] == t[i - 1]);
            }
        }
        if ready(s, cur) < s.len() {
            assert(s[ready(s, cur) as int] == t[ready(t, cur + 1) as int]);
        }
    }
}

fn sn_le(a: Option<u64>, b: Option<u64>) -> (r: bool)
    ensures
        r == (sn_key(a) <= sn_key(b)),
{
    match a {
        None => true,
        Some(x) => match b {
            None => false,
            Some(y) => x <= y,
        },
    }
}

/// The frames that wait for their turn, in ascending order of serial
/// number. Of each number one frame waits at most: the first that came.
pub struct EventBuffer<T> {
    frames: Vec<KookWSFrame<T>>,
}

impl<T> EventBuffer<T> {
    /// The waiting frames, the next to leave first.
    pub closed spec fn view(&self) -> Seq<KookWSFrame<T>> {
        self.frames@
    }

    /// The frames stand in ascending order, no number twice.
    pub open spec fn wf(&self) -> bool {
        strictly_sorted(self@)
    }

    /// A buffer that holds nothing.
    pub fn new() -> (r: Self)
        ensures
            r@ == Seq::<KookWSFrame<T>>::empty(),
            r.wf(),
    {
        EventBuffer { frames: Vec::new() }
    }

    /// How many frames wait.
    pub fn len(&self) -> (r: usize)
        ensures
            r == self@.len(),
    {
        self.frames.len()
    }

    /// Drops every waiting frame.
    pub fn clear(&mut self)
        ensures
            final(self)@ == Seq::<KookWSFrame<T>>::empty(),
            final(self).wf(),
    {
        self.frames.clear();
    }

    /// Puts `frame` in its place. A frame whose number waits already is
    /// dropped: what the server sends again is stored once.
    pub fn push(&mut self, frame: KookWSFrame<T>)
        ensures
            final(self)@ == enqueue(old(self)@, frame),
            old(self).wf() ==> final(self).wf(),
    {
        let mut j: usize = 0;
        while j < self.frames.len()
            invariant
                j <= self.frames.len(),
                self.frames@ == old(self).frames@,
                forall|m: int| 0 <= m < j ==> sn_of(#[trigger] self.frames@[m]) != sn_of(frame),
            decreases self.frames.len() - j,
        {
            if sn_le(self.frames[j].sn, frame.sn) && sn_le(frame.sn, self.frames[j].sn) {
                proof {
                    assert(sn_of(self.frames@[j as int]) == sn_of(frame));
                }
                return ;
            }
            j += 1;
        }
        let mut i: usize = 0;
        proof {
            assert(!has_sn(self.frames@, sn_of(frame)));
            assert(self.frames@.skip(0) =~= self.frames@);
        }
        while i < self.frames.len() && sn_le(self.frames[i].sn, frame.sn)
            invariant
                i <= self.frames.len(),
                self.frames@ == old(self).frames@,
                insert_at(self.frames@, sn_of(frame)) == i + insert_at(
                    self.frames@.skip(i as int),
                    sn_of(frame),
                ),
            decreases self.frames.len() - i,
        {
            proof {
                assert(self.frames@.skip(i as int).drop_first() =~= self.frames@.skip(i + 1));
            }
            i += 1;
        }
        proof {
            if old(self).wf() {
                lemma_enqueue_strict(old(self)@, frame);
            }
        }
        self.frames.insert(i, frame);
    }

    /// Takes from the front the frames whose turn has come when the last
    /// number handed on is `cur`: the numbers that follow `cur` without a
    /// gap.
    pub fn release(&mut self, cur: u64) -> (out: Vec<KookWSFrame<T>>)
        ensures
            out@ == old(self)@.take(ready(old(self)@, cur as int) as int),
            final(self)@ == old(self)@.skip(ready(old(self)@, cur as int) as int),
            cur + out@.len() <= u64::MAX,
            old(self).wf() ==> final(self).wf(),
    {
        let mut out: Vec<KookWSFrame<T>> = Vec::new();
        let mut next: u64 = cur;
        let ghost start = self.frames@;
        proof {
            lemma_ready(start, cur as int);
            assert(start.skip(0) =~= start);
            assert(start.take(0) =~= out@);
        }
        while next < u64::MAX && self.frames.len() > 0 && sn_le(self.frames[0].sn, Some(next + 1))
            && sn_le(Some(next + 1), self.frames[0].sn)
            invariant
                out@.len() <= start.len(),
                next == cur + out@.len(),
                out@ == start.take(out@.len() as int),
                self.frames@ == start.skip(out@.len() as int),
                ready(start, cur as int) == out@.len() + ready(self.frames@, next as int),
            decreases self.frames.len(),
        {
            let ghost before = self.frames@;
            let ghost k = out@.len() as int;
            let f = self.frames.remove(0);
            proof {
                assert(self.frames@ =~= before.drop_first());
                assert(f == start[k]);
            }
            out.push(f);
            proof {
                assert(out@ =~= start.take(k + 1));
                assert(self.frames@ =~= start.skip(k + 1));
            }
            next = next + 1;
        }
        proof {
            if old(self).wf() {
                lemma_skip_strict(start, out@.len() as int);
            }
        }
        out
    }
}

/// The characters of a text that may be absent.
pub open spec fn opt_text(o: Option<String>) -> Option<Seq<char>> {
    match o {
        Some(s) => Some(s@),
        None => None,
    }
}

/// The seconds that the schedule of base two gives at exponent `exp`;
/// where that is past the machine's range, the largest pause there is.
pub open spec fn pause_of(exp: nat) -> u64 {
    if pow(2, exp) <= usize::MAX {
        pow(2, exp) as u64
    } else {
        u64::MAX
    }
}

/// The exponent after the pause at `exp` was handed out: one more, unless
/// the schedule is at the end of the machine's range and stays.
pub open spec fn exponent_after_pause(exp: nat) -> nat {
    if pow(2, exp) <= usize::MAX {
        exp + 1
    } else {
        exp
    }
}

/// The address at which a session is resumed.
pub open spec fn resume_url(gateway: Seq<char>, sn: u64, session_id: Seq<char>) -> Seq<char> {
    gateway + "&resume=1&sn="@ + decimal_digits(sn as nat) + "&session_id="@ + session_id
}

/// What the session is, for its contracts.
pub struct SessionView<T> {
    pub state: BotState,
    pub gateway_url: Option<Seq<char>>,
    pub gateway_resume_url: Option<Seq<char>>,
    pub session_id: Option<Seq<char>>,
    /// The serial number of the last event handed on.
    pub sn: u64,
    /// The frames that wait for their turn.
    pub pending: Seq<KookWSFrame<T>>,
    /// Failed connections in a row.
    pub connect_failures: nat,
    /// Exponent of the pause after the next failed connection.
    pub connect_exponent: nat,
    /// Whether a heartbeat waits for its answer.
    pub awaiting_pong: bool,
    /// Unanswered heartbeats in a row.
    pub pong_timeouts: nat,
    /// Exponent of the time the next heartbeat waits for its answer.
    pub pong_exponent: nat,
}

/// What the driver of the session does next.
#[derive(Debug)]
pub enum SessionStep {
    /// Ask the platform for a gateway and report with `on_gateway`.
    GetGateway,
    /// Open a socket to this address and report with `on_connect`.
    Connect(String),
    /// Run heartbeats, frames and the record's timer.
    Work,
}

/// What became of an attempt to connect.
#[derive(Debug, Clone, Copy, PartialEq, Eq, Structural)]
pub enum ConnectOutcome {
    /// The session works: tell the subscribers `Connect`.
    Connected,
    /// Wait this many seconds, then take the next step.
    Retry(u64),
    /// The session was not connecting.
    Ignored,
}

/// A heartbeat to send, and how long to wait for its answer.
#[derive(Debug)]
pub struct Heartbeat<T> {
    pub ping: KookWSFrame<T>,
    pub wait_secs: u64,
}

/// What a frame is to the session.
#[derive(Debug, Clone, Copy, PartialEq, Eq, Structural)]
pub enum FrameKind {
    /// Says nothing, is known already, or came while the session was not
    /// working.
    Ignored,
    /// Answers a heartbeat.
    Pong,
    /// Greets, or grants a resume.
    Hello,
    /// Asks to start over.
    Reconnect,
    /// A numbered event that is new.
    Event,
}

/// What a frame did to the session.
#[derive(Debug)]
pub enum FrameOutcome<T> {
    /// Nothing.
    Ignored,
    /// A heartbeat was answered: tell the subscribers `Heart`.
    Pong,
    /// The session's name was noted, where the frame gave one.
    Hello,
    /// The session starts over.
    Reconnect,
    /// The event was buffered; these events are handed on, in this order.
    Events(Vec<KookWSFrame<T>>),
}

impl<T> SessionView<T> {
    /// What holds of every session: a gateway is known once the session
    /// got past asking for one, a session to resume has a name, and the
    /// waiting frames are sorted, no number twice, each of them past the
    /// number that is next in turn.
    pub open spec fn wf(self) -> bool {
        &&& self.state != BotState::GetGateway ==> self.gateway_url is Some
        &&& self.state == BotState::Resume ==> self.session_id is Some
        &&& self.connect_exponent >= 1
        &&& self.pong_exponent >= 1
        &&& strictly_sorted(self.pending)
        &&& forall|j: int|
            0 <= j < self.pending.len() ==> sn_of(#[trigger] self.pending[j]) > self.sn + 1
    }

    /// The address to connect to: that of the resume where there is one,
    /// else the gateway.
    pub open spec fn connect_url(self) -> Seq<char> {
        match self.gateway_resume_url {
            Some(u) => u,
            None => match self.gateway_url {
                Some(u) => u,
                None => Seq::empty(),
            },
        }
    }

    /// The session once its next step is taken: a resume becomes a
    /// connection to the resume address.
    pub open spec fn after_next_step(self) -> Self {
        if self.state == BotState::Resume {
            SessionView {
                state: BotState::ConnectGateway,
                gateway_resume_url: Some(
                    resume_url(self.gateway_url->0, self.sn, self.session_id->0),
                ),
                ..self
            }
        } else {
            self
        }
    }

    /// Whether the session asks for a gateway.
    pub open spec fn wants_gateway(self) -> bool {
        self.state == BotState::GetGateway || self.state == BotState::Reconnect
    }

    /// Whether the session connects.
    pub open spec fn connecting(self) -> bool {
        self.state == BotState::ConnectGateway || self.state == BotState::HeartTimeout
    }

    /// The session once the platform answered the request for a gateway.
    pub open spec fn after_gateway(self, url: Option<Seq<char>>) -> Self {
        if self.wants_gateway() && url is Some {
            SessionView { state: BotState::ConnectGateway, gateway_url: url, ..self }
        } else {
            self
        }
    }

    /// The session once an attempt to connect ended.
    pub open spec fn after_connect(self, connected: bool) -> Self {
        if !self.connecting() {
            self
        } else if connected {
            SessionView {
                state: BotState::Working,
                connect_failures: 0,
                connect_exponent: 1,
                awaiting_pong: false,
                pong_timeouts: 0,
                pong_exponent: 2,
                ..self
            }
        } else {
            let failures = if self.connect_failures < u64::MAX {
                self.connect_failures + 1
            } else {
                self.connect_failures
            };
            SessionView {
                state: if failures >= CONNECT_RETRY_LIMIT {
                    BotState::GetGateway
                } else {
                    self.state
                },
                connect_failures: failures,
                connect_exponent: exponent_after_pause(self.connect_exponent),
                ..self
            }
        }
    }

    /// The session once a heartbeat was sent.
    pub open spec fn after_heartbeat(self) -> Self {
        if self.state == BotState::Working {
            SessionView {
                awaiting_pong: true,
                pong_exponent: exponent_after_pause(self.pong_exponent),
                ..self
            }
        } else {
            self
        }
    }

    /// The session once the wait for a heartbeat's answer ran out.
    pub open spec fn after_pong_timeout(self) -> Self {
        if self.state == BotState::Working && self.awaiting_pong {
            let timeouts = if self.pong_timeouts < u64::MAX {
                self.pong_timeouts + 1
            } else {
                self.pong_timeouts
            };
            SessionView {
                state: if timeouts >= PONG_TIMEOUT_LIMIT {
                    BotState::HeartTimeout
                } else {
                    self.state
                },
                awaiting_pong: false,
                pong_timeouts: timeouts,
                ..self
            }
        } else {
            self
        }
    }

    /// What the frame `f` is to the session.
    pub open spec fn frame_kind(self, f: KookWSFrame<T>) -> FrameKind {
        if self.state != BotState::Working || f.is_blank() {
            FrameKind::Ignored
        } else {
            match f.sn {
                None => if f.s == WS_PONG {
                    FrameKind::Pong
                } else if f.s == WS_RECONNECT {
                    FrameKind::Reconnect
                } else if f.s == WS_HELLO || f.s == WS_RESUME_ACK {
                    FrameKind::Hello
                } else {
                    FrameKind::Ignored
                },
                Some(n) => if n <= self.sn {
                    FrameKind::Ignored
                } else {
                    FrameKind::Event
                },
            }
        }
    }

    /// The frames whose turn comes when `f` arrives as a new event.
    pub open spec fn released_by(self, f: KookWSFrame<T>) -> Seq<KookWSFrame<T>> {
        let q = enqueue(self.pending, f);
        q.take(ready(q, self.sn as int) as int)
    }

    /// The session once the frame `f` arrived; `session_id` is the name
    /// that its payload gives to the session, where it gives one.
    pub open spec fn after_frame(self, f: KookWSFrame<T>, session_id: Option<Seq<char>>) -> Self {
        match self.frame_kind(f) {
            FrameKind::Ignored => self,
            FrameKind::Pong => if self.awaiting_pong {
                SessionView { awaiting_pong: false, pong_timeouts: 0, pong_exponent: 2, ..self }
            } else {
                self
            },
            FrameKind::Hello => if session_id is Some {
                SessionView { session_id: session_id, ..self }
            } else {
                self
            },
            FrameKind::Reconnect => SessionView {
                state: BotState::Reconnect,
                sn: 0,
                session_id: None,
                gateway_resume_url: None,
                pending: Seq::empty(),
                ..self
            },
            FrameKind::Event => {
                let q = enqueue(self.pending, f);
                let k = ready(q, self.sn as int);
                SessionView { sn: (self.sn + k) as u64, pending: q.skip(k as int), ..self }
            },
        }
    }

    /// The session once its work failed: it asks for a gateway again.
    pub open spec fn after_work_error(self) -> Self {
        if self.state == BotState::Working {
            SessionView { state: BotState::GetGateway, ..self }
        } else {
            self
        }
    }
}

/// The gateway session: what it knows, and what it decides on each thing
/// that happens. Its driver does the waiting, the sending and the reading.
pub struct BotNetworkRuntime<T> {
    state: BotState,
    conf: BotConfig,
    gateway_url: Option<String>,
    gateway_resume_url: Option<String>,
    session_id: Option<String>,
    sn: u64,
    wait_process_event_map: EventBuffer<T>,
    connect_failures: u64,
    connect_backoff: ExponentRegress,
    awaiting_pong: bool,
    pong_timeouts: u64,
    pong_backoff: ExponentRegress,
}

fn clone_opt(o: &Option<String>) -> (r: Option<String>)
    ensures
        opt_text(r) == opt_text(*o),
{
    match o {
        Some(s) => Some(s.clone()),
        None => None,
    }
}

fn pause(schedule: &mut ExponentRegress) -> (r: u64)
    requires
        old(schedule).wf(),
        old(schedule).base() == 2,
    ensures
        final(schedule).wf(),
        final(schedule).base() == 2,
        r == pause_of(old(schedule).exponent()),
        final(schedule).exponent() == exponent_after_pause(old(schedule).exponent()),
{
    proof {
        vstd::arithmetic::power::lemma_pow_positive(2, schedule.exponent());
    }
    match schedule.try_get() {
        Some(v) => v as u64,
        None => u64::MAX,
    }
}

impl<T> BotNetworkRuntime<T> {
    /// The session, for its contracts.
    pub closed spec fn view(&self) -> SessionView<T> {
        SessionView {
            state: self.state,
            gateway_url: opt_text(self.gateway_url),
            gateway_resume_url: opt_text(self.gateway_resume_url),
            session_id: opt_text(self.session_id),
            sn: self.sn,
            pending: self.wait_process_event_map@,
            connect_failures: self.connect_failures as nat,
            connect_exponent: self.connect_backoff.exponent(),
            awaiting_pong: self.awaiting_pong,
            pong_timeouts: self.pong_timeouts as nat,
            pong_exponent: self.pong_backoff.exponent(),
        }
    }

    /// The session is as every session is.
    pub closed spec fn wf(&self) -> bool {
        &&& self@.wf()
        &&& self.connect_backoff.wf()
        &&& self.connect_backoff.base() == 2
        &&& self.pong_backoff.wf()
        &&& self.pong_backoff.base() == 2
    }

    /// What a well-formed session is, for its contracts, is well formed:
    /// the laws of sessions hold of it.
    pub proof fn lemma_wf(&self)
        requires
            self.wf(),
        ensures
            self@.wf(),
    {
    }

    /// The configuration the session was made with.
    pub closed spec fn conf(&self) -> BotConfig {
        self.conf
    }

    /// A session at its start. With a session record it resumes where the
    /// record stands; without one it asks for a gateway.
    pub fn init(conf: BotConfig, record: Option<BotStore>) -> (r: Self)
        ensures
            r.wf(),
            r.conf() == conf,
            r@ == (SessionView::<T> {
                state: if record is Some {
                    BotState::Resume
                } else {
                    BotState::GetGateway
                },
                gateway_url: match record {
                    Some(s) => Some(s.gateway@),
                    None => None,
                },
                gateway_resume_url: None,
                session_id: match record {
                    Some(s) => Some(s.session_id@),
                    None => None,
                },
                sn: match record {
                    Some(s) => s.sn,
                    None => 0,
                },
                pending: Seq::empty(),
                connect_failures: 0,
                connect_exponent: 1,
                awaiting_pong: false,
                pong_timeouts: 0,
                pong_exponent: 2,
            }),
    {
        let mut pong_backoff = ExponentRegress::from_base(2);
        pong_backoff.forward(1);
        let connect_backoff = ExponentRegress::from_base(2);
        let wait_process_event_map = EventBuffer::new();
        match record {
            Some(store) => BotNetworkRuntime {
                state: BotState::Resume,
                conf,
                gateway_url: Some(store.gateway),
                gateway_resume_url: None,
                session_id: Some(store.session_id),
                sn: store.sn,
                wait_process_event_map,
                connect_failures: 0,
                connect_backoff,
                awaiting_pong: false,
                pong_timeouts: 0,
                pong_backoff,
            },
            None => BotNetworkRuntime {
                state: BotState::GetGateway,
                conf,
                gateway_url: None,
                gateway_resume_url: None,
                session_id: None,
                sn: 0,
                wait_process_event_map,
                connect_failures: 0,
                connect_backoff,
                awaiting_pong: false,
                pong_timeouts: 0,
                pong_backoff,
            },
        }
    }

    /// Where the session stands.
    pub fn state(&self) -> (r: BotState)
        ensures
            r == self@.state,
    {
        self.state
    }

    /// The serial number of the last event handed on.
    pub fn sn(&self) -> (r: u64)
        ensures
            r == self@.sn,
    {
        self.sn
    }

    /// The session's name, where it has one.
    pub fn session_id(&self) -> (r: Option<String>)
        ensures
            opt_text(r) == self@.session_id,
    {
        clone_opt(&self.session_id)
    }

    /// The gateway's address, where one is known.
    pub fn gateway_url(&self) -> (r: Option<String>)
        ensures
            opt_text(r) == self@.gateway_url,
    {
        clone_opt(&self.gateway_url)
    }

    /// The address of the resume, where there is one.
    pub fn gateway_resume_url(&self) -> (r: Option<String>)
        ensures
            opt_text(r) == self@.gateway_resume_url,
    {
        clone_opt(&self.gateway_resume_url)
    }

    /// How many frames wait for their turn.
    pub fn pending_len(&self) -> (r: usize)
        ensures
            r == self@.pending.len(),
    {
        self.wait_process_event_map.len()
    }

    /// The place of the session record.
    pub fn store_path(&self) -> (r: String)
        ensures
            r@ == self.conf().store_path@,
    {
        self.conf.store_path.clone()
    }

    /// What the driver does next. A session that resumes makes up the
    /// resume address here and goes on to connect to it.
    pub fn next_step(&mut self) -> (r: SessionStep)
        requires
            old(self).wf(),
        ensures
            final(self).wf(),
            final(self).conf() == old(self).conf(),
            final(self)@ == old(self)@.after_next_step(),
            match final(self)@.state {
                BotState::GetGateway | BotState::Reconnect => r is GetGateway,
                BotState::ConnectGateway | BotState::HeartTimeout => r matches SessionStep::Connect(
                    url,
                ) && url@ == final(self)@.connect_url(),
                BotState::Working => r is Work,
                BotState::Resume => false,
            },
    {
        if self.state == BotState::Resume {
            let mut url = match &self.gateway_url {
                Some(g) => g.clone(),
                None => String::new(),
            };
            let number = decimal(self.sn);
            url.append("&resume=1&sn=");
            url.append(number.as_str());
            url.append("&session_id=");
            match &self.session_id {
                Some(id) => {
                    url.append(id.as_str());
                },
                None => {},
            }
            self.gateway_resume_url = Some(url);
            self.state = BotState::ConnectGateway;
        }
        match self.state {
            BotState::GetGateway | BotState::Reconnect => SessionStep::GetGateway,
            BotState::Working => SessionStep::Work,
            _ => {
                let url = match &self.gateway_resume_url {
                    Some(u) => u.clone(),
                    None => match &self.gateway_url {
                        Some(u) => u.clone(),
                        None => String::new(),
                    },
                };
                SessionStep::Connect(url)
            },
        }
    }

    /// Takes the platform's answer to the request for a gateway: the
    /// address, or `None` where the request failed. Returns the seconds to
    /// wait before the next step.
    pub fn on_gateway(&mut self, url: Option<String>) -> (r: u64)
        requires
            old(self).wf(),
        ensures
            final(self).wf(),
            final(self).conf() == old(self).conf(),
            final(self)@ == old(self)@.after_gateway(opt_text(url)),
            r == (if old(self)@.wants_gateway() && url is None {
                GATEWAY_RETRY_SECS
            } else {
                0
            }),
    {
        if self.state == BotState::GetGateway || self.state == BotState::Reconnect {
            match url {
                Some(u) => {
                    self.gateway_url = Some(u);
                    self.state = BotState::ConnectGateway;
                    0
                },
                None => GATEWAY_RETRY_SECS,
            }
        } else {
            0
        }
    }

    /// Takes the end of an attempt to connect.
    pub fn on_connect(&mut self, connected: bool) -> (r: ConnectOutcome)
        requires
            old(self).wf(),
        ensures
            final(self).wf(),
            final(self).conf() == old(self).conf(),
            final(self)@ == old(self)@.after_connect(connected),
            r == (if !old(self)@.connecting() {
                ConnectOutcome::Ignored
            } else if connected {
                ConnectOutcome::Connected
            } else {
                ConnectOutcome::Retry(pause_of(old(self)@.connect_exponent))
            }),
    {
        if !(self.state == BotState::ConnectGateway || self.state == BotState::HeartTimeout) {
            return ConnectOutcome::Ignored;
        }
        if connected {
            self.state = BotState::Working;
            self.connect_failures = 0;
            self.connect_backoff.reset();
            self.awaiting_pong = false;
            self.pong_timeouts = 0;
            self.pong_backoff.reset();
            self.pong_backoff.forward(1);
            ConnectOutcome::Connected
        } else {
            if self.connect_failures < u64::MAX {
                self.connect_failures = self.connect_failures + 1;
            }
            if self.connect_failures >= CONNECT_RETRY_LIMIT {
                self.state = BotState::GetGateway;
            }
            let secs = pause(&mut self.connect_backoff);
            ConnectOutcome::Retry(secs)
        }
    }

    /// The heartbeat to send now, and how long to wait for its answer;
    /// `None` where the session does not work.
    pub fn heartbeat(&mut self) -> (r: Option<Heartbeat<T>>)
        requires
            old(self).wf(),
        ensures
            final(self).wf(),
            final(self).conf() == old(self).conf(),
            final(self)@ == old(self)@.after_heartbeat(),
            old(self)@.state != BotState::Working ==> r is None,
            old(self)@.state == BotState::Working ==> (r matches Some(h) && h.ping.s
                == crate::ws::WS_PING && h.ping.d is None && h.ping.sn == Some(old(self)@.sn)
                && h.wait_secs == pause_of(old(self)@.pong_exponent)),
    {
        if self.state == BotState::Working {
            self.awaiting_pong = true;
            let wait_secs = pause(&mut self.pong_backoff);
            Some(Heartbeat { ping: KookWSFrame::ping(self.sn), wait_secs })
        } else {
            None
        }
    }

    /// Takes the running out of the wait for a heartbeat's answer. Returns
    /// whether the session still works.
    pub fn on_pong_timeout(&mut self) -> (r: bool)
        requires
            old(self).wf(),
        ensures
            final(self).wf(),
            final(self).conf() == old(self).conf(),
            final(self)@ == old(self)@.after_pong_timeout(),
            r == (final(self)@.state == BotState::Working),
    {
        if self.state == BotState::Working && self.awaiting_pong {
            self.awaiting_pong = false;
            if self.pong_timeouts < u64::MAX {
                self.pong_timeouts = self.pong_timeouts + 1;
            }
            if self.pong_timeouts >= PONG_TIMEOUT_LIMIT {
                self.state = BotState::HeartTimeout;
            }
        }
        self.state == BotState::Working
    }

    /// Takes a frame that came in. `session_id` is the name that the
    /// frame's payload gives to the session, where it gives one.
    pub fn on_frame(&mut self, frame: KookWSFrame<T>, session_id: Option<String>) -> (r:
        FrameOutcome<T>)
        requires
            old(self).wf(),
        ensures
            final(self).wf(),
            final(self).conf() == old(self).conf(),
            final(self)@ == old(self)@.after_frame(frame, opt_text(session_id)),
            match old(self)@.frame_kind(frame) {
                FrameKind::Ignored => r is Ignored,
                FrameKind::Pong => r is Pong,
                FrameKind::Hello => r is Hello,
                FrameKind::Reconnect => r is Reconnect,
                FrameKind::Event => r matches FrameOutcome::Events(events) && events@
                    == events_of(old(self)@.released_by(frame)),
            },
    {
        if self.state != BotState::Working || frame.blank() {
            return FrameOutcome::Ignored;
        }
        match frame.sn {
            None => {
                if frame.s == WS_PONG {
                    if self.awaiting_pong {
                        self.awaiting_pong = false;
                        self.pong_timeouts = 0;
                        self.pong_backoff.reset();
                        self.pong_backoff.forward(1);
                    }
                    FrameOutcome::Pong
                } else if frame.s == WS_RECONNECT {
                    self.sn = 0;
                    self.session_id = None;
                    self.gateway_resume_url = None;
                    self.wait_process_event_map.clear();
                    self.state = BotState::Reconnect;
                    FrameOutcome::Reconnect
                } else if frame.s == WS_HELLO || frame.s == WS_RESUME_ACK {
                    match session_id {
                        Some(id) => {
                            self.session_id = Some(id);
                        },
                        None => {},
                    }
                    FrameOutcome::Hello
                } else {
                    FrameOutcome::Ignored
                }
            },
            Some(n) => {
                if n <= self.sn {
                    return FrameOutcome::Ignored;
                }
                proof {
                    lemma_event_keeps_order(self.wait_process_event_map@, frame, self.sn as int);
                }
                self.wait_process_event_map.push(frame);
                proof {
                    lemma_ready(self.wait_process_event_map@, self.sn as int);
                }
                let released = self.wait_process_event_map.release(self.sn);
                self.sn = self.sn + released.len() as u64;
                let events = take_events(released);
                FrameOutcome::Events(events)
            },
        }
    }

    /// The session record as it stands now.
    pub fn store_record(&self) -> (r: BotStore)
        ensures
            r.sn == self@.sn,
            r.session_id@ == match self@.session_id {
                Some(s) => s,
                None => Seq::empty(),
            },
            r.gateway@ == match self@.gateway_url {
                Some(s) => s,
                None => Seq::empty(),
            },
    {
        let session_id = match &self.session_id {
            Some(s) => s.clone(),
            None => String::new(),
        };
        let gateway = match &self.gateway_url {
            Some(s) => s.clone(),
            None => String::new(),
        };
        BotStore::new(session_id, self.sn, gateway)
    }

    /// Takes the failure of the session's work: a socket that broke, a
    /// close, a frame that could not be read, a record that could not be
    /// written.
    pub fn on_work_error(&mut self)
        requires
            old(self).wf(),
        ensures
            final(self).wf(),
            final(self).conf() == old(self).conf(),
            final(self)@ == old(self)@.after_work_error(),
    {
        if self.state == BotState::Working {
            self.state = BotState::GetGateway;
        }
    }
}

/// Of the frames `released`, those that are handed on to subscribers.
pub fn take_events<T>(released: Vec<KookWSFrame<T>>) -> (out: Vec<KookWSFrame<T>>)
    ensures
        out@ == events_of(released@),
{
    let mut out: Vec<KookWSFrame<T>> = Vec::new();
    let ghost all = released@;
    for f in it: released
        invariant
            it.seq() == all,
            out@ == events_of(all.take(it.index() as int)),
    {
        proof {
            let k = it.index() as int;
            assert(all.take(k + 1).drop_last() =~= all.take(k));
            assert(all.take(k + 1).last() == f);
        }
        if f.event() {
            out.push(f);
        }
    }
    proof {
        assert(all.take(all.len() as int) =~= all);
    }
    out
}

/// Three heartbeats in a row that get no answer end the session's work:
/// whatever the count of unanswered heartbeats was before, after the third
/// wait has run out the session stands at `HeartTimeout`.
pub proof fn lemma_heartbeat_liveness<T>(v: SessionView<T>)
    requires
        v.state == BotState::Working,
    ensures
        v.after_heartbeat().after_pong_timeout().after_heartbeat().after_pong_timeout()
            .after_heartbeat().after_pong_timeout().state == BotState::HeartTimeout,
{
}

/// Whether every frame carries a serial number.
pub open spec fn numbered<T>(frames: Seq<KookWSFrame<T>>) -> bool {
    forall|i: int| 0 <= i < frames.len() ==> (#[trigger] frames[i]).sn is Some
}

/// The session once the frames `frames` arrived one after the other.
pub open spec fn after_frames<T>(v: SessionView<T>, frames: Seq<KookWSFrame<T>>) -> SessionView<
    T,
>
    decreases frames.len(),
{
    if frames.len() == 0 {
        v
    } else {
        after_frames(v, frames.drop_last()).after_frame(frames.last(), None)
    }
}

/// The frames whose turn came while the frames `frames` arrived one after
/// the other, in the order in which their turn came.
pub open spec fn released_over<T>(v: SessionView<T>, frames: Seq<KookWSFrame<T>>) -> Seq<
    KookWSFrame<T>,
>
    decreases frames.len(),
{
    if frames.len() == 0 {
        Seq::empty()
    } else {
        let w = after_frames(v, frames.drop_last());
        let f = frames.last();
        released_over(v, frames.drop_last()) + (if w.frame_kind(f) == FrameKind::Event {
            w.released_by(f)
        } else {
            Seq::empty()
        })
    }
}

/// Where a frame stands once it was put in its place, and where the others
/// stand.
pub proof fn lemma_place_index<T>(s: Seq<KookWSFrame<T>>, f: KookWSFrame<T>)
    ensures
        insert_at(s, sn_of(f)) <= s.len(),
        place(s, f).len() == s.len() + 1,
        place(s, f)[insert_at(s, sn_of(f)) as int] == f,
        forall|i: int| 0 <= i < insert_at(s, sn_of(f)) ==> place(s, f)[i] == s[i],
        forall|i: int| insert_at(s, sn_of(f)) < i <= s.len() ==> place(s, f)[i] == s[i - 1],
{
    lemma_insert_at_bound(s, sn_of(f));
}

/// A buffer in which a frame arrived holds the numbers it held and that of
/// the frame.
pub proof fn lemma_enqueue_has<T>(s: Seq<KookWSFrame<T>>, f: KookWSFrame<T>, y: int)
    ensures
        has_sn(enqueue(s, f), y) == (has_sn(s, y) || y == sn_of(f)),
{
    if !has_sn(s, sn_of(f)) {
        lemma_place_index(s, f);
        let q = place(s, f);
        let p = insert_at(s, sn_of(f)) as int;
        if has_sn(q, y) {
            let i = choose|i: int| 0 <= i < q.len() && sn_of(#[trigger] q[i]) == y;
            if i < p {
                assert(sn_of(s[i]) == y);
            } else if i > p {
                assert(sn_of(s[i - 1]) == y);
            }
        }
        if has_sn(s, y) {
            let j = choose|j: int| 0 <= j < s.len() && sn_of(#[trigger] s[j]) == y;
            if j < p {
                assert(sn_of(q[j]) == y);
            } else {
                assert(sn_of(q[j + 1]) == y);
            }
        }
        if y == sn_of(f) {
            assert(sn_of(q[p]) == y);
        }
    }
}

/// A buffer that holds no number twice holds none twice once a frame
/// arrived.
pub proof fn lemma_enqueue_strict<T>(s: Seq<KookWSFrame<T>>, f: KookWSFrame<T>)
    requires
        strictly_sorted(s),
    ensures
        strictly_sorted(enqueue(s, f)),
{
    if !has_sn(s, sn_of(f)) {
        assert(sorted(s));
        lemma_place_index(s, f);
        lemma_insert_at_parts(s, sn_of(f));
        let q = place(s, f);
        let p = insert_at(s, sn_of(f)) as int;
        assert forall|i: int, j: int| 0 <= i < j < q.len() implies sn_of(q[i]) < sn_of(q[j]) by {
            if j < p {
                assert(q[i] == s[i] && q[j] == s[j]);
            } else if j == p {
                assert(q[i] == s[i]);
                assert(sn_of(s[i]) <= sn_of(f));
            } else if i < p {
                assert(q[i] == s[i] && q[j] == s[j - 1]);
            } else if i == p {
                assert(q[j] == s[j - 1]);
            } else {
                assert(q[i] == s[i - 1] && q[j] == s[j - 1]);
            }
        }
    }
}

/// What is left of a buffer that holds no number twice, and none up to
/// `cur`, once the frames whose turn has come are gone: the frames with a
/// number past the last that went, none of them next in turn.
pub proof fn lemma_release_rest<T>(q: Seq<KookWSFrame<T>>, cur: int)
    requires
        cur >= 0,
        strictly_sorted(q),
        forall|i: int| 0 <= i < q.len() ==> sn_of(#[trigger] q[i]) > cur,
    ensures
        ready(q, cur) <= q.len(),
        strictly_sorted(q.skip(ready(q, cur) as int)),
        forall|j: int|
            0 <= j < q.skip(ready(q, cur) as int).len() ==> sn_of(
                #[trigger] q.skip(ready(q, cur) as int)[j],
            ) > cur + ready(q, cur) + 1,
        forall|i: int|
            0 <= i < q.len() && sn_of(#[trigger] q[i]) > cur + ready(q, cur) ==> has_sn(
                q.skip(ready(q, cur) as int),
                sn_of(q[i]),
            ),
        forall|j: int|
            0 <= j < q.skip(ready(q, cur) as int).len() ==> has_sn(
                q,
                sn_of(#[trigger] q.skip(ready(q, cur) as int)[j]),
            ),
        ready(q, cur) > 0 ==> has_sn(q, cur + ready(q, cur)),
{
    lemma_ready(q, cur);
    let k = ready(q, cur) as int;
    let rest = q.skip(k);
    assert forall|i: int, j: int| 0 <= i < j < rest.len() implies sn_of(rest[i]) < sn_of(
        rest[j],
    ) by {
        assert(rest[i] == q[i + k] && rest[j] == q[j + k]);
    }
    assert forall|j: int| 0 <= j < rest.len() implies sn_of(#[trigger] rest[j]) > cur + k
        + 1 by {
        assert(rest[j] == q[j + k]);
        if k > 0 {
            assert(sn_of(q[k - 1]) == cur + k);
            assert(sn_of(q[k - 1]) < sn_of(q[k]));
        }
        if j > 0 {
            assert(sn_of(q[k]) < sn_of(q[j + k]));
        }
    }
    assert forall|i: int| 0 <= i < q.len() && sn_of(#[trigger] q[i]) > cur + k implies has_sn(
        rest,
        sn_of(q[i]),
    ) by {
        if i < k {
            assert(sn_of(q[i]) == cur + 1 + i);
        }
        assert(rest[i - k] == q[i]);
        assert(sn_of(rest[i - k]) == sn_of(q[i]));
    }
    assert forall|j: int| 0 <= j < rest.len() implies has_sn(q, sn_of(#[trigger] rest[j])) by {
        assert(rest[j] == q[j + k]);
        assert(sn_of(q[j + k]) == sn_of(rest[j]));
    }
    if k > 0 {
        assert(sn_of(q[k - 1]) == cur + k);
    }
}

/// A buffer whose frames are past the number next in turn, none twice,
/// stays so when a frame past the session's number arrives and the frames
/// whose turn has come leave.
pub proof fn lemma_event_keeps_order<T>(s: Seq<KookWSFrame<T>>, f: KookWSFrame<T>, cur: int)
    requires
        cur >= 0,
        strictly_sorted(s),
        forall|j: int| 0 <= j < s.len() ==> sn_of(#[trigger] s[j]) > cur + 1,
        sn_of(f) > cur,
    ensures
        strictly_sorted(enqueue(s, f)),
        forall|i: int| 0 <= i < enqueue(s, f).len() ==> sn_of(#[trigger] enqueue(s, f)[i]) > cur,
        ready(enqueue(s, f), cur) <= enqueue(s, f).len(),
        strictly_sorted(enqueue(s, f).skip(ready(enqueue(s, f), cur) as int)),
        forall|j: int|
            0 <= j < enqueue(s, f).skip(ready(enqueue(s, f), cur) as int).len() ==> sn_of(
                #[trigger] enqueue(s, f).skip(ready(enqueue(s, f), cur) as int)[j],
            ) > cur + ready(enqueue(s, f), cur) + 1,
{
    let q = enqueue(s, f);
    lemma_enqueue_strict(s, f);
    assert forall|i: int| 0 <= i < q.len() implies sn_of(#[trigger] q[i]) > cur by {
        let y = sn_of(q[i]);
        assert(has_sn(q, y));
        lemma_enqueue_has(s, f, y);
        if has_sn(s, y) {
            let j = choose|j: int| 0 <= j < s.len() && sn_of(#[trigger] s[j]) == y;
            assert(sn_of(s[j]) > cur + 1);
        }
    }
    lemma_release_rest(q, cur);
}

/// In whatever order numbered frames arrive at a working session, and
/// however often each comes, the frames whose turn comes carry the serial
/// numbers that follow the one the session started with, one after the
/// other: ascending, without a gap, none twice. The session's own number is
/// that of the last of them.
pub proof fn lemma_released_in_order<T>(v: SessionView<T>, frames: Seq<KookWSFrame<T>>)
    requires
        v.wf(),
        v.state == BotState::Working,
        numbered(frames),
    ensures
        after_frames(v, frames).wf(),
        after_frames(v, frames).state == BotState::Working,
        after_frames(v, frames).sn == v.sn + released_over(v, frames).len(),
        forall|k: int|
            0 <= k < released_over(v, frames).len() ==> sn_of(
                #[trigger] released_over(v, frames)[k],
            ) == v.sn + 1 + k,
    decreases frames.len(),
{
    if frames.len() > 0 {
        let prefix = frames.drop_last();
        let f = frames.last();
        assert(numbered(prefix)) by {
            assert forall|i: int| 0 <= i < prefix.len() implies (#[trigger] prefix[i]).sn
                is Some by {
                assert(prefix[i] == frames[i]);
            }
        }
        lemma_released_in_order(v, prefix);
        let w = after_frames(v, prefix);
        let before = released_over(v, prefix);
        assert(f.sn is Some);
        if w.frame_kind(f) == FrameKind::Event {
            let q = enqueue(w.pending, f);
            lemma_event_keeps_order(w.pending, f, w.sn as int);
            lemma_ready(q, w.sn as int);
            let k = ready(q, w.sn as int) as int;
            let out = released_over(v, frames);
            assert(out == before + q.take(k));
            assert forall|j: int| 0 <= j < out.len() implies sn_of(#[trigger] out[j]) == v.sn + 1
                + j by {
                if j >= before.len() {
                    assert(out[j] == q.take(k)[j - before.len()]);
                    assert(q.take(k)[j - before.len()] == q[j - before.len()]);
                } else {
                    assert(out[j] == before[j]);
                }
            }
        } else {
            assert(w.frame_kind(f) == FrameKind::Ignored);
            assert(released_over(v, frames) =~= before);
        }
    }
}

/// What holds of a session `w` that started as `v` with nothing waiting
/// and has taken the frames `frames`: the frames that wait were taken, of
/// every number taken that is past the session's a frame waits, and the
/// session's number is the one it started with or that of a frame taken.
pub open spec fn tracks<T>(
    v: SessionView<T>,
    frames: Seq<KookWSFrame<T>>,
    w: SessionView<T>,
) -> bool {
    &&& w.sn >= v.sn
    &&& w.state == BotState::Working
    &&& w.wf()
    &&& forall|j: int|
        0 <= j < w.pending.len() ==> has_sn(frames, sn_of(#[trigger] w.pending[j]))
    &&& forall|i: int|
        0 <= i < frames.len() && sn_of(#[trigger] frames[i]) > w.sn ==> has_sn(
            w.pending,
            sn_of(frames[i]),
        )
    &&& (w.sn == v.sn || has_sn(frames, w.sn as int))
}

proof fn lemma_has_sn_grows<T>(frames: Seq<KookWSFrame<T>>, x: int)
    requires
        frames.len() > 0,
        has_sn(frames.drop_last(), x),
    ensures
        has_sn(frames, x),
{
    let prefix = frames.drop_last();
    let i = choose|i: int| 0 <= i < prefix.len() && sn_of(#[trigger] prefix[i]) == x;
    assert(prefix[i] == frames[i]);
    assert(sn_of(frames[i]) == x);
}

proof fn lemma_tracks_event<T>(
    v: SessionView<T>,
    frames: Seq<KookWSFrame<T>>,
    w: SessionView<T>,
)
    requires
        frames.len() > 0,
        numbered(frames),
        tracks(v, frames.drop_last(), w),
        w.frame_kind(frames.last()) == FrameKind::Event,
    ensures
        tracks(v, frames, w.after_frame(frames.last(), None)),
{
    let prefix = frames.drop_last();
    let f = frames.last();
    let x = sn_of(f);
    let last = frames.len() - 1;
    let s = w.pending;
    let q = enqueue(s, f);
    let cur = w.sn as int;
    lemma_event_keeps_order(s, f, cur);
    assert forall|y: int| has_sn(prefix, y) implies has_sn(frames, y) by {
        lemma_has_sn_grows(frames, y);
    }
    assert(has_sn(frames, x)) by {
        assert(sn_of(frames[last]) == x);
    }
    // Each frame of the buffer was taken.
    assert forall|i: int| 0 <= i < q.len() implies has_sn(frames, sn_of(#[trigger] q[i])) by {
        let y = sn_of(q[i]);
        assert(has_sn(q, y));
        lemma_enqueue_has(s, f, y);
        if has_sn(s, y) {
            let j = choose|j: int| 0 <= j < s.len() && sn_of(#[trigger] s[j]) == y;
            assert(has_sn(prefix, sn_of(s[j])));
        }
    }
    lemma_release_rest(q, cur);
    let k = ready(q, cur) as int;
    let rest = q.skip(k);
    let w2 = w.after_frame(f, None);
    lemma_ready(q, cur);
    assert(w2.pending == rest);
    assert(w2.sn == cur + k);
    assert forall|j: int| 0 <= j < rest.len() implies has_sn(
        frames,
        sn_of(#[trigger] rest[j]),
    ) by {
        let y = sn_of(rest[j]);
        assert(has_sn(q, y));
        let i = choose|i: int| 0 <= i < q.len() && sn_of(#[trigger] q[i]) == y;
        assert(has_sn(frames, sn_of(q[i])));
    }
    assert forall|i: int|
        0 <= i < frames.len() && sn_of(#[trigger] frames[i]) > w2.sn implies has_sn(
        rest,
        sn_of(frames[i]),
    ) by {
        let y = sn_of(frames[i]);
        lemma_enqueue_has(s, f, y);
        if i < last {
            assert(prefix[i] == frames[i]);
            assert(has_sn(s, sn_of(prefix[i])));
        }
        assert(has_sn(q, y));
        let m = choose|m: int| 0 <= m < q.len() && sn_of(#[trigger] q[m]) == y;
        assert(has_sn(rest, sn_of(q[m])));
    }
    if k > 0 {
        assert(has_sn(q, cur + k));
        let m = choose|m: int| 0 <= m < q.len() && sn_of(#[trigger] q[m]) == cur + k;
        assert(has_sn(frames, sn_of(q[m])));
    }
}

proof fn lemma_tracks_step<T>(
    v: SessionView<T>,
    frames: Seq<KookWSFrame<T>>,
    w: SessionView<T>,
)
    requires
        frames.len() > 0,
        numbered(frames),
        tracks(v, frames.drop_last(), w),
    ensures
        tracks(v, frames, w.after_frame(frames.last(), None)),
{
    let prefix = frames.drop_last();
    let f = frames.last();
    let last = frames.len() - 1;
    assert(f.sn is Some);
    if w.frame_kind(f) == FrameKind::Event {
        lemma_tracks_event(v, frames, w);
    } else {
        assert(w.after_frame(f, None) == w);
        assert forall|y: int| has_sn(prefix, y) implies has_sn(frames, y) by {
            lemma_has_sn_grows(frames, y);
        }
        assert forall|j: int| 0 <= j < w.pending.len() implies has_sn(
            frames,
            sn_of(#[trigger] w.pending[j]),
        ) by {
            assert(has_sn(prefix, sn_of(w.pending[j])));
        }
        assert forall|i: int|
            0 <= i < frames.len() && sn_of(#[trigger] frames[i]) > w.sn implies has_sn(
            w.pending,
            sn_of(frames[i]),
        ) by {
            if i < last {
                assert(prefix[i] == frames[i]);
            }
        }
    }
}

/// A working session with nothing waiting that takes numbered frames keeps
/// waiting one frame of each number taken that is past its own, and none
/// of them is next in turn.
pub proof fn lemma_tracks<T>(v: SessionView<T>, frames: Seq<KookWSFrame<T>>)
    requires
        v.wf(),
        v.state == BotState::Working,
        v.pending.len() == 0,
        numbered(frames),
    ensures
        tracks(v, frames, after_frames(v, frames)),
    decreases frames.len(),
{
    if frames.len() > 0 {
        let prefix = frames.drop_last();
        assert(numbered(prefix)) by {
            assert forall|i: int| 0 <= i < prefix.len() implies (#[trigger] prefix[i]).sn
                is Some by {
                assert(prefix[i] == frames[i]);
            }
        }
        lemma_tracks(v, prefix);
        lemma_tracks_step(v, frames, after_frames(v, prefix));
    }
}

/// Order preservation. A working session with nothing waiting takes
/// numbered frames in any order and however often each comes: each of the
/// numbers `sn + 1` to `sn + n` at least once, and none that is larger.
/// Then the turn of one frame of each of these numbers has come, in
/// ascending order of number, the session stands at `sn + n`, and nothing
/// waits.
pub proof fn lemma_all_delivered<T>(v: SessionView<T>, frames: Seq<KookWSFrame<T>>, n: nat)
    requires
        v.wf(),
        v.state == BotState::Working,
        v.pending.len() == 0,
        numbered(frames),
        forall|i: int| 0 <= i < frames.len() ==> sn_of(#[trigger] frames[i]) <= v.sn + n,
        forall|x: int| v.sn < x <= v.sn + n ==> has_sn(frames, x),
    ensures
        after_frames(v, frames).sn == v.sn + n,
        after_frames(v, frames).pending.len() == 0,
        released_over(v, frames).len() == n,
        forall|k: int|
            0 <= k < n ==> sn_of(#[trigger] released_over(v, frames)[k]) == v.sn + 1 + k,
{
    lemma_tracks(v, frames);
    lemma_released_in_order(v, frames);
    let w = after_frames(v, frames);
    if w.sn < v.sn + n {
        let x = w.sn + 1;
        assert(has_sn(frames, x));
        let i = choose|i: int| 0 <= i < frames.len() && sn_of(#[trigger] frames[i]) == x;
        assert(has_sn(w.pending, sn_of(frames[i])));
        let j = choose|j: int| 0 <= j < w.pending.len() && sn_of(#[trigger] w.pending[j]) == x;
        assert(sn_of(w.pending[j]) > w.sn + 1);
    }
    if w.sn != v.sn {
        let i = choose|i: int| 0 <= i < frames.len() && sn_of(#[trigger] frames[i]) == w.sn;
        assert(sn_of(frames[i]) <= v.sn + n);
    }
    if w.pending.len() > 0 {
        assert(has_sn(frames, sn_of(w.pending[0])));
        let i = choose|i: int|
            0 <= i < frames.len() && sn_of(#[trigger] frames[i]) == sn_of(w.pending[0]);
        assert(sn_of(w.pending[0]) > w.sn + 1);
    }
}

/// Where every frame is an event with a payload, the events handed on are
/// the frames whose turn has come.
pub proof fn lemma_events_of_all<T>(s: Seq<KookWSFrame<T>>)
    requires
        forall|i: int| 0 <= i < s.len() ==> (#[trigger] s[i]).is_event(),
    ensures
        events_of(s) == s,
    decreases s.len(),
{
    if s.len() > 0 {
        let t = s.drop_last();
        assert forall|i: int| 0 <= i < t.len() implies (#[trigger] t[i]).is_event() by {
            assert(t[i] == s[i]);
        }
        lemma_events_of_all(t);
        assert(t.push(s.last()) =~= s);
    }
}

} // verus!
