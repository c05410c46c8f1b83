//! One outbound call from INVITE to teardown, as the decisions between the steps of the SIP stack.
//!
//! An answered call first waits for its media: the RTP sender, which brings the codec, and the
//! receiver. With both it is live until either side hangs up or the stack fails.
use vstd::prelude::*;
use vstd::string::StringExecFns;

use super::outcome::outcome_of;
use super::uplink::{Packets, UplinkQuality, UplinkStats};
use super::{g711_kind_from_pt, outcome_from_status, CallOutcome, G711Kind, NegotiatedCodec};
use super::{SipError, TermReason};
use crate::text::{decimal, decimal_reads_back, to_decimal};

verus! {

/// How long an answered call may take to negotiate its media.
pub const MEDIA_DEADLINE_SECS: u64 = 10;

/// The id of the `seq`th call of a transport.
pub open spec fn transport_call_id(seq: int) -> Seq<char> {
    "kutsu-"@ + decimal(seq)
}

/// The id of the `seq`th call of a transport.
pub fn call_id_of(seq: u64) -> (r: String)
    ensures
        r@ == transport_call_id(seq as int),
{
    let mut s: String = "kutsu-".to_owned();
    s.append(to_decimal(seq).as_str());
    s
}

/// No two calls of a transport have the same id.
pub proof fn transport_ids_are_distinct(m: int, n: int)
    requires
        0 <= m < n,
    ensures
        transport_call_id(m) != transport_call_id(n),
{
    if transport_call_id(m) == transport_call_id(n) {
        let k = "kutsu-"@.len() as int;
        assert(transport_call_id(m).subrange(k, transport_call_id(m).len() as int) =~= decimal(m));
        assert(transport_call_id(n).subrange(k, transport_call_id(n).len() as int) =~= decimal(n));
        decimal_reads_back(m, n);
        decimal_reads_back(n, n);
    }
}

/// The codec that a payload type stands for; an unknown one is taken for PCMU.
pub open spec fn codec_of(pt: u8) -> NegotiatedCodec {
    NegotiatedCodec {
        pt,
        kind: if pt == 8 {
            G711Kind::Alaw
        } else {
            G711Kind::Ulaw
        },
        ptime_ms: 20,
    }
}

/// The codec that a payload type stands for.
pub fn neg_codec(pt: u8) -> (r: NegotiatedCodec)
    ensures
        r == codec_of(pt),
{
    let kind: G711Kind = match g711_kind_from_pt(pt) {
        Some(k) => k,
        None => G711Kind::Ulaw,
    };
    NegotiatedCodec { pt, kind, ptime_ms: 20 }
}

/// Why no dialog was established. Each text is the stack's own.
#[derive(Debug)]
pub enum MakeFault {
    /// A final response with this status line.
    Refused(String),
    TimedOut,
    Other(String),
}

/// The transport error that a failed INVITE stands for.
pub fn map_make_err(e: MakeFault) -> (r: SipError)
    ensures
        match e {
            MakeFault::Refused(line) => r == SipError::Invite(line),
            MakeFault::TimedOut => r == SipError::NotAnswered,
            MakeFault::Other(text) => r == SipError::Media(text),
        },
{
    match e {
        MakeFault::Refused(line) => SipError::Invite(line),
        MakeFault::TimedOut => SipError::NotAnswered,
        MakeFault::Other(text) => SipError::Media(text),
    }
}

/// Why a dialog was not answered. Each text is the stack's own.
#[derive(Debug)]
pub enum CompletionFault {
    /// A final response with this code and status line.
    Status { code: u16, line: String },
    TimedOut,
    Other(String),
}

/// The outcome of a dialog that was not answered, and its detail.
pub fn classify_completion_err(e: CompletionFault) -> (r: (CallOutcome, String))
    ensures
        match e {
            CompletionFault::Status { code, line } => r.0 == outcome_of(code as int) && r.1
                == line,
            CompletionFault::TimedOut => r.0 == CallOutcome::NoAnswer && r.1@
                == "request timed out"@,
            CompletionFault::Other(text) => r.0 == CallOutcome::Failed && r.1 == text,
        },
{
    match e {
        CompletionFault::Status { code, line } => (outcome_from_status(code), line),
        CompletionFault::TimedOut => (CallOutcome::NoAnswer, "request timed out".to_owned()),
        CompletionFault::Other(text) => (CallOutcome::Failed, text),
    }
}

/// What the stack reports of an answered call.
#[derive(Debug)]
pub enum Report {
    /// An internal event, and whether it could be handled.
    Internal { handled: bool },
    /// The RTP sender is there, with this payload type.
    SenderAdded { pt: u8 },
    /// The RTP receiver is there.
    ReceiverAdded,
    /// The other side hung up.
    Terminated,
    Failed(String),
}

/// What to do next.
#[derive(Debug)]
pub enum Turn {
    /// Wait for the next report.
    Wait,
    /// The media is there: tell that the call was answered.
    Answered(NegotiatedCodec),
    /// The call is over. `terminate` asks to hang up first.
    Over { reason: TermReason, terminate: bool },
}

/// Why a call is over, by its contents.
pub enum End {
    Remote,
    Local,
    Failed(Seq<char>),
}

impl Turn {
    /// Whether this ends the call for that reason. A call that was answered never ends busy or
    /// unanswered: every failure after the answer is a technical one.
    pub open spec fn ends(self, end: End, hang_up: bool) -> bool {
        match self {
            Turn::Over { reason, terminate } => terminate == hang_up && (match (reason, end) {
                (TermReason::RemoteHangup, End::Remote) => true,
                (TermReason::LocalHangup, End::Local) => true,
                (TermReason::Failed { outcome, detail }, End::Failed(text)) => outcome
                    == CallOutcome::Failed && detail@ == text,
                _ => false,
            }),
            _ => false,
        }
    }
}

/// Where an answered call stands.
#[derive(Clone, Copy, Debug, PartialEq, Eq, Structural)]
pub enum Stage {
    /// Media is not there yet: the codec once the sender is, and whether the receiver is.
    Media { codec: Option<NegotiatedCodec>, receiving: bool },
    Live,
    Over,
}

/// The state of an answered call.
pub struct Answered {
    pub stage: Stage,
    pub packets: Packets,
}

impl Answered {
    /// The state with what is known of the media; with both parts the call is live.
    pub open spec fn media(self, codec: Option<NegotiatedCodec>, receiving: bool) -> Answered {
        Answered {
            stage: if codec is Some && receiving {
                Stage::Live
            } else {
                Stage::Media { codec, receiving }
            },
            ..self
        }
    }

    /// What the media's arrival asks for.
    pub open spec fn announces(
        codec: Option<NegotiatedCodec>,
        receiving: bool,
        turn: Turn,
    ) -> bool {
        if codec is Some && receiving {
            turn == Turn::Answered(codec->Some_0)
        } else {
            turn == Turn::Wait
        }
    }

    pub open spec fn over(self) -> Answered {
        Answered { stage: Stage::Over, ..self }
    }

    /// The media deadline passed.
    pub open spec fn after_deadline(self) -> Answered {
        if self.stage is Media {
            self.over()
        } else {
            self
        }
    }

    /// We are asked to hang up.
    pub open spec fn after_hangup(self) -> Answered {
        if self.stage == Stage::Live {
            self.over()
        } else {
            self
        }
    }

    /// What follows a report.
    pub open spec fn reported(self, report: Report, after: Answered, turn: Turn) -> bool {
        match report {
            Report::Internal { handled } => if handled {
                after == self && turn == Turn::Wait
            } else {
                after == self.over() && turn.ends(End::Failed("internal"@), false)
            },
            Report::Terminated => after == self.over() && turn.ends(End::Remote, false),
            Report::Failed(text) => after == self.over() && turn.ends(End::Failed(text@), false),
            Report::SenderAdded { pt } => match self.stage {
                Stage::Media { codec, receiving } => after == self.media(
                    Some(codec_of(pt)),
                    receiving,
                ) && Answered::announces(Some(codec_of(pt)), receiving, turn),
                _ => after == self && turn == Turn::Wait,
            },
            Report::ReceiverAdded => match self.stage {
                Stage::Media { codec, receiving } => after == self.media(codec, true)
                    && Answered::announces(codec, true, turn),
                _ => after == self && turn == Turn::Wait,
            },
        }
    }
}

/// Drives an answered call.
pub struct AnsweredCall {
    stage: Stage,
    stats: UplinkStats,
}

impl View for AnsweredCall {
    type V = Answered;

    closed spec fn view(&self) -> Answered {
        Answered { stage: self.stage, packets: self.stats@ }
    }
}

impl AnsweredCall {
    /// A call that was just answered.
    pub fn new() -> (r: Self)
        ensures
            r@.stage == (Stage::Media { codec: None, receiving: false }),
            r@.packets == Packets::none(),
            r@.packets.wf(),
    {
        AnsweredCall {
            stage: Stage::Media { codec: None, receiving: false },
            stats: UplinkStats::new(),
        }
    }

    /// Where the call stands.
    pub fn stage(&self) -> (r: Stage)
        ensures
            r == self@.stage,
    {
        self.stage
    }

    fn with_media(&mut self, codec: Option<NegotiatedCodec>, receiving: bool) -> (r: Turn)
        ensures
            final(self)@ == old(self)@.media(codec, receiving),
            Answered::announces(codec, receiving, r),
    {
        match codec {
            Some(c) => {
                if receiving {
                    self.stage = Stage::Live;
                    return Turn::Answered(c);
                }
            },
            None => {},
        }
        self.stage = Stage::Media { codec, receiving };
        Turn::Wait
    }

    fn fail(&mut self, detail: String) -> (r: Turn)
        ensures
            final(self)@ == old(self)@.over(),
            r.ends(End::Failed(detail@), false),
    {
        self.stage = Stage::Over;
        Turn::Over {
            reason: TermReason::Failed { outcome: CallOutcome::Failed, detail },
            terminate: false,
        }
    }

    /// The stack reported something of the call.
    pub fn on_report(&mut self, report: Report) -> (r: Turn)
        ensures
            old(self)@.reported(report, final(self)@, r),
    {
        match report {
            Report::Internal { handled } => {
                if handled {
                    Turn::Wait
                } else {
                    self.fail("internal".to_owned())
                }
            },
            Report::Terminated => {
                self.stage = Stage::Over;
                Turn::Over { reason: TermReason::RemoteHangup, terminate: false }
            },
            Report::Failed(text) => self.fail(text),
            Report::SenderAdded { pt } => match self.stage {
                Stage::Media { codec: _, receiving } => self.with_media(
                    Some(neg_codec(pt)),
                    receiving,
                ),
                _ => Turn::Wait,
            },
            Report::ReceiverAdded => match self.stage {
                Stage::Media { codec, receiving: _ } => self.with_media(codec, true),
                _ => Turn::Wait,
            },
        }
    }

    /// The media deadline passed. It counts only while the media is not there.
    pub fn on_media_deadline(&mut self) -> (r: Turn)
        ensures
            if old(self)@.stage is Media {
                &&& final(self)@ == old(self)@.over()
                &&& r.ends(End::Failed("answered but media was not negotiated in time"@), true)
            } else {
                final(self)@ == old(self)@ && r == Turn::Wait
            },
            final(self)@ == old(self)@.after_deadline(),
    {
        match self.stage {
            Stage::Media { codec: _, receiving: _ } => {
                self.stage = Stage::Over;
                Turn::Over {
                    reason: TermReason::Failed {
                        outcome: CallOutcome::Failed,
                        detail: "answered but media was not negotiated in time".to_owned(),
                    },
                    terminate: true,
                }
            },
            _ => Turn::Wait,
        }
    }

    /// A packet arrived from the callee: the quality to publish.
    pub fn on_packet(&mut self, seq: u16) -> (r: UplinkQuality)
        requires
            old(self)@.packets.wf(),
            old(self)@.packets.received < u64::MAX,
            old(self)@.packets.highest < u64::MAX - 0x20000,
        ensures
            final(self)@ == (Answered { packets: old(self)@.packets.with(seq), ..old(self)@ }),
            final(self)@.packets.wf(),
            r.received == final(self)@.packets.received,
            r.lost == final(self)@.packets.lost(),
            r.reordered == final(self)@.packets.reordered,
    {
        self.stats.observe(seq);
        self.stats.snapshot()
    }

    /// We are asked to hang up. A request that comes before the media waits until the call is
    /// live.
    pub fn on_hangup(&mut self) -> (r: Turn)
        ensures
            if old(self)@.stage == Stage::Live {
                final(self)@ == old(self)@.over() && r.ends(End::Local, true)
            } else {
                final(self)@ == old(self)@ && r == Turn::Wait
            },
            final(self)@ == old(self)@.after_hangup(),
    {
        if self.stage == Stage::Live {
            self.stage = Stage::Over;
            return Turn::Over { reason: TermReason::LocalHangup, terminate: true };
        }
        Turn::Wait
    }
}

/// The media may come in either order: the answer is told once both parts are there, with the
/// sender's codec.
pub proof fn media_comes_in_either_order(
    s: Answered,
    pt: u8,
    mid: Answered,
    after: Answered,
    first: Turn,
    second: Turn,
)
    requires
        s.stage == (Stage::Media { codec: None, receiving: false }),
        (s.reported(Report::SenderAdded { pt }, mid, first) && mid.reported(
            Report::ReceiverAdded,
            after,
            second,
        )) || (s.reported(Report::ReceiverAdded, mid, first) && mid.reported(
            Report::SenderAdded { pt },
            after,
            second,
        )),
    ensures
        first == Turn::Wait,
        second == Turn::Answered(codec_of(pt)),
        after.stage == Stage::Live,
{
}

/// The callee is told as answered at most once: a live call reports media without effect.
pub proof fn answered_once(s: Answered, report: Report, after: Answered, turn: Turn)
    requires
        !(s.stage is Media),
        s.reported(report, after, turn),
    ensures
        !(turn is Answered),
        !(after.stage is Media),
{
}

/// The codec of the last sender among the first `n` reports.
pub open spec fn sender_in(reports: Seq<Report>, n: int) -> Option<NegotiatedCodec>
    decreases n,
{
    if n <= 0 {
        None
    } else {
        match reports[n - 1] {
            Report::SenderAdded { pt } => Some(codec_of(pt)),
            _ => sender_in(reports, n - 1),
        }
    }
}

/// Whether the receiver is among the first `n` reports.
pub open spec fn receiver_in(reports: Seq<Report>, n: int) -> bool
    decreases n,
{
    n > 0 && (reports[n - 1] is ReceiverAdded || receiver_in(reports, n - 1))
}

/// Whether a report ends a call.
pub open spec fn ends_call(report: Report) -> bool {
    match report {
        Report::Terminated => true,
        Report::Failed(_) => true,
        Report::Internal { handled } => !handled,
        _ => false,
    }
}

/// Over any reports that do not end it, a fresh call is live exactly once both a sender and the
/// receiver were reported, and the report that completes the two, and no other, tells it answered,
/// with the codec of the last sender up to then. Nothing else is asked for meanwhile. A report that
/// ends it ends it at once.
pub proof fn call_is_answered_with_its_media(
    states: Seq<Answered>,
    turns: Seq<Turn>,
    reports: Seq<Report>,
    n: int,
)
    requires
        0 <= n < reports.len(),
        states.len() == reports.len() + 1,
        turns.len() == reports.len(),
        states[0].stage == (Stage::Media { codec: None, receiving: false }),
        forall|i: int|
            0 <= i < reports.len() ==> states[i].reported(
                #[trigger] reports[i],
                states[i + 1],
                turns[i],
            ),
        forall|i: int| 0 <= i < n ==> !ends_call(#[trigger] reports[i]),
    ensures
        ({
            let before = sender_in(reports, n) is Some && receiver_in(reports, n);
            let now = sender_in(reports, n + 1) is Some && receiver_in(reports, n + 1);
            &&& states[n].stage == Stage::Live <==> before
            &&& states[n].stage != Stage::Over
            &&& !ends_call(reports[n]) ==> (turns[n] is Answered <==> now && !before)
            &&& !ends_call(reports[n]) && now && !before ==> turns[n] == Turn::Answered(
                sender_in(reports, n + 1)->Some_0,
            )
            &&& !ends_call(reports[n]) && !(turns[n] is Answered) ==> turns[n] == Turn::Wait
            &&& ends_call(reports[n]) ==> turns[n] is Over && !turns[n]->terminate && states[n
                + 1].stage == Stage::Over
            &&& reports[n] is Terminated <==> turns[n] is Over && turns[n]->reason is RemoteHangup
        }),
{
    lemma_media(states, turns, reports, n);
    assert(states[n].reported(reports[n], states[n + 1], turns[n]));
}

proof fn lemma_media(states: Seq<Answered>, turns: Seq<Turn>, reports: Seq<Report>, n: int)
    requires
        0 <= n <= reports.len(),
        states.len() == reports.len() + 1,
        turns.len() == reports.len(),
        states[0].stage == (Stage::Media { codec: None, receiving: false }),
        forall|i: int|
            0 <= i < reports.len() ==> states[i].reported(
                #[trigger] reports[i],
                states[i + 1],
                turns[i],
            ),
        forall|i: int| 0 <= i < n ==> !ends_call(#[trigger] reports[i]),
    ensures
        states[n].stage == (if sender_in(reports, n) is Some && receiver_in(reports, n) {
            Stage::Live
        } else {
            Stage::Media {
                codec: sender_in(reports, n),
                receiving: receiver_in(reports, n),
            }
        }),
    decreases n,
{
    if n > 0 {
        lemma_media(states, turns, reports, n - 1);
        assert(states[n - 1].reported(reports[n - 1], states[n - 1 + 1], turns[n - 1]));
        assert(!ends_call(reports[n - 1]));
    }
}

/// Payload type 8 is a-law and every other is taken for mu-law, in packets of 20 ms.
pub proof fn payload_type_names_the_law(pt: u8)
    ensures
        codec_of(pt).kind == G711Kind::Alaw <==> pt == 8,
        codec_of(pt).pt == pt,
        codec_of(pt).ptime_ms == 20,
{
}

/// A dialog that was refused goes by its status code, one that ran out of time was not answered, and
/// any other fault is a failure.
pub proof fn refusal_goes_by_its_code(e: CompletionFault, r: (CallOutcome, String))
    requires
        call_ensures(classify_completion_err, (e,), r),
    ensures
        e is Status ==> r.0 == outcome_of(e->code as int) && r.1 == e->line,
        e is TimedOut ==> r.0 == CallOutcome::NoAnswer,
        e is Other ==> r.0 == CallOutcome::Failed && r.1 == e->Other_0,
{
}

/// The media deadline ends only a call whose media is not there, and a request to hang up only one
/// whose media is; neither touches what was counted of its packets.
pub proof fn deadline_and_hang_up_have_their_time(s: Answered)
    ensures
        s.stage is Media ==> s.after_deadline().stage == Stage::Over && s.after_hangup() == s,
        s.stage == Stage::Live ==> s.after_hangup().stage == Stage::Over && s.after_deadline() == s,
        s.after_deadline().packets == s.packets,
        s.after_hangup().packets == s.packets,
{
}

/// A call that was answered ends in one of three ways: the far end hung up, we did, or it failed for
/// a technical reason, which is told in its words. It never ends busy or unanswered.
pub proof fn answered_call_never_ends_busy(turn: Turn, end: End, hang_up: bool)
    requires
        turn.ends(end, hang_up),
    ensures
        turn is Over,
        turn->terminate == hang_up,
        turn->reason is RemoteHangup <==> end is Remote,
        turn->reason is LocalHangup <==> end is Local,
        turn->reason is Failed <==> end is Failed,
        end is Failed ==> turn->reason->outcome == CallOutcome::Failed && turn->reason->detail@
            == end->Failed_0,
{
}

} // verus!
