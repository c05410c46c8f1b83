//! What the bridge does over a whole call: what of the session's audio reaches the phone, and what
//! is counted of it.
use vstd::prelude::*;

use super::pace::{played, turn_end_plays_on};
use super::resample::{downsampling_is_continuous, FirState};
use super::{since, Playout};
use crate::gemini_live::Event;

verus! {

/// What happens to the downlink: an event of the session, or the 20 ms tick.
pub enum Beat {
    Event { ev: Option<Event>, now_ms: u64 },
    Tick,
}

impl Playout {
    /// The state after a beat.
    pub open spec fn beaten(self, b: Beat) -> Playout {
        match b {
            Beat::Event { ev, now_ms } => self.after_event(ev, now_ms),
            Beat::Tick => self.ticked(),
        }
    }
}

/// The state after the first `n` beats.
pub open spec fn run(start: Playout, all: Seq<Beat>, n: int) -> Playout
    decreases n,
{
    if n <= 0 {
        start
    } else {
        run(start, all, n - 1).beaten(all[n - 1])
    }
}

/// The audio that came within the first `n` beats.
pub open spec fn received(all: Seq<Beat>, n: int) -> Seq<i16>
    decreases n,
{
    if n <= 0 {
        Seq::empty()
    } else {
        match all[n - 1] {
            Beat::Event { ev: Some(Event::OutputAudio(pcm24)), .. } => received(all, n - 1)
                + pcm24@,
            _ => received(all, n - 1),
        }
    }
}

/// The audio that the ticks among the first `n` beats took out of the buffer.
pub open spec fn taken(start: Playout, all: Seq<Beat>, n: int) -> Seq<i16>
    decreases n,
{
    if n <= 0 {
        Seq::empty()
    } else {
        let p = run(start, all, n - 1).pacer;
        if all[n - 1] is Tick && p.plays_next() {
            taken(start, all, n - 1) + p.next_block()
        } else {
            taken(start, all, n - 1)
        }
    }
}

/// What the ticks among the first `n` beats fed to the downsampler: audio, or silence.
pub open spec fn line(start: Playout, all: Seq<Beat>, n: int) -> Seq<i16>
    decreases n,
{
    if n <= 0 {
        Seq::empty()
    } else if all[n - 1] is Tick {
        line(start, all, n - 1) + run(start, all, n - 1).pacer.next_block()
    } else {
        line(start, all, n - 1)
    }
}

/// The frames of the ticks among the first `n` beats, end to end.
pub open spec fn heard(start: Playout, all: Seq<Beat>, n: int) -> Seq<i16>
    decreases n,
{
    if n <= 0 {
        Seq::empty()
    } else if all[n - 1] is Tick {
        heard(start, all, n - 1) + run(start, all, n - 1).pacer.frame()
    } else {
        heard(start, all, n - 1)
    }
}

/// Whether a beat drops what is buffered.
pub open spec fn interrupts(b: Beat) -> bool {
    b is Event && b->ev is Some && b->ev->Some_0 is Interrupted
}

/// Whether a beat ends a turn.
pub open spec fn ends_turn(b: Beat) -> bool {
    b is Event && b->ev is Some && (b->ev->Some_0 is Interrupted || b->ev->Some_0 is TurnComplete)
}

/// Whether a beat brings audio.
pub open spec fn brings_audio(b: Beat) -> bool {
    b is Event && b->ev is Some && b->ev->Some_0 is OutputAudio
}

/// As long as the callee does not interrupt, none of the session's audio is lost, doubled or put in
/// another order: what was taken to play, followed by what still waits, is what came, in the order
/// in which it came. Each tick takes one whole block of 20 ms, or none.
pub proof fn no_audio_is_lost(start: Playout, all: Seq<Beat>, n: int)
    requires
        0 <= n <= all.len(),
        forall|i: int| 0 <= i < n ==> !interrupts(#[trigger] all[i]),
    ensures
        start.pacer.buf + received(all, n) == taken(start, all, n) + run(start, all, n).pacer.buf,
        taken(start, all, n).len() % 480 == 0,
    decreases n,
{
    let all_in = start.pacer.buf + received(all, n);
    if n > 0 {
        no_audio_is_lost(start, all, n - 1);
        let p = run(start, all, n - 1).pacer;
        let q = run(start, all, n).pacer;
        assert(!interrupts(all[n - 1]));
        let before = start.pacer.buf + received(all, n - 1);
        assert(before == taken(start, all, n - 1) + p.buf);
        match all[n - 1] {
            Beat::Event { ev, now_ms } => {
                if let Some(Event::OutputAudio(pcm24)) = ev {
                    assert(q.buf == p.buf + pcm24@);
                    assert(all_in =~= before + pcm24@);
                    assert(before + pcm24@ =~= taken(start, all, n) + q.buf);
                } else {
                    assert(q.buf == p.buf);
                }
            },
            Beat::Tick => {
                if p.plays_next() {
                    assert(p.buf =~= p.next_block() + q.buf);
                    assert(before =~= taken(start, all, n) + q.buf);
                } else {
                    assert(q.buf == p.buf);
                }
            },
        }
    } else {
        assert(all_in =~= taken(start, all, n) + start.pacer.buf);
    }
}

proof fn lemma_nothing_fed(st: FirState)
    requires
        st.wf(),
    ensures
        st.outputs(Seq::empty()) == Seq::<i16>::empty(),
        st.after(Seq::empty()) == st,
{
    assert(st.outputs(Seq::empty()) =~= Seq::<i16>::empty());
    assert((st.window + Seq::<i16>::empty()).subrange(0, st.window.len() as int) =~= st.window);
}

/// As long as the callee does not interrupt, the phone hears one unbroken signal: its frames, end to
/// end, are what the downsampler makes of all the blocks in one go.
pub proof fn frames_are_one_signal(start: Playout, all: Seq<Beat>, n: int)
    requires
        start.pacer.wf(),
        0 <= n <= all.len(),
        forall|i: int| 0 <= i < n ==> !interrupts(#[trigger] all[i]),
    ensures
        heard(start, all, n) == start.pacer.fir.outputs(line(start, all, n)),
        run(start, all, n).pacer.fir == start.pacer.fir.after(line(start, all, n)),
        run(start, all, n).pacer.wf(),
    decreases n,
{
    if n > 0 {
        frames_are_one_signal(start, all, n - 1);
        assert(!interrupts(all[n - 1]));
        let p = run(start, all, n - 1).pacer;
        if all[n - 1] is Tick {
            downsampling_is_continuous(
                start.pacer.fir,
                line(start, all, n - 1),
                p.next_block(),
            );
        }
    } else {
        lemma_nothing_fed(start.pacer.fir);
    }
}

/// When audio last came in the turn that runs after the first `n` beats.
pub open spec fn last_audio(start: Option<u64>, all: Seq<Beat>, n: int) -> Option<u64>
    decreases n,
{
    if n <= 0 {
        start
    } else if brings_audio(all[n - 1]) {
        Some(all[n - 1]->now_ms)
    } else if ends_turn(all[n - 1]) {
        None
    } else {
        last_audio(start, all, n - 1)
    }
}

/// Over a whole call the longest gap is that between two chunks of one turn: it is never less than
/// any such gap, it is one of them unless it is the one from the start, and the time between turns
/// does not count. The downlink counts as active while audio waits, and for 600 ms after the last
/// chunk of a turn that has not ended.
pub proof fn gaps_are_within_a_turn(start: Playout, all: Seq<Beat>, n: int, now_ms: u64)
    requires
        0 <= n <= all.len(),
    ensures
        ({
            let p = run(start, all, n);
            &&& p.last_audio_ms == last_audio(start.last_audio_ms, all, n)
            &&& forall|j: int|
                0 <= j < n && brings_audio(#[trigger] all[j]) && last_audio(
                    start.last_audio_ms,
                    all,
                    j,
                ) is Some ==> since(
                    last_audio(start.last_audio_ms, all, j)->Some_0,
                    all[j]->now_ms,
                ) <= p.max_gap_ms
            &&& p.max_gap_ms == start.max_gap_ms || exists|j: int|
                0 <= j < n && brings_audio(#[trigger] all[j]) && last_audio(
                    start.last_audio_ms,
                    all,
                    j,
                ) is Some && p.max_gap_ms == since(
                    last_audio(start.last_audio_ms, all, j)->Some_0,
                    all[j]->now_ms,
                )
            &&& p.max_gap_ms >= start.max_gap_ms
            &&& p.delivering(now_ms) <==> p.pacer.buf.len() > 0 || (last_audio(
                start.last_audio_ms,
                all,
                n,
            ) is Some && now_ms < last_audio(start.last_audio_ms, all, n)->Some_0 + 600)
        }),
    decreases n,
{
    if n > 0 {
        gaps_are_within_a_turn(start, all, n - 1, now_ms);
        let b = all[n - 1];
        let p = run(start, all, n - 1);
        let q = run(start, all, n);
        assert(q == p.beaten(b));
        if !brings_audio(b) {
            assert(q.max_gap_ms == p.max_gap_ms);
        }
    }
}

/// The end of a turn changes nothing that the phone hears: every later frame is the one that would
/// have come anyway.
pub proof fn turn_end_is_not_heard(p: Playout, now_ms: u64, n: nat)
    ensures
        played(p.after_event(Some(Event::TurnComplete), now_ms).pacer, n).frame() == played(
            p.pacer,
            n,
        ).frame(),
        p.after_event(Some(Event::TurnComplete), now_ms).pacer.buf == p.pacer.buf,
        p.after_event(Some(Event::TurnComplete), now_ms).last_audio_ms is None,
{
    turn_end_plays_on(p.pacer, n);
}

/// Starved time is counted in the ticks of an expected turn on which nothing plays, 20 ms each.
pub proof fn starved_ticks_are_counted(p: Playout)
    ensures
        p.ticked().pacer.starved_ms == p.pacer.starved_ms + (if p.pacer.expecting
            && !p.pacer.plays_next() {
            20int
        } else {
            0
        }),
        p.ticked().last_audio_ms == p.last_audio_ms,
        p.ticked().max_gap_ms == p.max_gap_ms,
        p.ticked().codec == p.codec,
{
}

/// The phone still hears a turn as long as anything of it is buffered, and for 600 ms after its last
/// audio came, not a millisecond longer. The end of a turn and an interruption end that grace.
pub proof fn turn_is_heard_out(p: Playout, t: u64, now_ms: u64)
    ensures
        p.pacer.buf.len() > 0 ==> p.delivering(now_ms),
        p.pacer.buf.len() == 0 && p.last_audio_ms == Some(t) ==> (p.delivering(now_ms) <==> now_ms
            - t < 600),
        p.pacer.buf.len() == 0 && p.last_audio_ms is None ==> !p.delivering(now_ms),
        p.after_turn().delivering(now_ms) <==> p.pacer.buf.len() > 0,
        !p.after_interruption().delivering(now_ms),
{
}

} // verus!
