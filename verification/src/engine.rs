//! The match-and-context engine: streams a file's lines, keeps a bounded
//! ring buffer of recent non-matching lines to print as context before a
//! match, echoes a bounded number of lines after one, and (in count mode)
//! tallies matches instead.

use crate::line_view::{line_has_header, view_message, view_nick, view_timestamp, LineView};
use crate::matching::{match_line, regex_valid, spec_classify, MatchType, Outcome};
use crate::settings::{spec_validate, validate_settings, ConfigModel, Settings};
use crate::GrepError;
use vstd::math::min;
use vstd::prelude::*;

verus! {

// ---------------------------------------------------------------------
// The bounded ring buffer, from the circular-queue crate, behind trusted
// declarations: `cq_lines` names its contents (oldest first) and
// `cq_capacity` the bound it was created with.
// ---------------------------------------------------------------------

#[verifier::external_type_specification]
#[verifier::external_body]
#[verifier::reject_recursive_types(T)]
pub struct ExCircularQueue<T>(circular_queue::CircularQueue<T>);

/// The lines the ring buffer holds, oldest first.
pub uninterp spec fn cq_lines(q: circular_queue::CircularQueue<String>) -> Seq<Seq<char>>;

/// The fixed capacity the ring buffer was created with.
pub uninterp spec fn cq_capacity(q: circular_queue::CircularQueue<String>) -> nat;

/// Relies on CircularQueue::with_capacity: a new queue is empty and keeps
/// the requested capacity.
#[verifier::external_body]
fn cq_new(capacity: usize) -> (q: circular_queue::CircularQueue<String>)
    ensures
        cq_capacity(q) == capacity,
        cq_lines(q) == Seq::<Seq<char>>::empty(),
{
    circular_queue::CircularQueue::with_capacity(capacity)
}

/// Relies on CircularQueue::push: appends the line, overwriting the oldest
/// one once the capacity is reached; a zero-capacity queue keeps nothing.
#[verifier::external_body]
fn cq_push(q: &mut circular_queue::CircularQueue<String>, line: String)
    ensures
        cq_capacity(*final(q)) == cq_capacity(*old(q)),
        cq_lines(*final(q)) == push_bounded(cq_lines(*old(q)), line@, cq_capacity(*old(q))),
{
    q.push(line);
}

/// Relies on CircularQueue::clear: empties the queue; the capacity stays.
#[verifier::external_body]
fn cq_clear(q: &mut circular_queue::CircularQueue<String>)
    ensures
        cq_capacity(*final(q)) == cq_capacity(*old(q)),
        cq_lines(*final(q)) == Seq::<Seq<char>>::empty(),
{
    q.clear();
}

/// Relies on CircularQueue::asc_iter: yields the contents oldest first.
#[verifier::external_body]
fn cq_to_vec(q: &circular_queue::CircularQueue<String>) -> (r: Vec<String>)
    ensures
        r@.len() == cq_lines(*q).len(),
        forall|i: int| 0 <= i < r@.len() ==> r@[i]@ == cq_lines(*q)[i],
{
    let mut v = Vec::new();
    for s in q.asc_iter() {
        v.push(s.clone());
    }
    v
}

// ---------------------------------------------------------------------
// Output events
// ---------------------------------------------------------------------

/// One record of streaming output. How a `MatchLine` is rendered — the
/// fields tab-joined, each span marked in the message — is the caller's
/// concern.
pub enum OutputEvent {
    /// A line emitted verbatim: buffered context, an after-match echo, or
    /// a line matched on the speaker alone.
    Text(String),
    /// A pattern match: the parsed fields (speaker post-strip) and the
    /// byte-offset spans to mark in the message.
    MatchLine { timestamp: String, nick: String, message: String, spans: Vec<(usize, usize)> },
    /// The literal `--` line that closes a context block.
    Separator,
}

/// The mathematical content of an [`OutputEvent`].
pub ghost enum EventModel {
    Text(Seq<char>),
    MatchLine {
        timestamp: Seq<char>,
        nick: Seq<char>,
        message: Seq<char>,
        spans: Seq<(usize, usize)>,
    },
    Separator,
}

impl View for OutputEvent {
    type V = EventModel;

    open spec fn view(&self) -> EventModel {
        match self {
            OutputEvent::Text(s) => EventModel::Text(s@),
            OutputEvent::MatchLine { timestamp, nick, message, spans } => (EventModel::MatchLine {
                timestamp: timestamp@,
                nick: nick@,
                message: message@,
                spans: spans@,
            }),
            OutputEvent::Separator => EventModel::Separator,
        }
    }
}

/// The events, each by its view.
pub open spec fn models(events: Seq<OutputEvent>) -> Seq<EventModel> {
    events.map_values(|e: OutputEvent| e@)
}

/// The lines, each by its view.
pub open spec fn views_of(lines: Seq<String>) -> Seq<Seq<char>> {
    lines.map_values(|s: String| s@)
}

// ---------------------------------------------------------------------
// The abstract step
// ---------------------------------------------------------------------

/// The window after a line enters it: append, evicting the oldest entry
/// beyond the capacity; with capacity zero nothing is kept.
pub open spec fn push_bounded(window: Seq<Seq<char>>, line: Seq<char>, cap: nat) -> Seq<
    Seq<char>,
> {
    if cap == 0 {
        window
    } else if window.len() < cap {
        window.push(line)
    } else {
        window.drop_first().push(line)
    }
}

/// The most recent `cap` of the lines (all of them, when fewer).
pub open spec fn tail_capped(h: Seq<Seq<char>>, cap: nat) -> Seq<Seq<char>> {
    if h.len() <= cap {
        h
    } else {
        h.subrange(h.len() - cap, h.len() as int)
    }
}

/// Entering a line into the capped tail is the capped tail of entering it
/// into the full history.
proof fn lemma_tail_capped_push(h: Seq<Seq<char>>, line: Seq<char>, cap: nat)
    ensures
        push_bounded(tail_capped(h, cap), line, cap) == tail_capped(h.push(line), cap),
{
    if cap == 0 {
        assert(push_bounded(tail_capped(h, cap), line, cap) =~= tail_capped(h.push(line), cap));
    } else if h.len() < cap {
        assert(push_bounded(tail_capped(h, cap), line, cap) =~= tail_capped(h.push(line), cap));
    } else {
        assert(push_bounded(tail_capped(h, cap), line, cap) =~= tail_capped(h.push(line), cap));
    }
}

/// Each buffered line, flushed verbatim, oldest first.
pub open spec fn flush_events(window: Seq<Seq<char>>) -> Seq<EventModel> {
    window.map_values(|l: Seq<char>| EventModel::Text(l))
}

/// One line's effect in streaming mode.
pub ghost struct StepResult {
    /// The events to emit, in order.
    pub events: Seq<EventModel>,
    /// The context window afterwards.
    pub window: Seq<Seq<char>>,
    /// The after-match echo counter afterwards.
    pub echoes_left: int,
}

/// The streaming policy for one classified line.
///
/// A match (on content or on the speaker alone) flushes the window oldest
/// first, emits the line itself, clears the window and arms the echo
/// counter. A non-match is echoed while the counter is positive — with the
/// closing `--` when the counter runs out on it — and always enters the
/// window. A skipped line is invisible.
pub open spec fn spec_step(
    c: ConfigModel,
    window: Seq<Seq<char>>,
    echoes_left: int,
    line: Seq<char>,
) -> StepResult {
    match spec_classify(c, line) {
        Outcome::Match(spans) => StepResult {
            events: flush_events(window) + seq![
                EventModel::MatchLine {
                    timestamp: view_timestamp(line),
                    nick: view_nick(line),
                    message: view_message(line),
                    spans: spans,
                },
            ],
            window: seq![],
            echoes_left: c.context as int,
        },
        Outcome::MatchNick => StepResult {
            events: flush_events(window) + seq![EventModel::Text(line)],
            window: seq![],
            echoes_left: c.context as int,
        },
        Outcome::NoMatch => StepResult {
            events: if echoes_left > 1 {
                seq![EventModel::Text(line)]
            } else if echoes_left == 1 {
                seq![EventModel::Text(line), EventModel::Separator]
            } else {
                seq![]
            },
            window: push_bounded(window, line, c.context),
            echoes_left: if echoes_left > 0 {
                echoes_left - 1
            } else {
                echoes_left
            },
        },
        Outcome::Skip => StepResult { events: seq![], window: window, echoes_left: echoes_left },
    }
}

/// The pending lines after a step: a non-match joins them, a flush clears
/// them, a skipped line leaves them alone.
pub open spec fn spec_pending_step(
    c: ConfigModel,
    pending: Seq<Seq<char>>,
    line: Seq<char>,
) -> Seq<Seq<char>> {
    match spec_classify(c, line) {
        Outcome::NoMatch => pending.push(line),
        Outcome::Skip => pending,
        Outcome::Match(_) => seq![],
        Outcome::MatchNick => seq![],
    }
}

// ---------------------------------------------------------------------
// The engine
// ---------------------------------------------------------------------

/// Per-file streaming state: the configuration, the bounded context
/// window, and the after-match echo counter.
pub struct Engine<'a> {
    settings: &'a Settings,
    window: circular_queue::CircularQueue<String>,
    echoes_left: usize,
    pending: Ghost<Seq<Seq<char>>>,
}

impl<'a> Engine<'a> {
    /// The configuration the engine runs under.
    pub closed spec fn config(self) -> ConfigModel {
        self.settings@
    }

    /// The buffered context lines, oldest first.
    pub closed spec fn window_lines(self) -> Seq<Seq<char>> {
        cq_lines(self.window)
    }

    /// How many more non-matching lines are owed an after-match echo.
    pub closed spec fn echoes(self) -> int {
        self.echoes_left as int
    }

    /// Every non-matching line seen since the last flush (or the start of
    /// the file), oldest first.
    pub closed spec fn pending(self) -> Seq<Seq<char>> {
        self.pending@
    }

    /// The engine's invariant: a validated configuration, the window at
    /// the configured capacity holding exactly the capped tail of the
    /// pending lines, and the echo counter within the context bound.
    pub closed spec fn wf(self) -> bool {
        &&& spec_validate(self.settings@) is Ok
        &&& cq_capacity(self.window) == self.settings@.context
        &&& cq_lines(self.window) == tail_capped(self.pending@, self.settings@.context)
        &&& self.echoes_left <= self.settings.context
    }

    /// A fresh engine for one file.
    pub fn new(settings: &'a Settings) -> (r: Engine<'a>)
        requires
            spec_validate(settings@) is Ok,
        ensures
            r.wf(),
            r.config() == settings@,
            r.window_lines() == Seq::<Seq<char>>::empty(),
            r.echoes() == 0,
            r.pending() == Seq::<Seq<char>>::empty(),
    {
        Engine {
            settings,
            window: cq_new(settings.context),
            echoes_left: 0,
            pending: Ghost(Seq::empty()),
        }
    }

    /// Flushes the buffered context lines, oldest first, and clears the
    /// window.
    fn drain_window(window: &mut circular_queue::CircularQueue<String>) -> (r: Vec<OutputEvent>)
        ensures
            cq_capacity(*final(window)) == cq_capacity(*old(window)),
            cq_lines(*final(window)) == Seq::<Seq<char>>::empty(),
            models(r@) == flush_events(cq_lines(*old(window))),
    {
        let ghost w0 = cq_lines(*window);
        let buffered = cq_to_vec(window);
        let mut events: Vec<OutputEvent> = Vec::new();
        let mut k: usize = 0;
        while k < buffered.len()
            invariant
                k <= buffered@.len(),
                buffered@.len() == w0.len(),
                forall|i: int| 0 <= i < w0.len() ==> buffered@[i]@ == w0[i],
                events@.len() == k,
                forall|i: int| 0 <= i < k ==> events@[i]@ == EventModel::Text(w0[i]),
            decreases buffered@.len() - k,
        {
            let line = buffered[k].clone();
            events.push(OutputEvent::Text(line));
            k = k + 1;
        }
        cq_clear(window);
        proof {
            assert(models(events@) =~= flush_events(w0));
        }
        events
    }

    /// Feeds one line through the engine and returns the output it owes:
    /// context flushed before a match, the match itself, echoes and the
    /// closing separator after one. A line without its two tabs stops the
    /// file with `MalformedLine` and leaves the engine untouched.
    pub fn step(&mut self, line: &String) -> (r: Result<Vec<OutputEvent>, GrepError>)
        requires
            old(self).wf(),
        ensures
            final(self).wf(),
            final(self).config() == old(self).config(),
            r is Ok <==> line_has_header(line@),
            !line_has_header(line@) ==> r == Err::<Vec<OutputEvent>, GrepError>(
                GrepError::MalformedLine,
            ) && *final(self) == *old(self),
            r matches Ok(events) ==> ({
                let step = spec_step(
                    old(self).config(),
                    old(self).window_lines(),
                    old(self).echoes(),
                    line@,
                );
                &&& models(events@) == step.events
                &&& final(self).window_lines() == step.window
                &&& final(self).echoes() == step.echoes_left
                &&& final(self).pending() == spec_pending_step(
                    old(self).config(),
                    old(self).pending(),
                    line@,
                )
            }),
    {
        let settings = self.settings;
        let lv = match LineView::parse(line.as_str()) {
            Ok(lv) => lv,
            Err(e) => {
                return Err(e);
            },
        };
        proof {
            assert(settings.fixed || settings.pattern_string@.len() == 0 || regex_valid(
                settings.pattern_string@,
            ));
        }
        match match_line(settings, &lv) {
            MatchType::Match(spans) => {
                let mut events = Self::drain_window(&mut self.window);
                let ghost flushed = events@;
                events.push(
                    OutputEvent::MatchLine {
                        timestamp: lv.timestamp().to_owned(),
                        nick: lv.nick().to_owned(),
                        message: lv.message().to_owned(),
                        spans,
                    },
                );
                self.echoes_left = settings.context;
                self.pending = Ghost(Seq::empty());
                proof {
                    let step = spec_step(
                        old(self).config(),
                        old(self).window_lines(),
                        old(self).echoes(),
                        line@,
                    );
                    assert(models(events@) =~= step.events);
                    assert(tail_capped(Seq::empty(), settings@.context) =~= Seq::<
                        Seq<char>,
                    >::empty());
                }
                Ok(events)
            },
            MatchType::MatchNick => {
                let mut events = Self::drain_window(&mut self.window);
                events.push(OutputEvent::Text(line.clone()));
                self.echoes_left = settings.context;
                self.pending = Ghost(Seq::empty());
                proof {
                    let step = spec_step(
                        old(self).config(),
                        old(self).window_lines(),
                        old(self).echoes(),
                        line@,
                    );
                    assert(models(events@) =~= step.events);
                    assert(tail_capped(Seq::empty(), settings@.context) =~= Seq::<
                        Seq<char>,
                    >::empty());
                }
                Ok(events)
            },
            MatchType::NoMatch => {
                let mut events: Vec<OutputEvent> = Vec::new();
                if self.echoes_left > 0 {
                    events.push(OutputEvent::Text(line.clone()));
                    self.echoes_left = self.echoes_left - 1;
                    if self.echoes_left == 0 {
                        events.push(OutputEvent::Separator);
                    }
                }
                cq_push(&mut self.window, line.clone());
                let ghost p0 = self.pending@;
                self.pending = Ghost(p0.push(line@));
                proof {
                    lemma_tail_capped_push(p0, line@, settings@.context);
                    let step = spec_step(
                        old(self).config(),
                        old(self).window_lines(),
                        old(self).echoes(),
                        line@,
                    );
                    assert(models(events@) =~= step.events);
                }
                Ok(events)
            },
            MatchType::Skip => {
                let events: Vec<OutputEvent> = Vec::new();
                proof {
                    let step = spec_step(
                        old(self).config(),
                        old(self).window_lines(),
                        old(self).echoes(),
                        line@,
                    );
                    assert(models(events@) =~= step.events);
                }
                Ok(events)
            },
        }
    }
}

// ---------------------------------------------------------------------
// Whole files
// ---------------------------------------------------------------------

/// Streaming a whole file: each line's events in order, stopping with the
/// malformed-line error at the first line without its two tabs.
pub open spec fn spec_run(
    c: ConfigModel,
    window: Seq<Seq<char>>,
    echoes_left: int,
    lines: Seq<Seq<char>>,
) -> Result<Seq<EventModel>, GrepError>
    decreases lines.len(),
{
    if lines.len() == 0 {
        Ok(seq![])
    } else if !line_has_header(lines[0]) {
        Err(GrepError::MalformedLine)
    } else {
        let step = spec_step(c, window, echoes_left, lines[0]);
        match spec_run(c, step.window, step.echoes_left, lines.drop_first()) {
            Ok(rest) => Ok(step.events + rest),
            Err(e) => Err(e),
        }
    }
}

/// Runs one file's lines through a fresh engine and collects the output
/// events. The configuration is validated first; a malformed line aborts
/// the file with its error.
pub fn process_lines(settings: &Settings, lines: &Vec<String>) -> (r: Result<
    Vec<OutputEvent>,
    GrepError,
>)
    ensures
        spec_validate(settings@) matches Err(e) ==> r == Err::<Vec<OutputEvent>, GrepError>(e),
        spec_validate(settings@) is Ok ==> ({
            let run = spec_run(settings@, Seq::empty(), 0, views_of(lines@));
            &&& r is Ok <==> run is Ok
            &&& r matches Ok(events) ==> models(events@) == run->Ok_0
            &&& run matches Err(e) ==> r == Err::<Vec<OutputEvent>, GrepError>(e)
        }),
{
    if let Err(e) = validate_settings(settings) {
        return Err(e);
    }
    let ghost c = settings@;
    let ghost all = views_of(lines@);
    let mut engine = Engine::new(settings);
    let mut events: Vec<OutputEvent> = Vec::new();
    let mut i: usize = 0;
    proof {
        assert(all.skip(0) =~= all);
        assert(models(events@) =~= Seq::<EventModel>::empty());
        match spec_run(c, Seq::<Seq<char>>::empty(), 0, all) {
            Ok(rest) => {
                assert(models(events@) + rest =~= rest);
            },
            Err(_) => {},
        }
    }
    while i < lines.len()
        invariant
            i <= lines@.len(),
            all == views_of(lines@),
            c == settings@,
            engine.wf(),
            engine.config() == c,
            spec_run(c, Seq::empty(), 0, all) == (match spec_run(
                c,
                engine.window_lines(),
                engine.echoes(),
                all.skip(i as int),
            ) {
                Ok(rest) => Ok::<Seq<EventModel>, GrepError>(models(events@) + rest),
                Err(e) => Err::<Seq<EventModel>, GrepError>(e),
            }),
        decreases lines@.len() - i,
    {
        let ghost pre = events@;
        let ghost w = engine.window_lines();
        let ghost el = engine.echoes();
        let ghost suffix = all.skip(i as int);
        proof {
            assert(suffix[0] == all[i as int]);
            assert(all[i as int] == lines@[i as int]@);
        }
        let line = &lines[i];
        match engine.step(line) {
            Ok(mut chunk) => {
                let ghost chunk_models = models(chunk@);
                events.append(&mut chunk);
                proof {
                    let step = spec_step(c, w, el, all[i as int]);
                    assert(suffix.drop_first() =~= all.skip(i as int + 1));
                    assert(models(events@) =~= models(pre) + chunk_models);
                    match spec_run(c, step.window, step.echoes_left, all.skip(i as int + 1)) {
                        Ok(rest) => {
                            assert(models(pre) + (step.events + rest) =~= (models(pre)
                                + step.events) + rest);
                        },
                        Err(_) => {},
                    }
                }
            },
            Err(e) => {
                proof {
                    assert(spec_run(c, w, el, suffix) == Err::<Seq<EventModel>, GrepError>(
                        GrepError::MalformedLine,
                    ));
                }
                return Err(e);
            },
        }
        i = i + 1;
    }
    proof {
        assert(all.skip(i as int) =~= Seq::<Seq<char>>::empty());
        assert(models(events@) + Seq::<EventModel>::empty() =~= models(events@));
    }
    Ok(events)
}

/// A run fails — and fails with the malformed-line error — exactly when
/// some line of the file lacks its two tabs; processing halts there.
pub proof fn lemma_run_err_iff_malformed(
    c: ConfigModel,
    window: Seq<Seq<char>>,
    echoes_left: int,
    lines: Seq<Seq<char>>,
)
    ensures
        spec_run(c, window, echoes_left, lines) is Err <==> (exists|i: int|
            0 <= i < lines.len() && !line_has_header(#[trigger] lines[i])),
        spec_run(c, window, echoes_left, lines) matches Err(e) ==> e == GrepError::MalformedLine,
    decreases lines.len(),
{
    if lines.len() == 0 {
    } else if !line_has_header(lines[0]) {
        assert(0 <= 0 < lines.len() && !line_has_header(lines[0]));
    } else {
        let step = spec_step(c, window, echoes_left, lines[0]);
        let rest = lines.drop_first();
        lemma_run_err_iff_malformed(c, step.window, step.echoes_left, rest);
        if spec_run(c, window, echoes_left, lines) is Err {
            let j = choose|j: int| 0 <= j < rest.len() && !line_has_header(#[trigger] rest[j]);
            assert(lines[j + 1] == rest[j]);
            assert(!line_has_header(lines[j + 1]));
        }
        if exists|i: int| 0 <= i < lines.len() && !line_has_header(#[trigger] lines[i]) {
            let i = choose|i: int| 0 <= i < lines.len() && !line_has_header(#[trigger] lines[i]);
            assert(i != 0);
            assert(rest[i - 1] == lines[i]);
            assert(spec_run(c, step.window, step.echoes_left, rest) is Err);
        }
    }
}

// ---------------------------------------------------------------------
// Count mode
// ---------------------------------------------------------------------

/// One line's contribution to the tally: one per occurrence of the
/// pattern, or exactly one for a speaker-only match.
pub open spec fn spec_line_count(c: ConfigModel, line: Seq<char>) -> nat {
    match spec_classify(c, line) {
        Outcome::Match(spans) => spans.len(),
        Outcome::MatchNick => 1nat,
        Outcome::NoMatch => 0nat,
        Outcome::Skip => 0nat,
    }
}

/// A whole file's tally, stopping at the first malformed line.
pub open spec fn spec_count(c: ConfigModel, lines: Seq<Seq<char>>) -> Result<nat, GrepError>
    decreases lines.len(),
{
    if lines.len() == 0 {
        Ok(0nat)
    } else if !line_has_header(lines[0]) {
        Err(GrepError::MalformedLine)
    } else {
        match spec_count(c, lines.drop_first()) {
            Ok(n) => Ok((spec_line_count(c, lines[0]) + n) as nat),
            Err(e) => Err(e),
        }
    }
}

/// Tallies one file's matches; no context window is involved. The
/// configuration is validated first; a malformed line aborts the file. A
/// tally beyond `usize::MAX` saturates there.
pub fn count_matches(settings: &Settings, lines: &Vec<String>) -> (r: Result<usize, GrepError>)
    ensures
        spec_validate(settings@) matches Err(e) ==> r == Err::<usize, GrepError>(e),
        spec_validate(settings@) is Ok ==> ({
            let total = spec_count(settings@, views_of(lines@));
            &&& r is Ok <==> total is Ok
            &&& r matches Ok(n) ==> n == min(total->Ok_0 as int, usize::MAX as int)
            &&& total matches Err(e) ==> r == Err::<usize, GrepError>(e)
        }),
{
    if let Err(e) = validate_settings(settings) {
        return Err(e);
    }
    let ghost c = settings@;
    let ghost all = views_of(lines@);
    let mut count: usize = 0;
    let ghost mut partial: nat = 0nat;
    let mut i: usize = 0;
    proof {
        assert(all.skip(0) =~= all);
    }
    while i < lines.len()
        invariant
            i <= lines@.len(),
            all == views_of(lines@),
            c == settings@,
            spec_validate(c) is Ok,
            count == min(partial as int, usize::MAX as int),
            spec_count(c, all) == (match spec_count(c, all.skip(i as int)) {
                Ok(rest) => Ok::<nat, GrepError>((partial + rest) as nat),
                Err(e) => Err::<nat, GrepError>(e),
            }),
        decreases lines@.len() - i,
    {
        let ghost suffix = all.skip(i as int);
        proof {
            assert(suffix[0] == all[i as int]);
            assert(all[i as int] == lines@[i as int]@);
        }
        let line = &lines[i];
        let lv = match LineView::parse(line.as_str()) {
            Ok(lv) => lv,
            Err(e) => {
                proof {
                    assert(spec_count(c, suffix) == Err::<nat, GrepError>(
                        GrepError::MalformedLine,
                    ));
                }
                return Err(e);
            },
        };
        proof {
            assert(settings.fixed || settings.pattern_string@.len() == 0 || regex_valid(
                settings.pattern_string@,
            ));
        }
        match match_line(settings, &lv) {
            MatchType::Match(v) => {
                count = count.saturating_add(v.len());
                proof {
                    partial = partial + v@.len();
                }
            },
            MatchType::MatchNick => {
                count = count.saturating_add(1);
                proof {
                    partial = partial + 1nat;
                }
            },
            MatchType::NoMatch => {},
            MatchType::Skip => {},
        }
        proof {
            assert(suffix.drop_first() =~= all.skip(i as int + 1));
        }
        i = i + 1;
    }
    proof {
        assert(all.skip(i as int) =~= Seq::<Seq<char>>::empty());
    }
    Ok(count)
}

/// The context-window invariant: the window holds exactly the most recent
/// of the lines accumulated since the last flush, capped at the context,
/// and never exceeds it. On a match, the flush therefore emits exactly
/// that many lines.
pub proof fn lemma_window_invariant(e: Engine)
    requires
        e.wf(),
    ensures
        e.window_lines() == tail_capped(e.pending(), e.config().context),
        e.window_lines().len() == min(e.pending().len() as int, e.config().context as int),
{
}

} // verus!
