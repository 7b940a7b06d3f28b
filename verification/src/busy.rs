use vstd::prelude::*;

use crate::line::{tokenize, Line, LineView};
use crate::parser::{
    initial_parser, is_vevent_value, spec_step, Event, EventView, Parser, ParserView,
};
use crate::splitter::{feed_lines, LineSplitter};

verus! {

/// Whether the instant `now` falls inside the event's span: the start is
/// inclusive, the end exclusive.
pub open spec fn event_covers(e: EventView, now: int) -> bool {
    e.start <= now < e.end
}

pub open spec fn opt_to_seq(ev: Option<EventView>) -> Seq<EventView> {
    match ev {
        Some(e) => seq![e],
        None => Seq::empty(),
    }
}

/// State and emitted events after a parser in state `p` has consumed the
/// given lines, in order.
pub open spec fn spec_run(p: ParserView, lines: Seq<LineView>) -> (ParserView, Seq<EventView>)
    decreases lines.len(),
{
    if lines.len() == 0 {
        (p, Seq::empty())
    } else {
        let stepped = spec_step(p, lines.first());
        let rest = spec_run(stepped.0, lines.drop_first());
        (rest.0, opt_to_seq(stepped.1) + rest.1)
    }
}

/// The events a feed's tokenized lines yield, scanned from the initial
/// parser state.
pub open spec fn feed_events(lines: Seq<LineView>) -> Seq<EventView> {
    spec_run(initial_parser(), lines).1
}

/// Whether some event of the feed covers `now`.
pub open spec fn feed_busy(lines: Seq<LineView>, now: int) -> bool {
    exists|i: int| 0 <= i < feed_events(lines).len() && event_covers(feed_events(lines)[i], now)
}

/// Views of a sequence of owned raw lines.
pub open spec fn raw_views(lines: Seq<String>) -> Seq<Seq<char>> {
    lines.map_values(|s: String| s@)
}

/// Tokenized views of a sequence of raw lines.
pub open spec fn tokenized(raw: Seq<Seq<char>>) -> Seq<LineView> {
    raw.map_values(|s: Seq<char>| tokenize(s))
}

/// Running a parser over concatenated line sequences equals running it over
/// the first part and continuing over the second; the emitted events
/// concatenate in the same order.
pub proof fn lemma_run_concat(p: ParserView, a: Seq<LineView>, b: Seq<LineView>)
    ensures
        spec_run(p, a + b).0 == spec_run(spec_run(p, a).0, b).0,
        spec_run(p, a + b).1 == spec_run(p, a).1 + spec_run(spec_run(p, a).0, b).1,
    decreases a.len(),
{
    if a.len() == 0 {
        assert(a + b =~= b);
        assert(spec_run(p, a).1 + spec_run(spec_run(p, a).0, b).1 =~= spec_run(
            spec_run(p, a).0,
            b,
        ).1);
    } else {
        let stepped = spec_step(p, a.first());
        assert((a + b).first() == a.first());
        assert((a + b).drop_first() =~= a.drop_first() + b);
        lemma_run_concat(stepped.0, a.drop_first(), b);
        assert(spec_run(p, a + b).1 =~= spec_run(p, a).1 + spec_run(spec_run(p, a).0, b).1);
    }
}

/// Running over a single line is one step of the machine.
pub proof fn lemma_run_single(p: ParserView, l: LineView)
    ensures
        spec_run(p, seq![l]).0 == spec_step(p, l).0,
        spec_run(p, seq![l]).1 == opt_to_seq(spec_step(p, l).1),
{
    let s = seq![l];
    assert(s.first() == l);
    assert(s.drop_first() =~= Seq::<LineView>::empty());
    let stepped = spec_step(p, l);
    assert(spec_run(stepped.0, s.drop_first()).1 =~= Seq::<EventView>::empty());
    assert(spec_run(p, s).1 =~= opt_to_seq(stepped.1));
}

/// A line that is not an event-record end marker never emits an event.
pub proof fn lemma_step_emits_only_at_end(p: ParserView, l: LineView)
    ensures
        spec_step(p, l).1 is Some ==> l.key == "end"@ && (l.value matches Some(v)
            && is_vevent_value(v)),
{
}

/// Lines that never close an event record emit no events, from any state.
pub proof fn lemma_no_end_marker_no_events(p: ParserView, lines: Seq<LineView>)
    requires
        forall|i: int|
            0 <= i < lines.len() ==> !(lines[i].key == "end"@ && (lines[i].value matches Some(v)
                && is_vevent_value(v))),
    ensures
        spec_run(p, lines).1 == Seq::<EventView>::empty(),
    decreases lines.len(),
{
    if lines.len() > 0 {
        let stepped = spec_step(p, lines.first());
        lemma_step_emits_only_at_end(p, lines.first());
        assert(forall|i: int|
            0 <= i < lines.drop_first().len() ==> lines.drop_first()[i] == lines[i + 1]);
        lemma_no_end_marker_no_events(stepped.0, lines.drop_first());
        assert(spec_run(p, lines).1 =~= Seq::<EventView>::empty());
    }
}

/// A feed whose lines never open an event record emits no events: in
/// particular, a feed with no event records at all evaluates to not busy,
/// and no error surfaces.
pub proof fn lemma_no_records_no_events(p: ParserView, lines: Seq<LineView>)
    requires
        p.partial is None,
        forall|i: int|
            0 <= i < lines.len() ==> !(lines[i].key == "begin"@ && (lines[i].value matches Some(v)
                && is_vevent_value(v))),
    ensures
        spec_run(p, lines).1 == Seq::<EventView>::empty(),
        spec_run(p, lines).0.partial is None,
    decreases lines.len(),
{
    if lines.len() > 0 {
        let stepped = spec_step(p, lines.first());
        assert(stepped.0.partial is None);
        assert(stepped.1 is None);
        assert(forall|i: int|
            0 <= i < lines.drop_first().len() ==> lines.drop_first()[i] == lines[i + 1]);
        lemma_no_records_no_events(stepped.0, lines.drop_first());
        assert(spec_run(p, lines).1 =~= Seq::<EventView>::empty());
    }
}

/// A feed with no event records is not busy at any instant, without error.
pub proof fn lemma_feed_without_records_not_busy(lines: Seq<LineView>, now: int)
    requires
        forall|i: int|
            0 <= i < lines.len() ==> !(lines[i].key == "begin"@ && (lines[i].value matches Some(v)
                && is_vevent_value(v))),
    ensures
        !feed_busy(lines, now),
{
    lemma_no_records_no_events(initial_parser(), lines);
}

/// For a feed that yields exactly one event, the scan reports busy exactly
/// when `now` lies in the event's span `[start, end)`: the start is
/// inclusive and the end exclusive, so `now == end` is not busy.
pub proof fn lemma_single_event_feed(lines: Seq<LineView>, now: int)
    requires
        feed_events(lines).len() == 1,
    ensures
        feed_busy(lines, now) == (feed_events(lines)[0].start <= now < feed_events(lines)[0].end),
{
    if feed_events(lines)[0].start <= now < feed_events(lines)[0].end {
        assert(event_covers(feed_events(lines)[0], now));
        assert(feed_busy(lines, now));
    }
}

/// An event record opened but never closed before the stream ends never
/// contributes to the answer: the feed's events, and so its busy result, are
/// exactly those of the lines before the unclosed record began.
pub proof fn lemma_unclosed_record_never_contributes(
    pre: Seq<LineView>,
    suf: Seq<LineView>,
    now: int,
)
    requires
        forall|i: int|
            0 <= i < suf.len() ==> !(suf[i].key == "end"@ && (suf[i].value matches Some(v)
                && is_vevent_value(v))),
    ensures
        feed_events(pre + suf) == feed_events(pre),
        feed_busy(pre + suf, now) == feed_busy(pre, now),
{
    lemma_run_concat(initial_parser(), pre, suf);
    lemma_no_end_marker_no_events(spec_run(initial_parser(), pre).0, suf);
    assert(feed_events(pre + suf) =~= feed_events(pre));
}

/// Relies on `chrono::Utc::now` for the current instant, given as seconds
/// since the epoch. The value depends on the clock, so nothing further is
/// promised of it. As the underlying call does, this aborts on a system
/// clock set before the epoch.
#[verifier::external_body]
pub fn now_epoch() -> i64 {
    chrono::Utc::now().timestamp()
}

/// Feeds one raw line to the parser and reports whether it completed an
/// event covering `now`; a scan may stop as soon as this turns true.
pub fn scan_line(parser: &mut Parser, raw: &str, now: i64) -> (r: bool)
    ensures
        final(parser)@ == spec_step(old(parser)@, tokenize(raw@)).0,
        r == (match spec_step(old(parser)@, tokenize(raw@)).1 {
            Some(ev) => event_covers(ev, now as int),
            None => false,
        }),
{
    let line = Line::from_str(raw);
    match parser.process_line(&line) {
        Some(event) => event.start <= now && now < event.end,
        None => false,
    }
}

/// Scans a feed's lines in arrival order and reports whether any completed
/// event covers `now`, stopping at the first event that does.
pub fn busy_from_lines(lines: &Vec<String>, now: i64) -> (r: bool)
    ensures
        r == feed_busy(tokenized(raw_views(lines@)), now as int),
{
    let ghost lvs: Seq<LineView> = tokenized(raw_views(lines@));
    let mut parser = Parser::new();
    let mut idx: usize = 0;
    proof {
        assert(lvs.take(0) =~= Seq::<LineView>::empty());
    }
    while idx < lines.len()
        invariant
            idx <= lines.len(),
            lvs == tokenized(raw_views(lines@)),
            lvs.len() == lines@.len(),
            parser@ == spec_run(initial_parser(), lvs.take(idx as int)).0,
            forall|k: int|
                0 <= k < spec_run(initial_parser(), lvs.take(idx as int)).1.len() ==> !event_covers(
                    spec_run(initial_parser(), lvs.take(idx as int)).1[k],
                    now as int,
                ),
        decreases lines.len() - idx,
    {
        let ghost pre = lvs.take(idx as int);
        let ghost cur = lvs[idx as int];
        let ghost q = spec_run(initial_parser(), pre).0;
        let line = Line::from_str(lines[idx].as_str());
        proof {
            assert(raw_views(lines@)[idx as int] == lines@[idx as int]@);
            assert(line@ == cur);
            assert(lvs.take(idx as int + 1) =~= pre + seq![cur]);
            lemma_run_concat(initial_parser(), pre, seq![cur]);
            lemma_run_single(q, cur);
        }
        let emitted = parser.process_line(&line);
        match emitted {
            Some(event) => {
                if event.start <= now && now < event.end {
                    proof {
                        let taken = lvs.take(idx as int + 1);
                        assert(lvs =~= taken + lvs.skip(idx as int + 1));
                        lemma_run_concat(initial_parser(), taken, lvs.skip(idx as int + 1));
                        let evs1 = spec_run(initial_parser(), taken).1;
                        let all = feed_events(lvs);
                        let j = evs1.len() - 1;
                        assert(evs1[j] == event@);
                        assert(all[j] == evs1[j]);
                        assert(0 <= j < all.len() && event_covers(all[j], now as int));
                    }
                    return true;
                }
            },
            None => {},
        }
        idx = idx + 1;
    }
    proof {
        assert(lvs.take(lines@.len() as int) =~= lvs);
    }
    false
}

/// Scans a whole byte feed: splits it into text lines (an unterminated tail
/// is no line), tokenizes each, and reports whether any completed event
/// covers `now`.
pub fn busy_from_bytes(content: &[u8], now: i64) -> (r: bool)
    ensures
        r == feed_busy(tokenized(feed_lines(content@)), now as int),
{
    let mut splitter = LineSplitter::new();
    let lines = splitter.push_chunk(content);
    proof {
        assert(Seq::<u8>::empty() + content@ =~= content@);
        assert(raw_views(lines@) =~= feed_lines(content@));
    }
    busy_from_lines(&lines, now)
}

} // verus!
