//! From the events of a session to its summary: a digest in Markdown that
//! interleaves what was said with the slides that were shown.

use vstd::prelude::*;

use crate::text::{copy_option_text, option_text};
use crate::timeline::event::{stamp, TimelineEvent};
use crate::timeline::render::{
    by_time, collapse_caption_partials, collapsed, fmt_ts_full, in_order,
    law_lines_keep_their_start, law_order_is_stable, sort_by_time, time_text, transcript_of,
    transcript_of_sorted, transcript_text, utterances, CollapsedCaption, Utterance,
};

verus! {

/// The file that the summary is written to.
pub const SUMMARY_FILE: &'static str = "summary.md";

/// A slide that was shown.
pub struct SlideEntry {
    pub t_ms: u64,
    pub presenter: Option<String>,
    pub path: String,
}

/// What is told of a slide.
pub struct Slide {
    pub t_ms: u64,
    pub presenter: Option<Seq<char>>,
    pub path: Seq<char>,
}

impl View for SlideEntry {
    type V = Slide;

    open spec fn view(&self) -> Slide {
        Slide { t_ms: self.t_ms, presenter: option_text(self.presenter), path: self.path@ }
    }
}

/// What is told of a list of slides.
pub open spec fn slide_views(s: Seq<SlideEntry>) -> Seq<Slide> {
    s.map_values(|e: SlideEntry| e@)
}

/// The slide of an event, if it is one.
pub open spec fn slide_of(e: TimelineEvent) -> Option<Slide> {
    match e {
        TimelineEvent::Slide { t_ms, path, presenter, .. } => Some(
            Slide { t_ms, presenter: option_text(presenter), path: path@ },
        ),
        _ => None,
    }
}

/// The slides of a list of events.
pub open spec fn slides(s: Seq<TimelineEvent>) -> Seq<Slide>
    decreases s.len(),
{
    if s.len() == 0 {
        Seq::empty()
    } else {
        match slide_of(s.last()) {
            Some(slide) => slides(s.drop_last()).push(slide),
            None => slides(s.drop_last()),
        }
    }
}

/// An entry of the summary.
pub enum Entry {
    Said(Utterance),
    Shown(Slide),
}

/// The time of an entry.
pub open spec fn entry_time(e: Entry) -> u64 {
    match e {
        Entry::Said(u) => u.t_ms,
        Entry::Shown(s) => s.t_ms,
    }
}

/// What was said and what was shown, by time; what was said at the time of a
/// slide comes before it.
pub open spec fn interleaved(said: Seq<Utterance>, shown: Seq<Slide>) -> Seq<Entry>
    decreases said.len() + shown.len(),
{
    if said.len() > 0 && (shown.len() == 0 || said.first().t_ms <= shown.first().t_ms) {
        seq![Entry::Said(said.first())] + interleaved(said.drop_first(), shown)
    } else if shown.len() > 0 {
        seq![Entry::Shown(shown.first())] + interleaved(said, shown.drop_first())
    } else {
        Seq::empty()
    }
}

/// The entries of the summary of a session.
pub open spec fn entries(events: Seq<TimelineEvent>) -> Seq<Entry> {
    interleaved(collapsed(by_time(events)), slides(by_time(events)))
}

/// An entry as an item of a list. A speaker who is not known is written as a
/// question mark, and a presenter who is not known as `unknown`.
pub open spec fn entry_text(e: Entry) -> Seq<char> {
    match e {
        Entry::Said(u) => "- ["@ + time_text(u.t_ms) + "] **"@ + match u.speaker {
            Some(name) => name,
            None => "?"@,
        } + "**: "@ + u.text + "\n"@,
        Entry::Shown(s) => "- ["@ + time_text(s.t_ms) + "] slide by "@ + match s.presenter {
            Some(name) => name,
            None => "unknown"@,
        } + ": ![slide]("@ + s.path + ")\n"@,
    }
}

/// Entries, one after the other.
pub open spec fn entries_text(s: Seq<Entry>) -> Seq<char>
    decreases s.len(),
{
    if s.len() == 0 {
        Seq::empty()
    } else {
        entry_text(s.first()) + entries_text(s.drop_first())
    }
}

/// What stands at the top of a summary.
pub const SUMMARY_TITLE: &'static str = "# Meeting summary\n\n";

/// What stands in a summary that has no entries.
pub const NO_ENTRIES: &'static str = "(nothing was said or shown in this session)\n";

/// The summary with these entries.
pub open spec fn summary_text(s: Seq<Entry>) -> Seq<char> {
    if s.len() == 0 {
        SUMMARY_TITLE@ + NO_ENTRIES@
    } else {
        SUMMARY_TITLE@ + entries_text(s)
    }
}

/// The summary of a session.
pub open spec fn summary_of(events: Seq<TimelineEvent>) -> Seq<char> {
    summary_text(entries(events))
}

fn collect_slides(events: &Vec<TimelineEvent>) -> (r: Vec<SlideEntry>)
    ensures
        slide_views(r@) == slides(events@),
{
    let mut out: Vec<SlideEntry> = Vec::new();
    let mut i: usize = 0;
    assert(events@.take(0) =~= Seq::empty());
    assert(slide_views(out@) =~= slides(events@.take(0)));
    while i < events.len()
        invariant
            i <= events@.len(),
            slide_views(out@) == slides(events@.take(i as int)),
        decreases events@.len() - i,
    {
        assert(events@.take(i + 1).drop_last() =~= events@.take(i as int));
        assert(events@.take(i + 1).last() == events@[i as int]);
        let ghost before = out@;
        match &events[i] {
            TimelineEvent::Slide { t_ms, path, presenter, .. } => {
                let slide = SlideEntry {
                    t_ms: *t_ms,
                    presenter: copy_option_text(presenter),
                    path: path.clone(),
                };
                out.push(slide);
                assert(slide_views(out@) =~= slide_views(before).push(slide@));
            },
            _ => {},
        }
        i += 1;
    }
    assert(events@.take(i as int) =~= events@);
    out
}

fn push_said(body: &mut String, c: &CollapsedCaption)
    ensures
        final(body)@ == old(body)@ + entry_text(Entry::Said(c@)),
{
    let ghost before = body@;
    body.append("- [");
    let ts = fmt_ts_full(c.t_ms);
    body.append(ts.as_str());
    body.append("] **");
    match &c.speaker {
        Some(name) => {
            body.append(name.as_str());
        },
        None => {
            body.append("?");
        },
    }
    body.append("**: ");
    body.append(c.text.as_str());
    body.append("\n");
    assert(body@ =~= before + entry_text(Entry::Said(c@)));
}

fn push_shown(body: &mut String, s: &SlideEntry)
    ensures
        final(body)@ == old(body)@ + entry_text(Entry::Shown(s@)),
{
    let ghost before = body@;
    body.append("- [");
    let ts = fmt_ts_full(s.t_ms);
    body.append(ts.as_str());
    body.append("] slide by ");
    match &s.presenter {
        Some(name) => {
            body.append(name.as_str());
        },
        None => {
            body.append("unknown");
        },
    }
    body.append(": ![slide](");
    body.append(s.path.as_str());
    body.append(")\n");
    assert(body@ =~= before + entry_text(Entry::Shown(s@)));
}

proof fn lemma_first_entry(e: Entry, rest: Seq<Entry>)
    ensures
        entries_text(seq![e] + rest) == entry_text(e) + entries_text(rest),
{
    assert((seq![e] + rest).drop_first() =~= rest);
}

fn summary_of_sorted(sorted: &Vec<TimelineEvent>) -> (r: String)
    ensures
        r@ == summary_text(interleaved(collapsed(sorted@), slides(sorted@))),
{
    let lines = collapse_caption_partials(sorted);
    let pictures = collect_slides(sorted);
    let ghost said = utterances(lines@);
    let ghost shown = slide_views(pictures@);
    let ghost goal = SUMMARY_TITLE@ + entries_text(interleaved(said, shown));
    let mut body = SUMMARY_TITLE.to_owned();
    if lines.len() == 0 && pictures.len() == 0 {
        assert(interleaved(said, shown) =~= Seq::empty());
        body.append(NO_ENTRIES);
        return body;
    }
    let mut i: usize = 0;
    let mut j: usize = 0;
    assert(said.skip(0) =~= said);
    assert(shown.skip(0) =~= shown);
    assert(interleaved(said, shown).len() > 0);
    while i < lines.len() || j < pictures.len()
        invariant
            i <= lines@.len(),
            j <= pictures@.len(),
            said == utterances(lines@),
            shown == slide_views(pictures@),
            body@ + entries_text(interleaved(said.skip(i as int), shown.skip(j as int))) == goal,
        decreases lines@.len() - i + pictures@.len() - j,
    {
        let ghost before = body@;
        let ghost a = said.skip(i as int);
        let ghost b = shown.skip(j as int);
        assert(a.len() == lines@.len() - i && b.len() == pictures@.len() - j);
        assert(i < lines@.len() ==> a.first() == lines@[i as int]@);
        assert(j < pictures@.len() ==> b.first() == pictures@[j as int]@);
        if i < lines.len() && (j >= pictures.len() || lines[i].t_ms <= pictures[j].t_ms) {
            push_said(&mut body, &lines[i]);
            proof {
                let rest = interleaved(a.drop_first(), b);
                assert(a.drop_first() =~= said.skip(i + 1));
                lemma_first_entry(Entry::Said(a.first()), rest);
                assert(body@ + entries_text(rest) =~= before + entries_text(interleaved(a, b)));
            }
            i += 1;
        } else {
            push_shown(&mut body, &pictures[j]);
            proof {
                let rest = interleaved(a, b.drop_first());
                assert(b.drop_first() =~= shown.skip(j + 1));
                lemma_first_entry(Entry::Shown(b.first()), rest);
                assert(body@ + entries_text(rest) =~= before + entries_text(interleaved(a, b)));
            }
            j += 1;
        }
    }
    assert(interleaved(said.skip(i as int), shown.skip(j as int)) =~= Seq::empty());
    assert(body@ + Seq::empty() =~= body@);
    body
}

/// The documents that are made of the events of a session.
pub struct Documents {
    pub transcript: String,
    pub summary: String,
}

/// The transcript and the summary of a session, from its events in any order.
pub fn finalise(events: Vec<TimelineEvent>) -> (r: Documents)
    ensures
        r.transcript@ == transcript_of(events@),
        r.summary@ == summary_of(events@),
        r.transcript@ == transcript_text(collapsed(by_time(events@))),
        r.summary@ == summary_text(
            interleaved(collapsed(by_time(events@)), slides(by_time(events@))),
        ),
{
    let sorted = sort_by_time(events);
    Documents { transcript: transcript_of_sorted(&sorted), summary: summary_of_sorted(&sorted) }
}

// ---------------------------------------------------------------------------
// What holds of every summary
// ---------------------------------------------------------------------------

proof fn lemma_interleaved(said: Seq<Utterance>, shown: Seq<Slide>, least: int)
    requires
        forall|i: int| 0 <= i < said.len() ==> least <= (#[trigger] said[i]).t_ms,
        forall|i: int| 0 <= i < shown.len() ==> least <= (#[trigger] shown[i]).t_ms,
        forall|i: int, j: int|
            0 <= i <= j < said.len() ==> (#[trigger] said[i]).t_ms <= (#[trigger] said[j]).t_ms,
        forall|i: int, j: int|
            0 <= i <= j < shown.len() ==> (#[trigger] shown[i]).t_ms <= (#[trigger] shown[j]).t_ms,
    ensures
        ({
            let all = interleaved(said, shown);
            &&& all.len() == said.len() + shown.len()
            &&& forall|i: int| 0 <= i < all.len() ==> least <= entry_time(#[trigger] all[i])
            &&& forall|i: int, j: int|
                0 <= i <= j < all.len() ==> entry_time(#[trigger] all[i]) <= entry_time(
                    #[trigger] all[j],
                )
            &&& forall|i: int|
                0 <= i < said.len() ==> all.contains(Entry::Said(#[trigger] said[i]))
            &&& forall|i: int|
                0 <= i < shown.len() ==> all.contains(Entry::Shown(#[trigger] shown[i]))
        }),
    decreases said.len() + shown.len(),
{
    let all = interleaved(said, shown);
    if said.len() > 0 && (shown.len() == 0 || said.first().t_ms <= shown.first().t_ms) {
        let less = said.drop_first();
        let rest = interleaved(less, shown);
        let now = said[0].t_ms as int;
        assert forall|i: int| 0 <= i < less.len() implies now <= (#[trigger] less[i]).t_ms by {
            assert(said[0].t_ms <= said[i + 1].t_ms);
        }
        assert forall|i: int| 0 <= i < shown.len() implies now <= (#[trigger] shown[i]).t_ms by {
            assert(shown[0].t_ms <= shown[i].t_ms);
        }
        assert forall|i: int, j: int| 0 <= i <= j < less.len() implies (#[trigger] less[i]).t_ms <= (
        #[trigger] less[j]).t_ms by {
            assert(said[i + 1].t_ms <= said[j + 1].t_ms);
        }
        lemma_interleaved(less, shown, now);
        assert(all == seq![Entry::Said(said[0])] + rest);
        assert(all.drop_first() =~= rest);
        lemma_kept(all, rest);
        assert forall|i: int, j: int| 0 <= i <= j < all.len() implies entry_time(#[trigger] all[i])
            <= entry_time(#[trigger] all[j]) by {
            if i > 0 {
                assert(entry_time(rest[i - 1]) <= entry_time(rest[j - 1]));
            } else if j > 0 {
                assert(now <= entry_time(rest[j - 1]));
            }
        }
        assert(all[0] == Entry::Said(said[0]));
        assert forall|i: int| 0 <= i < said.len() implies all.contains(
            Entry::Said(#[trigger] said[i]),
        ) by {
            if i > 0 {
                assert(less[i - 1] == said[i]);
                assert(rest.contains(Entry::Said(less[i - 1])));
            }
        }
    } else if shown.len() > 0 {
        let less = shown.drop_first();
        let rest = interleaved(said, less);
        let now = shown[0].t_ms as int;
        assert forall|i: int| 0 <= i < less.len() implies now <= (#[trigger] less[i]).t_ms by {
            assert(shown[0].t_ms <= shown[i + 1].t_ms);
        }
        assert forall|i: int| 0 <= i < said.len() implies now <= (#[trigger] said[i]).t_ms by {
            assert(said[0].t_ms <= said[i].t_ms);
        }
        assert forall|i: int, j: int| 0 <= i <= j < less.len() implies (#[trigger] less[i]).t_ms <= (
        #[trigger] less[j]).t_ms by {
            assert(shown[i + 1].t_ms <= shown[j + 1].t_ms);
        }
        lemma_interleaved(said, less, now);
        assert(all == seq![Entry::Shown(shown[0])] + rest);
        assert(all.drop_first() =~= rest);
        lemma_kept(all, rest);
        assert forall|i: int, j: int| 0 <= i <= j < all.len() implies entry_time(#[trigger] all[i])
            <= entry_time(#[trigger] all[j]) by {
            if i > 0 {
                assert(entry_time(rest[i - 1]) <= entry_time(rest[j - 1]));
            } else if j > 0 {
                assert(now <= entry_time(rest[j - 1]));
            }
        }
        assert(all[0] == Entry::Shown(shown[0]));
        assert forall|i: int| 0 <= i < shown.len() implies all.contains(
            Entry::Shown(#[trigger] shown[i]),
        ) by {
            if i > 0 {
                assert(less[i - 1] == shown[i]);
                assert(rest.contains(Entry::Shown(less[i - 1])));
            }
        }
    }
}

proof fn lemma_kept(all: Seq<Entry>, rest: Seq<Entry>)
    requires
        all.len() == rest.len() + 1,
        all.drop_first() == rest,
    ensures
        forall|e: Entry| rest.contains(e) ==> #[trigger] all.contains(e),
{
    assert forall|e: Entry| rest.contains(e) implies #[trigger] all.contains(e) by {
        let k = choose|k: int| 0 <= k < rest.len() && rest[k] == e;
        assert(all[k + 1] == e);
    }
}

proof fn lemma_slides_in_order(s: Seq<TimelineEvent>)
    requires
        in_order(s),
    ensures
        forall|i: int, j: int|
            0 <= i <= j < slides(s).len() ==> (#[trigger] slides(s)[i]).t_ms <= (
            #[trigger] slides(s)[j]).t_ms,
        forall|i: int| 0 <= i < slides(s).len() ==> (#[trigger] slides(s)[i]).t_ms <= stamp(s.last()),
        forall|k: int|
            0 <= k < s.len() && slide_of(#[trigger] s[k]) is Some ==> slides(s).contains(
                slide_of(s[k])->0,
            ),
    decreases s.len(),
{
    if s.len() > 0 {
        let t = s.drop_last();
        assert forall|i: int, j: int| 0 <= i <= j < t.len() implies stamp(#[trigger] t[i]) <= stamp(
            #[trigger] t[j],
        ) by {
            assert(t[i] == s[i] && t[j] == s[j]);
        }
        lemma_slides_in_order(t);
        let a = slides(t);
        let b = slides(s);
        if t.len() > 0 {
            assert(t.last() == s[s.len() - 2]);
            assert(stamp(s[s.len() - 2]) <= stamp(s[s.len() - 1]));
        }
        assert forall|i: int| 0 <= i < b.len() implies (#[trigger] b[i]).t_ms <= stamp(s.last()) by {
            if i < a.len() {
                assert(b[i] == a[i]);
            }
        }
        assert forall|i: int, j: int| 0 <= i <= j < b.len() implies (#[trigger] b[i]).t_ms <= (
        #[trigger] b[j]).t_ms by {
            if j < a.len() {
                assert(b[i] == a[i] && b[j] == a[j]);
            } else {
                assert(b[j].t_ms == stamp(s.last()));
            }
        }
        assert forall|k: int| 0 <= k < s.len() && slide_of(#[trigger] s[k]) is Some implies b.contains(
            slide_of(s[k])->0,
        ) by {
            if k < t.len() {
                assert(t[k] == s[k]);
                let m = choose|m: int| 0 <= m < a.len() && a[m] == slide_of(t[k])->0;
                assert(b[m] == a[m]);
            } else {
                assert(b[b.len() - 1] == slide_of(s[k])->0);
            }
        }
    }
}

/// The summary is chronological and whole: no entry comes before an earlier one,
/// and every line of the transcript and every slide of the session is an entry.
pub proof fn law_summary_is_chronological(events: Seq<TimelineEvent>)
    ensures
        forall|i: int, j: int|
            0 <= i <= j < entries(events).len() ==> entry_time(#[trigger] entries(events)[i])
                <= entry_time(#[trigger] entries(events)[j]),
        entries(events).len() == collapsed(by_time(events)).len() + slides(by_time(events)).len(),
        forall|i: int|
            0 <= i < collapsed(by_time(events)).len() ==> entries(events).contains(
                Entry::Said(#[trigger] collapsed(by_time(events))[i]),
            ),
        forall|k: int|
            0 <= k < by_time(events).len() && slide_of(#[trigger] by_time(events)[k]) is Some
                ==> entries(events).contains(Entry::Shown(slide_of(by_time(events)[k])->0)),
{
    let s = by_time(events);
    law_order_is_stable(events);
    law_lines_keep_their_start(s);
    lemma_slides_in_order(s);
    lemma_interleaved(collapsed(s), slides(s), 0);
    assert forall|k: int| 0 <= k < s.len() && slide_of(#[trigger] s[k]) is Some implies entries(
        events,
    ).contains(Entry::Shown(slide_of(s[k])->0)) by {
        let m = choose|m: int| 0 <= m < slides(s).len() && slides(s)[m] == slide_of(s[k])->0;
        assert(entries(events).contains(Entry::Shown(slides(s)[m])));
    }
}

/// The slides are those events, in order, that are slides, each with its time, its
/// presenter and its file.
pub proof fn law_no_slide_is_left_out(s: Seq<TimelineEvent>)
    ensures
        slides(s) == s.filter(|e: TimelineEvent| e is Slide).map_values(
            |e: TimelineEvent|
                Slide {
                    t_ms: e->Slide_t_ms,
                    presenter: option_text(e->Slide_presenter),
                    path: e->Slide_path@,
                },
        ),
    decreases s.len(),
{
    reveal(Seq::filter);
    let p = |e: TimelineEvent| e is Slide;
    let f = |e: TimelineEvent|
        Slide {
            t_ms: e->Slide_t_ms,
            presenter: option_text(e->Slide_presenter),
            path: e->Slide_path@,
        };
    if s.len() > 0 {
        let front = s.drop_last();
        law_no_slide_is_left_out(front);
        if p(s.last()) {
            assert(s.filter(p).map_values(f) =~= front.filter(p).map_values(f).push(f(s.last())));
        }
    } else {
        assert(slides(s) =~= s.filter(p).map_values(f));
    }
}

/// Interleaving leaves out nothing and adds nothing: what was said stays in its
/// order, and so does what was shown.
pub proof fn law_interleaving_keeps_both(said: Seq<Utterance>, shown: Seq<Slide>)
    ensures
        interleaved(said, shown).filter(|e: Entry| e is Said) == said.map_values(
            |u: Utterance| Entry::Said(u),
        ),
        interleaved(said, shown).filter(|e: Entry| e is Shown) == shown.map_values(
            |s: Slide| Entry::Shown(s),
        ),
{
    lemma_said_kept(said, shown);
    lemma_shown_kept(said, shown);
    let p = |e: Entry| e is Said;
    let q = |e: Entry| e is Shown;
    assert(of_said() =~= p);
    assert(of_shown() =~= q);
}

spec fn of_said() -> spec_fn(Entry) -> bool {
    |e: Entry| e is Said
}

spec fn of_shown() -> spec_fn(Entry) -> bool {
    |e: Entry| e is Shown
}

proof fn lemma_filter_first(e: Entry, rest: Seq<Entry>, p: spec_fn(Entry) -> bool)
    ensures
        (seq![e] + rest).filter(p) == if p(e) {
            seq![e] + rest.filter(p)
        } else {
            rest.filter(p)
        },
{
    Seq::filter_distributes_over_add(seq![e], rest, p);
    assert(seq![e].filter(p) =~= if p(e) {
        seq![e]
    } else {
        Seq::empty()
    }) by {
        reveal_with_fuel(Seq::filter, 2);
        assert(seq![e].drop_last() =~= Seq::empty());
    }
    assert(Seq::<Entry>::empty() + rest.filter(p) =~= rest.filter(p));
}

proof fn lemma_said_kept(said: Seq<Utterance>, shown: Seq<Slide>)
    ensures
        interleaved(said, shown).filter(of_said()) == said.map_values(
            |u: Utterance| Entry::Said(u),
        ),
    decreases said.len() + shown.len(),
{
    let f = |u: Utterance| Entry::Said(u);
    if said.len() > 0 && (shown.len() == 0 || said.first().t_ms <= shown.first().t_ms) {
        let rest = interleaved(said.drop_first(), shown);
        lemma_said_kept(said.drop_first(), shown);
        lemma_filter_first(Entry::Said(said.first()), rest, of_said());
        assert(said.map_values(f) =~= seq![f(said.first())] + said.drop_first().map_values(f));
    } else if shown.len() > 0 {
        let rest = interleaved(said, shown.drop_first());
        lemma_said_kept(said, shown.drop_first());
        lemma_filter_first(Entry::Shown(shown.first()), rest, of_said());
    } else {
        reveal(Seq::filter);
        assert(interleaved(said, shown).filter(of_said()) =~= said.map_values(f));
    }
}

proof fn lemma_shown_kept(said: Seq<Utterance>, shown: Seq<Slide>)
    ensures
        interleaved(said, shown).filter(of_shown()) == shown.map_values(
            |s: Slide| Entry::Shown(s),
        ),
    decreases said.len() + shown.len(),
{
    let g = |s: Slide| Entry::Shown(s);
    if said.len() > 0 && (shown.len() == 0 || said.first().t_ms <= shown.first().t_ms) {
        let rest = interleaved(said.drop_first(), shown);
        lemma_shown_kept(said.drop_first(), shown);
        lemma_filter_first(Entry::Said(said.first()), rest, of_shown());
    } else if shown.len() > 0 {
        let rest = interleaved(said, shown.drop_first());
        lemma_shown_kept(said, shown.drop_first());
        lemma_filter_first(Entry::Shown(shown.first()), rest, of_shown());
        assert(shown.map_values(g) =~= seq![g(shown.first())] + shown.drop_first().map_values(g));
    } else {
        reveal(Seq::filter);
        assert(interleaved(said, shown).filter(of_shown()) =~= shown.map_values(g));
    }
}

/// What was said no later than the next slide stands before it, and a slide that was
/// shown before the next words stands before them.
pub proof fn law_earlier_comes_first(said: Seq<Utterance>, shown: Seq<Slide>)
    requires
        said.len() > 0,
        shown.len() > 0,
    ensures
        interleaved(said, shown).len() > 0,
        said[0].t_ms <= shown[0].t_ms ==> interleaved(said, shown)[0] == Entry::Said(said[0]),
        said[0].t_ms > shown[0].t_ms ==> interleaved(said, shown)[0] == Entry::Shown(shown[0]),
{
}

/// A summary is its title and its entries, one after the other.
pub proof fn law_summary_is_its_entries(s: Seq<Entry>)
    requires
        s.len() > 0,
    ensures
        summary_text(s) == "# Meeting summary\n\n"@ + s.map_values(
            |e: Entry| entry_text(e),
        ).flatten(),
{
    lemma_entries_flat(s);
}

proof fn lemma_entries_flat(s: Seq<Entry>)
    ensures
        entries_text(s) == s.map_values(|e: Entry| entry_text(e)).flatten(),
    decreases s.len(),
{
    let f = |e: Entry| entry_text(e);
    if s.len() > 0 {
        lemma_entries_flat(s.drop_first());
        assert(s.map_values(f).drop_first() =~= s.drop_first().map_values(f));
        assert(s.map_values(f).first() == f(s.first()));
    } else {
        assert(s.map_values(f) =~= Seq::empty());
    }
}

/// An entry tells its time, who spoke or presented, and what was said or where the
/// picture of the slide lies.
pub proof fn law_entry_tells_who_and_what(u: Utterance, s: Slide)
    ensures
        entry_text(Entry::Said(u)) == "- ["@ + time_text(u.t_ms) + "] **"@ + (if u.speaker is Some {
            u.speaker->0
        } else {
            "?"@
        }) + "**: "@ + u.text + "\n"@,
        entry_text(Entry::Shown(s)) == "- ["@ + time_text(s.t_ms) + "] slide by "@ + (
        if s.presenter is Some {
            s.presenter->0
        } else {
            "unknown"@
        }) + ": ![slide]("@ + s.path + ")\n"@,
{
}

} // verus!
