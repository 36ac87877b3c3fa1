//! From the events of a session to its transcript.
//!
//! Teams shows a spoken sentence as rows that grow word by word, and each of
//! them can become an event of its own. The transcript holds one line for each
//! finished sentence: rows of one speaker that follow each other are merged
//! where one begins like the other.

use vstd::prelude::*;

use crate::text::{
    ascii, ascii_lowercase, blank, char_alphanumeric, char_lowercase, char_whitespace, chars_of,
    contains, copy_option_text, in_ascii, is_blank, law_contains_means_within,
    law_padding_keeps_the_number, lines, lines_of, lower_char, number, option_text, padded,
    push_three_digits, push_two_digits, same_option_text, same_text, texts,
};
use crate::timeline::event::{stamp, TimelineEvent};

verus! {

// ---------------------------------------------------------------------------
// The journal of events
// ---------------------------------------------------------------------------

/// The file that events are written to, one line each, while a session runs.
pub const EVENTS_FILE: &'static str = "events.jsonl";

/// The file that the transcript is written to.
pub const TRANSCRIPT_FILE: &'static str = "transcript.txt";

/// The entry of the journal that holds one event.
pub fn journal_entry(event: &str) -> (r: String)
    ensures
        r@ == event@.push('\n'),
{
    let mut r = event.to_owned();
    r.push('\n');
    r
}

/// The lines of a list that are not blank.
pub open spec fn not_blank(s: Seq<Seq<char>>) -> Seq<Seq<char>>
    decreases s.len(),
{
    if s.len() == 0 {
        Seq::empty()
    } else if blank(s.last()) {
        not_blank(s.drop_last())
    } else {
        not_blank(s.drop_last()).push(s.last())
    }
}

/// The events that a journal holds, each still as text.
pub fn event_lines(journal: &str) -> (r: Vec<String>)
    ensures
        texts(r@) == not_blank(lines(journal@)),
{
    let all = lines_of(journal);
    let ghost l = texts(all@);
    let mut out: Vec<String> = Vec::new();
    let mut i: usize = 0;
    assert(l.take(0) =~= Seq::empty());
    assert(texts(out@) =~= not_blank(l.take(0)));
    while i < all.len()
        invariant
            i <= all@.len(),
            l == texts(all@),
            texts(out@) == not_blank(l.take(i as int)),
        decreases all@.len() - i,
    {
        assert(l.take(i + 1).drop_last() =~= l.take(i as int));
        assert(l.take(i + 1).last() == all@[i as int]@);
        if !is_blank(all[i].as_str()) {
            let ghost before = out@;
            out.push(all[i].clone());
            assert(texts(out@) =~= texts(before).push(all@[i as int]@));
        }
        i += 1;
    }
    assert(l.take(i as int) =~= l);
    out
}

/// Of the lines of a journal only those are left out that are blank.
pub proof fn law_only_blank_lines_are_left_out(s: Seq<Seq<char>>)
    ensures
        not_blank(s) == s.filter(
            |line: Seq<char>|
                exists|i: int| 0 <= i < line.len() && !char_whitespace(#[trigger] line[i]),
        ),
    decreases s.len(),
{
    reveal(Seq::filter);
    if s.len() > 0 {
        law_only_blank_lines_are_left_out(s.drop_last());
    } else {
        assert(not_blank(s) =~= s);
    }
}

/// The journal that events were written to, one after the other.
pub open spec fn journal(events: Seq<Seq<char>>) -> Seq<char>
    decreases events.len(),
{
    if events.len() == 0 {
        Seq::empty()
    } else {
        events.first().push('\n') + journal(events.drop_first())
    }
}

/// An event that takes up one line.
pub open spec fn one_line(event: Seq<char>) -> bool {
    &&& forall|i: int| 0 <= i < event.len() ==> event[i] != '\n'
    &&& event.len() > 0 ==> event.last() != '\r'
    &&& !blank(event)
}

/// What was written to the journal is what is read back.
pub proof fn law_journal_reads_back(events: Seq<Seq<char>>)
    requires
        forall|i: int| 0 <= i < events.len() ==> one_line(#[trigger] events[i]),
    ensures
        not_blank(lines(journal(events))) == events,
{
    lemma_journal_lines(events);
    lemma_none_blank(events);
}

proof fn lemma_journal_lines(events: Seq<Seq<char>>)
    requires
        forall|i: int| 0 <= i < events.len() ==> one_line(#[trigger] events[i]),
    ensures
        lines(journal(events)) == events,
    decreases events.len(),
{
    if events.len() > 0 {
        let e = events[0];
        let rest = events.drop_first();
        assert forall|i: int| 0 <= i < rest.len() implies one_line(#[trigger] rest[i]) by {
            assert(rest[i] == events[i + 1]);
        }
        lemma_journal_lines(rest);
        let j = journal(events);
        assert(one_line(e));
        assert(j[e.len() as int] == '\n');
        assert forall|i: int| 0 <= i < e.len() implies j[i] != '\n' by {
            assert(j[i] == e[i]);
        }
        crate::text::lemma_line_feed(j, e.len() as int);
        assert(j.take(e.len() as int) =~= e);
        assert(j.skip(e.len() as int + 1) =~= journal(rest));
        assert(seq![e] + rest =~= events);
    } else {
        assert(lines(journal(events)) =~= events);
    }
}

proof fn lemma_none_blank(s: Seq<Seq<char>>)
    requires
        forall|i: int| 0 <= i < s.len() ==> one_line(#[trigger] s[i]),
    ensures
        not_blank(s) == s,
    decreases s.len(),
{
    if s.len() > 0 {
        let rest = s.drop_last();
        assert forall|i: int| 0 <= i < rest.len() implies one_line(#[trigger] rest[i]) by {
            assert(rest[i] == s[i]);
        }
        lemma_none_blank(rest);
        assert(one_line(s[s.len() - 1]));
        assert(rest.push(s.last()) =~= s);
    } else {
        assert(not_blank(s) =~= s);
    }
}

// ---------------------------------------------------------------------------
// Order
// ---------------------------------------------------------------------------

/// An event put among others that are in order: after all that are not later.
pub open spec fn put_in_order(s: Seq<TimelineEvent>, e: TimelineEvent) -> Seq<TimelineEvent>
    decreases s.len(),
{
    if s.len() > 0 && stamp(s.last()) > stamp(e) {
        put_in_order(s.drop_last(), e).push(s.last())
    } else {
        s.push(e)
    }
}

/// Events in the order of their monotonic time; those of one time stay in the
/// order in which they came.
pub open spec fn by_time(s: Seq<TimelineEvent>) -> Seq<TimelineEvent>
    decreases s.len(),
{
    if s.len() == 0 {
        s
    } else {
        put_in_order(by_time(s.drop_last()), s.last())
    }
}

/// Where the events of `by_time(s)` stood in `s`.
pub open spec fn places(s: Seq<TimelineEvent>) -> Seq<int>
    decreases s.len(),
{
    if s.len() == 0 {
        Seq::empty()
    } else {
        let before = places(s.drop_last());
        before.insert(room_for(by_time(s.drop_last()), s.last()), s.len() - 1)
    }
}

/// Behind how many events of `s`, which are in order, `e` is put.
pub open spec fn room_for(s: Seq<TimelineEvent>, e: TimelineEvent) -> int
    decreases s.len(),
{
    if s.len() > 0 && stamp(s.last()) > stamp(e) {
        room_for(s.drop_last(), e)
    } else {
        s.len() as int
    }
}

/// Every event comes before those that are later.
pub open spec fn in_order(s: Seq<TimelineEvent>) -> bool {
    forall|i: int, j: int|
        0 <= i <= j < s.len() ==> stamp(#[trigger] s[i]) <= stamp(#[trigger] s[j])
}

proof fn lemma_room(s: Seq<TimelineEvent>, e: TimelineEvent)
    requires
        in_order(s),
    ensures
        0 <= room_for(s, e) <= s.len(),
        put_in_order(s, e) == s.insert(room_for(s, e), e),
        forall|i: int| 0 <= i < room_for(s, e) ==> stamp(#[trigger] s[i]) <= stamp(e),
        forall|i: int| room_for(s, e) <= i < s.len() ==> stamp(#[trigger] s[i]) > stamp(e),
    decreases s.len(),
{
    if s.len() > 0 && stamp(s.last()) > stamp(e) {
        let t = s.drop_last();
        assert forall|i: int, j: int| 0 <= i <= j < t.len() implies stamp(#[trigger] t[i])
            <= stamp(#[trigger] t[j]) by {
            assert(t[i] == s[i] && t[j] == s[j]);
        }
        lemma_room(t, e);
        let k = room_for(t, e);
        assert(t.insert(k, e).push(s.last()) =~= s.insert(k, e));
        assert forall|i: int| 0 <= i < k implies stamp(#[trigger] s[i]) <= stamp(e) by {
            assert(t[i] == s[i]);
        }
        assert forall|i: int| k <= i < s.len() implies stamp(#[trigger] s[i]) > stamp(e) by {
            if i < t.len() {
                assert(t[i] == s[i]);
            }
        }
    } else {
        assert(s.insert(s.len() as int, e) =~= s.push(e));
        if s.len() > 0 {
            assert forall|i: int| 0 <= i < s.len() implies stamp(#[trigger] s[i]) <= stamp(e) by {
                assert(stamp(s[i]) <= stamp(s[s.len() - 1]));
            }
        }
    }
}

/// The transcript's order is a stable sort: the events are all there, each
/// once; none comes before an earlier one; and events of one time keep the
/// order in which they came.
#[verifier::spinoff_prover]
#[verifier::rlimit(40)]
pub proof fn law_order_is_stable(s: Seq<TimelineEvent>)
    ensures
        by_time(s).len() == s.len(),
        places(s).len() == s.len(),
        in_order(by_time(s)),
        places(s).no_duplicates(),
        forall|i: int|
            0 <= i < s.len() ==> 0 <= #[trigger] places(s)[i] < s.len() && by_time(s)[i]
                == s[places(s)[i]],
        forall|i: int, j: int|
            0 <= i < j < s.len() && stamp(by_time(s)[i]) == stamp(by_time(s)[j])
                ==> #[trigger] places(s)[i] < #[trigger] places(s)[j],
    decreases s.len(),
{
    if s.len() > 0 {
        let t = s.drop_last();
        let e = s.last();
        law_order_is_stable(t);
        let b = by_time(t);
        let p = places(t);
        lemma_room(b, e);
        let k = room_for(b, e);
        let q = places(s);
        let r = by_time(s);
        assert(r == b.insert(k, e));
        assert(q == p.insert(k, s.len() - 1));
        assert forall|i: int, j: int| 0 <= i <= j < r.len() implies stamp(#[trigger] r[i])
            <= stamp(#[trigger] r[j]) by {
            if i < k {
                assert(r[i] == b[i]);
            } else if i > k {
                assert(r[i] == b[i - 1]);
            }
            if j < k {
                assert(r[j] == b[j]);
            } else if j > k {
                assert(r[j] == b[j - 1]);
            }
        }
        assert forall|i: int| 0 <= i < s.len() implies 0 <= #[trigger] q[i] < s.len() && r[i]
            == s[q[i]] by {
            if i < k {
                assert(q[i] == p[i]);
                assert(r[i] == b[i]);
                assert(t[p[i]] == s[p[i]]);
            } else if i > k {
                assert(q[i] == p[i - 1]);
                assert(r[i] == b[i - 1]);
                assert(t[p[i - 1]] == s[p[i - 1]]);
            }
        }
        assert forall|i: int, j: int| 0 <= i < q.len() && 0 <= j < q.len() && i != j implies q[i]
            != q[j] by {
            let i2 = if i < k { i } else { i - 1 };
            let j2 = if j < k { j } else { j - 1 };
            if i != k {
                assert(q[i] == p[i2]);
                assert(0 <= p[i2] < t.len());
            }
            if j != k {
                assert(q[j] == p[j2]);
                assert(0 <= p[j2] < t.len());
            }
        }
        assert forall|i: int, j: int|
            0 <= i < j < s.len() && stamp(r[i]) == stamp(r[j]) implies #[trigger] q[i]
            < #[trigger] q[j] by {
            let i2 = if i < k { i } else { i - 1 };
            let j2 = if j < k { j } else { j - 1 };
            if i != k {
                assert(q[i] == p[i2]);
                assert(r[i] == b[i2]);
                assert(0 <= p[i2] < t.len());
            }
            if j != k {
                assert(q[j] == p[j2]);
                assert(r[j] == b[j2]);
                assert(0 <= p[j2] < t.len());
            }
        }
    }
}

/// Sorted events are in the order of their time, and each stands there as often as
/// it came.
pub proof fn law_sorting_keeps_every_event(s: Seq<TimelineEvent>)
    ensures
        by_time(s).to_multiset() == s.to_multiset(),
        forall|i: int, j: int|
            0 <= i <= j < by_time(s).len() ==> stamp(#[trigger] by_time(s)[i]) <= stamp(
                #[trigger] by_time(s)[j],
            ),
{
    law_order_is_stable(s);
    lemma_sorted_events(s);
}

fn insert_in_order(s: &mut Vec<TimelineEvent>, e: TimelineEvent)
    requires
        in_order(old(s)@),
    ensures
        final(s)@ == put_in_order(old(s)@, e),
{
    proof {
        lemma_room(s@, e);
    }
    let t: u64 = e.t_ms();
    let mut k: usize = s.len();
    while k > 0 && s[k - 1].t_ms() > t
        invariant
            k <= s@.len(),
            room_for(s@, e) <= k,
            t == stamp(e),
            forall|i: int| 0 <= i < room_for(s@, e) ==> stamp(#[trigger] s@[i]) <= stamp(e),
            forall|i: int| room_for(s@, e) <= i < s@.len() ==> stamp(#[trigger] s@[i]) > stamp(e),
        decreases k,
    {
        assert(stamp(s@[k - 1]) > stamp(e));
        k -= 1;
    }
    assert(k == room_for(s@, e)) by {
        if k > room_for(s@, e) {
            assert(stamp(s@[k - 1]) > stamp(e));
        }
    }
    s.insert(k, e);
}

/// Events in the order of their monotonic time.
pub fn sort_by_time(events: Vec<TimelineEvent>) -> (r: Vec<TimelineEvent>)
    ensures
        r@ == by_time(events@),
{
    let ghost all = events@;
    let mut out: Vec<TimelineEvent> = Vec::new();
    assert(all.take(0) =~= Seq::empty());
    assert(out@ =~= by_time(all.take(0)));
    for e in it: events
        invariant
            it.seq() == all,
            out@ == by_time(all.take(it.index() as int)),
    {
        let ghost i = it.index() as int;
        assert(all.take(i + 1).drop_last() =~= all.take(i));
        assert(all.take(i + 1).last() == e);
        proof {
            law_order_is_stable(all.take(i));
        }
        insert_in_order(&mut out, e);
    }
    assert(all.take(all.len() as int) =~= all);
    out
}

// ---------------------------------------------------------------------------
// Merging growing rows
// ---------------------------------------------------------------------------

/// The letters and digits of a text in lower case, with one space where the
/// text has white space between them; and whether white space was last.
pub open spec fn squeezed(s: Seq<char>) -> (Seq<char>, bool)
    decreases s.len(),
{
    if s.len() == 0 {
        (Seq::empty(), true)
    } else {
        let (out, spaced) = squeezed(s.drop_last());
        let c = s.last();
        if char_alphanumeric(c) {
            (out + char_lowercase(c), false)
        } else if char_whitespace(c) && !spaced {
            (out.push(' '), true)
        } else {
            (out, spaced)
        }
    }
}

/// A text as it is compared with others: without case and punctuation, and
/// with single spaces between words.
pub open spec fn normalized(s: Seq<char>) -> Seq<char> {
    let out = squeezed(s).0;
    if out.len() > 0 && out.last() == ' ' {
        out.drop_last()
    } else {
        out
    }
}

/// A text as it is compared with others.
pub fn normalize_for_compare(s: &str) -> (r: Vec<char>)
    ensures
        r@ == normalized(s@),
{
    let chars = chars_of(s);
    let mut out: Vec<char> = Vec::new();
    let mut spaced = true;
    let mut i: usize = 0;
    assert(chars@.take(0) =~= Seq::empty());
    assert(out@ =~= squeezed(chars@.take(0)).0);
    while i < chars.len()
        invariant
            i <= chars@.len(),
            (out@, spaced) == squeezed(chars@.take(i as int)),
        decreases chars@.len() - i,
    {
        assert(chars@.take(i + 1).drop_last() =~= chars@.take(i as int));
        let c = chars[i];
        if c.is_alphanumeric() {
            let mut lower = lower_char(c);
            out.append(&mut lower);
            spaced = false;
        } else if c.is_whitespace() {
            if !spaced {
                out.push(' ');
                spaced = true;
            }
        }
        i += 1;
    }
    assert(chars@.take(i as int) =~= chars@);
    if out.len() > 0 && out[out.len() - 1] == ' ' {
        let ghost whole = out@;
        out.pop();
        assert(out@ =~= whole.drop_last());
    }
    out
}

/// A letter of ASCII as a capital; another character stays as it is.
pub open spec fn ascii_uppercase(c: char) -> char {
    if 'a' <= c <= 'z' {
        ((c as u32) - 32) as char
    } else {
        c
    }
}

/// A text with the letters of ASCII as capitals.
pub open spec fn in_capitals(s: Seq<char>) -> Seq<char> {
    s.map_values(|c: char| ascii_uppercase(c))
}

/// A text of small letters, digits and single spaces between them; a space may
/// stand at the end.
spec fn tidy(s: Seq<char>) -> bool {
    &&& forall|i: int|
        0 <= i < s.len() ==> (#[trigger] s[i] == ' ' || '0' <= s[i] <= '9' || 'a' <= s[i] <= 'z')
    &&& forall|i: int|
        0 <= i < s.len() && #[trigger] s[i] == ' ' ==> i > 0 && s[i - 1] != ' '
}

proof fn lemma_squeezed_is_tidy(s: Seq<char>)
    requires
        in_ascii(s),
    ensures
        tidy(squeezed(s).0),
        squeezed(s).1 == (squeezed(s).0.len() == 0 || squeezed(s).0.last() == ' '),
    decreases s.len(),
{
    if s.len() > 0 {
        let t = s.drop_last();
        assert forall|i: int| 0 <= i < t.len() implies ascii(#[trigger] t[i]) by {
            assert(t[i] == s[i]);
        }
        lemma_squeezed_is_tidy(t);
        let before = squeezed(t).0;
        let now = squeezed(s).0;
        let c = s.last();
        assert(ascii(s[s.len() - 1]));
        if char_alphanumeric(c) {
            assert(now =~= before.push(ascii_lowercase(c)));
        }
        assert forall|i: int|
            0 <= i < now.len() && #[trigger] now[i] == ' ' implies i > 0 && now[i - 1] != ' ' by {
            if i < before.len() {
                assert(now[i] == before[i]);
                assert(now[i - 1] == before[i - 1]);
            }
        }
    }
}

proof fn lemma_tidy_stays(s: Seq<char>)
    requires
        tidy(s),
    ensures
        squeezed(s).0 == s,
        squeezed(s).1 == (s.len() == 0 || s.last() == ' '),
    decreases s.len(),
{
    if s.len() > 0 {
        let t = s.drop_last();
        assert forall|i: int| 0 <= i < t.len() implies (#[trigger] t[i] == ' ' || '0' <= t[i] <= '9'
            || 'a' <= t[i] <= 'z') by {
            assert(t[i] == s[i]);
        }
        assert forall|i: int| 0 <= i < t.len() && #[trigger] t[i] == ' ' implies i > 0 && t[i - 1]
            != ' ' by {
            assert(t[i] == s[i]);
            assert(t[i - 1] == s[i - 1]);
        }
        lemma_tidy_stays(t);
        let c = s[s.len() - 1];
        assert(c == s.last());
        assert(t.push(c) =~= s);
        assert(t + seq![c] =~= s);
    }
}

proof fn lemma_capitals_squeezed(s: Seq<char>)
    requires
        in_ascii(s),
    ensures
        squeezed(in_capitals(s)) == squeezed(s),
    decreases s.len(),
{
    if s.len() > 0 {
        let t = s.drop_last();
        assert forall|i: int| 0 <= i < t.len() implies ascii(#[trigger] t[i]) by {
            assert(t[i] == s[i]);
        }
        lemma_capitals_squeezed(t);
        let c = s[s.len() - 1];
        assert(ascii(c));
        assert(in_capitals(s).drop_last() =~= in_capitals(t));
        assert(in_capitals(s).last() == ascii_uppercase(c));
        assert(ascii_lowercase(ascii_uppercase(c)) == ascii_lowercase(c));
    }
}

/// A text that is normalized stays as it is, and whether letters are capitals
/// makes no difference. Both are stated of texts in ASCII.
pub proof fn law_normalizing_settles(s: Seq<char>)
    requires
        in_ascii(s),
    ensures
        normalized(normalized(s)) == normalized(s),
        normalized(in_capitals(s)) == normalized(s),
{
    lemma_squeezed_is_tidy(s);
    lemma_capitals_squeezed(s);
    let out = squeezed(s).0;
    let n = normalized(s);
    assert forall|i: int| 0 <= i < n.len() implies (#[trigger] n[i] == ' ' || '0' <= n[i] <= '9'
        || 'a' <= n[i] <= 'z') by {
        assert(n[i] == out[i]);
    }
    assert forall|i: int| 0 <= i < n.len() && #[trigger] n[i] == ' ' implies i > 0 && n[i - 1]
        != ' ' by {
        assert(n[i] == out[i]);
        assert(n[i - 1] == out[i - 1]);
    }
    lemma_tidy_stays(n);
    if out.len() > 0 && out.last() == ' ' {
        assert(out[out.len() - 1] == ' ');
        assert(n.len() > 0 && n.last() == out[out.len() - 2]);
    }
}

/// The letters and digits of a text have lowercase forms, and none of them has a
/// blank in it. Of texts in ASCII this holds.
pub open spec fn letters_stay_letters(s: Seq<char>) -> bool {
    forall|i: int|
        0 <= i < s.len() && char_alphanumeric(#[trigger] s[i]) ==> char_lowercase(s[i]).len() > 0
            && !char_lowercase(s[i]).contains(' ')
}

proof fn lemma_squeezed_ends(s: Seq<char>)
    requires
        letters_stay_letters(s),
    ensures
        squeezed(s).1 == (squeezed(s).0.len() == 0 || squeezed(s).0.last() == ' '),
        squeezed(s).0.len() > 0 ==> squeezed(s).0[0] != ' ',
        squeezed(s).0.len() > 0 && squeezed(s).0.last() == ' ' ==> squeezed(s).0.len() > 1,
    decreases s.len(),
{
    if s.len() > 0 {
        let t = s.drop_last();
        assert forall|i: int| 0 <= i < t.len() && char_alphanumeric(#[trigger] t[i]) implies
            char_lowercase(t[i]).len() > 0 && !char_lowercase(t[i]).contains(' ') by {
            assert(t[i] == s[i]);
        }
        lemma_squeezed_ends(t);
        let c = s[s.len() - 1];
        if char_alphanumeric(c) {
            let l = char_lowercase(c);
            let out = squeezed(s).0;
            assert(out =~= squeezed(t).0 + l);
            assert(l.contains(l[l.len() - 1]) && l.contains(l[0]));
            assert(out.last() == l[l.len() - 1]);
            if squeezed(t).0.len() == 0 {
                assert(out[0] == l[0]);
            } else {
                assert(out[0] == squeezed(t).0[0]);
            }
        }
    }
}

proof fn lemma_squeezed_after_space(p: Seq<char>, b: Seq<char>)
    requires
        squeezed(p).1,
    ensures
        squeezed(p + b) == (squeezed(p).0 + squeezed(b).0, squeezed(b).1),
    decreases b.len(),
{
    if b.len() == 0 {
        assert(p + b =~= p);
        assert(squeezed(p).0 + squeezed(b).0 =~= squeezed(p).0);
    } else {
        lemma_squeezed_after_space(p, b.drop_last());
        assert((p + b).drop_last() =~= p + b.drop_last());
        assert((p + b).last() == b.last());
        assert(squeezed(p + b).0 =~= squeezed(p).0 + squeezed(b).0);
    }
}

/// Normalizing keeps every letter and digit, in lower case, and drops all else: a
/// single character gives its lowercase form if it is a letter or digit, and
/// nothing otherwise; and texts without white space can be normalized piece by
/// piece.
pub proof fn law_normalizing_keeps_every_letter(a: Seq<char>, b: Seq<char>, c: char)
    requires
        letters_stay_letters(a),
        letters_stay_letters(b),
        letters_stay_letters(seq![c]),
        forall|i: int| 0 <= i < a.len() ==> !char_whitespace(#[trigger] a[i]),
        forall|i: int| 0 <= i < b.len() ==> !char_whitespace(#[trigger] b[i]),
    ensures
        normalized(seq![c]) == if char_alphanumeric(c) {
            char_lowercase(c)
        } else {
            Seq::empty()
        },
        normalized(a + b) == normalized(a) + normalized(b),
{
    let one = seq![c];
    assert(one.drop_last() =~= Seq::empty());
    assert(one[0] == c);
    reveal_with_fuel(squeezed, 2);
    lemma_squeezed_ends(one);
    if char_alphanumeric(c) {
        let l = char_lowercase(c);
        assert(l.contains(l[l.len() - 1]));
        assert(squeezed(one).0 =~= l);
    } else {
        assert(squeezed(one).0 =~= Seq::empty());
    }
    lemma_one_word(a);
    lemma_one_word(b);
    lemma_word_pieces(a, b);
    let s = a + b;
    assert forall|i: int| 0 <= i < s.len() && char_alphanumeric(#[trigger] s[i]) implies
        char_lowercase(s[i]).len() > 0 && !char_lowercase(s[i]).contains(' ') by {
        if i < a.len() {
            assert(s[i] == a[i]);
        } else {
            assert(s[i] == b[i - a.len()]);
        }
    }
    assert forall|i: int| 0 <= i < s.len() implies !char_whitespace(#[trigger] s[i]) by {
        if i < a.len() {
            assert(s[i] == a[i]);
        } else {
            assert(s[i] == b[i - a.len()]);
        }
    }
    lemma_one_word(s);
}

proof fn lemma_one_word(s: Seq<char>)
    requires
        letters_stay_letters(s),
        forall|i: int| 0 <= i < s.len() ==> !char_whitespace(#[trigger] s[i]),
    ensures
        normalized(s) == squeezed(s).0,
    decreases s.len(),
{
    if s.len() > 0 {
        let t = s.drop_last();
        assert forall|i: int| 0 <= i < t.len() && char_alphanumeric(#[trigger] t[i]) implies
            char_lowercase(t[i]).len() > 0 && !char_lowercase(t[i]).contains(' ') by {
            assert(t[i] == s[i]);
        }
        assert forall|i: int| 0 <= i < t.len() implies !char_whitespace(#[trigger] t[i]) by {
            assert(t[i] == s[i]);
        }
        lemma_one_word(t);
        let c = s[s.len() - 1];
        assert(!char_whitespace(c));
        if char_alphanumeric(c) {
            let l = char_lowercase(c);
            assert(l.contains(l[l.len() - 1]));
            assert(squeezed(s).0.last() == l[l.len() - 1]);
        } else if squeezed(t).0.len() > 0 && squeezed(t).0.last() == ' ' {
            assert(normalized(t).len() < squeezed(t).0.len());
        }
    }
}

proof fn lemma_word_pieces(a: Seq<char>, b: Seq<char>)
    requires
        forall|i: int| 0 <= i < b.len() ==> !char_whitespace(#[trigger] b[i]),
    ensures
        squeezed(a + b).0 == squeezed(a).0 + squeezed(b).0,
    decreases b.len(),
{
    if b.len() == 0 {
        assert(a + b =~= a);
        assert(squeezed(a).0 + squeezed(b).0 =~= squeezed(a).0);
    } else {
        let t = b.drop_last();
        assert forall|i: int| 0 <= i < t.len() implies !char_whitespace(#[trigger] t[i]) by {
            assert(t[i] == b[i]);
        }
        lemma_word_pieces(a, t);
        assert(!char_whitespace(b[b.len() - 1]));
        assert((a + b).drop_last() =~= a + t);
        assert((a + b).last() == b.last());
        assert(squeezed(a + b).0 =~= squeezed(a).0 + squeezed(b).0);
    }
}

/// White space separates: what stands before it and what stands behind it are
/// normalized on their own, with one space between them, which is left out where
/// nothing is left of either.
pub proof fn law_white_space_separates(a: Seq<char>, w: char, b: Seq<char>)
    requires
        letters_stay_letters(a),
        letters_stay_letters(b),
        char_whitespace(w),
        !char_alphanumeric(w),
    ensures
        normalized(a + seq![w] + b) == if normalized(a).len() == 0 {
            normalized(b)
        } else if normalized(b).len() == 0 {
            normalized(a)
        } else {
            normalized(a) + seq![' '] + normalized(b)
        },
{
    let p = a + seq![w];
    lemma_squeezed_ends(a);
    lemma_squeezed_ends(b);
    assert(p.drop_last() =~= a);
    assert(p.last() == w);
    assert(squeezed(p).1);
    lemma_squeezed_after_space(p, b);
    let head = squeezed(p).0;
    let tail = squeezed(b).0;
    let whole = squeezed(p + b).0;
    assert(whole == head + tail);
    if tail.len() == 0 {
        assert(whole =~= head);
        if !squeezed(a).1 {
            assert(head.drop_last() =~= squeezed(a).0);
        }
    } else {
        assert(whole.last() == tail.last());
        assert(normalized(b).len() > 0);
        if tail.last() == ' ' {
            assert(whole.drop_last() =~= head + tail.drop_last());
        }
        if !squeezed(a).1 {
            assert(normalized(a) == squeezed(a).0);
            assert(head =~= normalized(a) + seq![' ']);
        } else if squeezed(a).0.len() > 0 {
            assert(head =~= normalized(a) + seq![' ']);
        } else {
            assert(head =~= Seq::empty());
        }
        assert(normalized(p + b) =~= head + normalized(b));
    }
}

/// A line of the transcript.
pub struct CollapsedCaption {
    pub t_ms: u64,
    pub speaker: Option<String>,
    pub text: String,
}

/// What a line of the transcript says.
pub struct Utterance {
    pub t_ms: u64,
    pub speaker: Option<Seq<char>>,
    pub text: Seq<char>,
}

impl View for CollapsedCaption {
    type V = Utterance;

    open spec fn view(&self) -> Utterance {
        Utterance { t_ms: self.t_ms, speaker: option_text(self.speaker), text: self.text@ }
    }
}

/// What the lines of a transcript say.
pub open spec fn utterances(s: Seq<CollapsedCaption>) -> Seq<Utterance> {
    s.map_values(|c: CollapsedCaption| c@)
}

/// What an event says, if it is a caption.
pub open spec fn spoken(e: TimelineEvent) -> Option<Utterance> {
    match e {
        TimelineEvent::Caption { t_ms, speaker, text, .. } => Some(
            Utterance { t_ms, speaker: option_text(speaker), text: text@ },
        ),
        _ => None,
    }
}

/// `b` begins like `a`, once both are normalized.
pub open spec fn extends(b: Seq<char>, a: Seq<char>) -> bool {
    normalized(a).is_prefix_of(normalized(b))
}

/// One more caption. If the same speaker spoke last and the caption begins
/// like what they said, it takes the place of that text, which keeps its time;
/// if what they said begins like the caption, the caption is dropped; else it
/// is a line of its own.
pub open spec fn merged(s: Seq<Utterance>, c: Utterance) -> Seq<Utterance> {
    if s.len() > 0 && s.last().speaker == c.speaker && extends(c.text, s.last().text) {
        s.drop_last().push(Utterance { text: c.text, ..s.last() })
    } else if s.len() > 0 && s.last().speaker == c.speaker && extends(s.last().text, c.text) {
        s
    } else {
        s.push(c)
    }
}

/// The captions of a list of events, merged.
pub open spec fn collapsed(s: Seq<TimelineEvent>) -> Seq<Utterance>
    decreases s.len(),
{
    if s.len() == 0 {
        Seq::empty()
    } else {
        match spoken(s.last()) {
            Some(c) => merged(collapsed(s.drop_last()), c),
            None => collapsed(s.drop_last()),
        }
    }
}

fn begins_like(s: &Vec<char>, prefix: &Vec<char>) -> (r: bool)
    ensures
        r == prefix@.is_prefix_of(s@),
{
    if prefix.len() > s.len() {
        return false;
    }
    let mut i: usize = 0;
    while i < prefix.len()
        invariant
            i <= prefix@.len() <= s@.len(),
            forall|k: int| 0 <= k < i ==> s@[k] == prefix@[k],
        decreases prefix@.len() - i,
    {
        if s[i] != prefix[i] {
            return false;
        }
        i += 1;
    }
    assert(prefix@ =~= s@.subrange(0, prefix@.len() as int));
    true
}

fn merge_caption(out: &mut Vec<CollapsedCaption>, t_ms: u64, speaker: &Option<String>, text: &String)
    ensures
        utterances(final(out)@) == merged(
            utterances(old(out)@),
            Utterance { t_ms, speaker: option_text(*speaker), text: text@ },
        ),
{
    let ghost before = utterances(out@);
    let ghost c = Utterance { t_ms, speaker: option_text(*speaker), text: text@ };
    let n: usize = out.len();
    if n > 0 {
        assert(before.last() == out@[n - 1]@);
        if same_option_text(&out[n - 1].speaker, speaker) {
            let curr = normalize_for_compare(text.as_str());
            let prev = normalize_for_compare(out[n - 1].text.as_str());
            if begins_like(&curr, &prev) {
                let line = CollapsedCaption {
                    t_ms: out[n - 1].t_ms,
                    speaker: copy_option_text(&out[n - 1].speaker),
                    text: text.clone(),
                };
                out.pop();
                out.push(line);
                assert(utterances(out@) =~= merged(before, c));
                return ;
            }
            if begins_like(&prev, &curr) {
                return ;
            }
        }
    }
    out.push(
        CollapsedCaption { t_ms, speaker: copy_option_text(speaker), text: text.clone() },
    );
    assert(utterances(out@) =~= before.push(c));
}

/// The captions of a list of events, merged.
pub fn collapse_caption_partials(events: &Vec<TimelineEvent>) -> (r: Vec<CollapsedCaption>)
    ensures
        utterances(r@) == collapsed(events@),
        r@.len() == collapsed(events@).len(),
        forall|i: int|
            0 <= i < r@.len() ==> {
                &&& (#[trigger] r@[i]).t_ms == collapsed(events@)[i].t_ms
                &&& option_text(r@[i].speaker) == collapsed(events@)[i].speaker
                &&& r@[i].text@ == collapsed(events@)[i].text
            },
{
    let mut out: Vec<CollapsedCaption> = Vec::new();
    let mut i: usize = 0;
    assert(events@.take(0) =~= Seq::empty());
    assert(utterances(out@) =~= collapsed(events@.take(0)));
    while i < events.len()
        invariant
            i <= events@.len(),
            utterances(out@) == collapsed(events@.take(i as int)),
        decreases events@.len() - i,
    {
        assert(events@.take(i + 1).drop_last() =~= events@.take(i as int));
        assert(events@.take(i + 1).last() == events@[i as int]);
        match &events[i] {
            TimelineEvent::Caption { t_ms, speaker, text, .. } => {
                merge_caption(&mut out, *t_ms, speaker, text);
            },
            _ => {},
        }
        i += 1;
    }
    assert(events@.take(i as int) =~= events@);
    assert forall|k: int| 0 <= k < out@.len() implies (#[trigger] out@[k])@ == collapsed(
        events@,
    )[k] by {
        assert(utterances(out@)[k] == out@[k]@);
    }
    assert(utterances(out@).len() == out@.len());
    out
}

/// No line of the transcript is a partial of its neighbour: where two lines
/// that follow each other have one speaker, neither begins like the other.
pub proof fn law_no_partial_is_left(s: Seq<TimelineEvent>)
    ensures
        forall|i: int|
            0 < i < collapsed(s).len() && (#[trigger] collapsed(s)[i]).speaker == collapsed(
                s,
            )[i - 1].speaker ==> !normalized(collapsed(s)[i - 1].text).is_prefix_of(
                normalized(collapsed(s)[i].text),
            ) && !normalized(collapsed(s)[i].text).is_prefix_of(
                normalized(collapsed(s)[i - 1].text),
            ),
    decreases s.len(),
{
    if s.len() > 0 {
        let t = s.drop_last();
        law_no_partial_is_left(t);
        let a = collapsed(t);
        let b = collapsed(s);
        match spoken(s.last()) {
            Some(c) => {
                assert forall|i: int|
                    0 < i < b.len() && (#[trigger] b[i]).speaker == b[i - 1].speaker implies
                    !extends(b[i].text, b[i - 1].text) && !extends(b[i - 1].text, b[i].text) by {
                    if i < a.len() - 1 {
                        assert(b[i] == a[i]);
                        assert(b[i - 1] == a[i - 1]);
                    } else if i == a.len() - 1 {
                        assert(b[i - 1] == a[i - 1]);
                        assert(b[i].speaker == a[i].speaker);
                        if b[i].text != a[i].text {
                            lemma_prefixes(
                                normalized(a[i].text),
                                normalized(a[i - 1].text),
                                normalized(b[i].text),
                            );
                        }
                    }
                }
            },
            None => {},
        }
    }
}

proof fn lemma_prefixes(short: Seq<char>, other: Seq<char>, long: Seq<char>)
    requires
        short.is_prefix_of(long),
        !short.is_prefix_of(other),
        !other.is_prefix_of(short),
    ensures
        !long.is_prefix_of(other),
        !other.is_prefix_of(long),
{
    if long.is_prefix_of(other) {
        assert(short =~= other.subrange(0, short.len() as int));
    }
    if other.is_prefix_of(long) {
        if other.len() <= short.len() {
            assert(other =~= short.subrange(0, other.len() as int));
        } else {
            assert(short =~= other.subrange(0, short.len() as int));
        }
    }
}

/// Nothing that was said is lost: each caption has a line of its speaker that
/// begins like it. No line is made up: each has the time of a caption and the
/// text of a caption of its speaker.
pub proof fn law_nothing_said_is_lost(s: Seq<TimelineEvent>)
    ensures
        forall|k: int|
            0 <= k < s.len() && spoken(#[trigger] s[k]) is Some ==> covers(
                collapsed(s),
                spoken(s[k])->0,
            ),
        forall|i: int| 0 <= i < collapsed(s).len() ==> said(s, #[trigger] collapsed(s)[i]),
{
    lemma_all_covered(s);
    lemma_all_said(s);
}

/// Each caption has a line of its speaker whose whole text, normalized, begins
/// with the whole text of the caption, normalized.
pub proof fn law_every_caption_has_its_line(s: Seq<TimelineEvent>, k: int)
    requires
        0 <= k < s.len(),
        s[k] is Caption,
    ensures
        exists|i: int|
            0 <= i < collapsed(s).len() && (#[trigger] collapsed(s)[i]).speaker == option_text(
                s[k]->Caption_speaker,
            ) && normalized(s[k]->Caption_text@).is_prefix_of(normalized(collapsed(s)[i].text)),
{
    lemma_all_covered(s);
    assert(spoken(s[k]) is Some);
    lemma_covering_line(collapsed(s), s[k]);
}

/// No line is made up: each has the time of a caption of its speaker, and the very
/// text of a caption of its speaker.
pub proof fn law_no_line_is_made_up(s: Seq<TimelineEvent>, i: int)
    requires
        0 <= i < collapsed(s).len(),
    ensures
        exists|m: int|
            0 <= m < s.len() && (#[trigger] s[m]) is Caption && s[m]->Caption_t_ms == collapsed(
                s,
            )[i].t_ms && option_text(s[m]->Caption_speaker) == collapsed(s)[i].speaker,
        exists|m: int|
            0 <= m < s.len() && (#[trigger] s[m]) is Caption && s[m]->Caption_text@ == collapsed(
                s,
            )[i].text && option_text(s[m]->Caption_speaker) == collapsed(s)[i].speaker,
{
    lemma_all_said(s);
    lemma_sources(s, collapsed(s)[i]);
}

proof fn lemma_covering_line(b: Seq<Utterance>, e: TimelineEvent)
    requires
        e is Caption,
        covers(b, spoken(e)->0),
    ensures
        exists|i: int|
            0 <= i < b.len() && (#[trigger] b[i]).speaker == option_text(e->Caption_speaker)
                && normalized(e->Caption_text@).is_prefix_of(normalized(b[i].text)),
{
    let c = spoken(e)->0;
    let i = choose|i: int|
        0 <= i < b.len() && (#[trigger] b[i]).speaker == c.speaker && extends(b[i].text, c.text);
    assert(normalized(e->Caption_text@).is_prefix_of(normalized(b[i].text)));
}

proof fn lemma_sources(s: Seq<TimelineEvent>, line: Utterance)
    requires
        said(s, line),
    ensures
        exists|m: int|
            0 <= m < s.len() && (#[trigger] s[m]) is Caption && s[m]->Caption_t_ms == line.t_ms
                && option_text(s[m]->Caption_speaker) == line.speaker,
        exists|m: int|
            0 <= m < s.len() && (#[trigger] s[m]) is Caption && s[m]->Caption_text@ == line.text
                && option_text(s[m]->Caption_speaker) == line.speaker,
{
    let m = choose|m: int|
        0 <= m < s.len() && spoken(#[trigger] s[m]) is Some && spoken(s[m])->0.t_ms == line.t_ms
            && spoken(s[m])->0.speaker == line.speaker;
    assert(s[m] is Caption);
    let n = choose|m: int|
        0 <= m < s.len() && spoken(#[trigger] s[m]) is Some && spoken(s[m])->0.text == line.text
            && spoken(s[m])->0.speaker == line.speaker;
    assert(s[n] is Caption);
}

proof fn lemma_all_covered(s: Seq<TimelineEvent>)
    ensures
        forall|k: int|
            0 <= k < s.len() && spoken(#[trigger] s[k]) is Some ==> covers(
                collapsed(s),
                spoken(s[k])->0,
            ),
    decreases s.len(),
{
    if s.len() > 0 {
        let t = s.drop_last();
        lemma_all_covered(t);
        let a = collapsed(t);
        assert forall|k: int| 0 <= k < s.len() && spoken(#[trigger] s[k]) is Some implies covers(
            collapsed(s),
            spoken(s[k])->0,
        ) by {
            let c = spoken(s[k])->0;
            if k < t.len() {
                assert(t[k] == s[k]);
                assert(covers(a, c));
                if spoken(s.last()) is Some {
                    lemma_covers_still(a, c, spoken(s.last())->0);
                }
            } else {
                lemma_covers_new(a, c);
            }
        }
    }
}

proof fn lemma_all_said(s: Seq<TimelineEvent>)
    ensures
        forall|i: int| 0 <= i < collapsed(s).len() ==> said(s, #[trigger] collapsed(s)[i]),
    decreases s.len(),
{
    if s.len() > 0 {
        let t = s.drop_last();
        lemma_all_said(t);
        let a = collapsed(t);
        let b = collapsed(s);
        assert forall|i: int| 0 <= i < b.len() implies said(s, #[trigger] b[i]) by {
            if i < a.len() {
                assert(said(t, a[i]));
                lemma_said_still(s, a[i]);
            }
            if spoken(s.last()) is Some {
                let c = spoken(s.last())->0;
                assert(spoken(s[s.len() - 1]) == Some(c));
                if i == a.len() {
                    assert(b[i] == c);
                } else if i == a.len() - 1 && b[i] != a[i] {
                    assert(b[i] == Utterance { text: c.text, ..a[i] });
                    assert(c.speaker == a[i].speaker);
                    lemma_said_later(s, a[i]);
                }
            }
        }
    }
}

proof fn lemma_said_later(s: Seq<TimelineEvent>, line: Utterance)
    requires
        s.len() > 0,
        said(s, line),
        spoken(s.last()) is Some,
        spoken(s.last())->0.speaker == line.speaker,
    ensures
        said(s, Utterance { text: spoken(s.last())->0.text, ..line }),
{
    let next = Utterance { text: spoken(s.last())->0.text, ..line };
    let m = choose|m: int|
        0 <= m < s.len() && spoken(#[trigger] s[m]) is Some && spoken(s[m])->0.t_ms == line.t_ms
            && spoken(s[m])->0.speaker == line.speaker;
    assert(spoken(s[m])->0.t_ms == next.t_ms);
    assert(spoken(s[s.len() - 1])->0.text == next.text);
}

/// A line of the caption's speaker begins like the caption.
pub open spec fn covers(lines: Seq<Utterance>, c: Utterance) -> bool {
    exists|i: int|
        0 <= i < lines.len() && (#[trigger] lines[i]).speaker == c.speaker && extends(
            lines[i].text,
            c.text,
        )
}

/// A line's time and its text are those of captions of its speaker.
pub open spec fn said(s: Seq<TimelineEvent>, line: Utterance) -> bool {
    &&& exists|m: int|
        0 <= m < s.len() && spoken(#[trigger] s[m]) is Some && spoken(s[m])->0.t_ms == line.t_ms
            && spoken(s[m])->0.speaker == line.speaker
    &&& exists|m: int|
        0 <= m < s.len() && spoken(#[trigger] s[m]) is Some && spoken(s[m])->0.text == line.text
            && spoken(s[m])->0.speaker == line.speaker
}

proof fn lemma_said_still(s: Seq<TimelineEvent>, line: Utterance)
    requires
        s.len() > 0,
        said(s.drop_last(), line),
    ensures
        said(s, line),
{
    let t = s.drop_last();
    let m = choose|m: int|
        0 <= m < t.len() && spoken(#[trigger] t[m]) is Some && spoken(t[m])->0.t_ms == line.t_ms
            && spoken(t[m])->0.speaker == line.speaker;
    assert(t[m] == s[m]);
    let n = choose|m: int|
        0 <= m < t.len() && spoken(#[trigger] t[m]) is Some && spoken(t[m])->0.text == line.text
            && spoken(t[m])->0.speaker == line.speaker;
    assert(t[n] == s[n]);
}

proof fn lemma_covers_still(a: Seq<Utterance>, c: Utterance, next: Utterance)
    requires
        covers(a, c),
    ensures
        covers(merged(a, next), c),
{
    let b = merged(a, next);
    let i = choose|i: int|
        0 <= i < a.len() && (#[trigger] a[i]).speaker == c.speaker && extends(a[i].text, c.text);
    assert(b[i].speaker == c.speaker);
    if b[i].text != a[i].text {
        let x = normalized(c.text);
        let z = normalized(b[i].text);
        assert(x =~= z.subrange(0, x.len() as int));
    }
    assert(extends(b[i].text, c.text));
}

proof fn lemma_covers_new(a: Seq<Utterance>, c: Utterance)
    ensures
        covers(merged(a, c), c),
{
    let b = merged(a, c);
    let i = b.len() - 1;
    let x = normalized(c.text);
    assert(x =~= x.subrange(0, x.len() as int));
    assert(b[i].speaker == c.speaker && extends(b[i].text, c.text));
}

/// A line of the caption's speaker begins like the caption, and its time is not
/// later.
pub open spec fn covers_in_time(lines: Seq<Utterance>, c: Utterance) -> bool {
    exists|i: int|
        0 <= i < lines.len() && (#[trigger] lines[i]).speaker == c.speaker && extends(
            lines[i].text,
            c.text,
        ) && lines[i].t_ms <= c.t_ms
}

/// A line has the time at which it began to be said: of events in order, the
/// lines are in order too, and no caption is covered only by a later line.
pub proof fn law_lines_keep_their_start(s: Seq<TimelineEvent>)
    requires
        in_order(s),
    ensures
        forall|i: int, j: int|
            0 <= i <= j < collapsed(s).len() ==> (#[trigger] collapsed(s)[i]).t_ms <= (
            #[trigger] collapsed(s)[j]).t_ms,
        forall|i: int|
            0 <= i < collapsed(s).len() ==> (#[trigger] collapsed(s)[i]).t_ms <= stamp(s.last()),
        forall|k: int|
            0 <= k < s.len() && spoken(#[trigger] s[k]) is Some ==> covers_in_time(
                collapsed(s),
                spoken(s[k])->0,
            ),
    decreases s.len(),
{
    if s.len() > 0 {
        let t = s.drop_last();
        assert forall|i: int, j: int| 0 <= i <= j < t.len() implies stamp(#[trigger] t[i]) <= stamp(
            #[trigger] t[j],
        ) by {
            assert(t[i] == s[i] && t[j] == s[j]);
        }
        law_lines_keep_their_start(t);
        let a = collapsed(t);
        let b = collapsed(s);
        if t.len() > 0 {
            assert(t.last() == s[s.len() - 2]);
            assert(stamp(s[s.len() - 2]) <= stamp(s[s.len() - 1]));
        }
        assert forall|i: int| 0 <= i < b.len() implies (#[trigger] b[i]).t_ms <= stamp(s.last()) by {
            if i < a.len() {
                assert(b[i].t_ms == a[i].t_ms);
            }
        }
        assert forall|i: int, j: int| 0 <= i <= j < b.len() implies (#[trigger] b[i]).t_ms <= (
        #[trigger] b[j]).t_ms by {
            if i < a.len() {
                assert(b[i].t_ms == a[i].t_ms);
            }
            if j < a.len() {
                assert(b[j].t_ms == a[j].t_ms);
            } else {
                assert(b[j].t_ms == stamp(s.last()));
            }
        }
        assert forall|k: int| 0 <= k < s.len() && spoken(#[trigger] s[k]) is Some implies
            covers_in_time(b, spoken(s[k])->0) by {
            let c = spoken(s[k])->0;
            if k < t.len() {
                assert(t[k] == s[k]);
                assert(covers_in_time(a, c));
                if spoken(s.last()) is Some {
                    lemma_covers_in_time_still(a, c, spoken(s.last())->0);
                }
            } else {
                let i = b.len() - 1;
                let x = normalized(c.text);
                assert(x =~= x.subrange(0, x.len() as int));
                assert(b[i].speaker == c.speaker && extends(b[i].text, c.text));
                assert(b[i].t_ms <= stamp(s.last()));
            }
        }
    }
}

proof fn lemma_covers_in_time_still(a: Seq<Utterance>, c: Utterance, next: Utterance)
    requires
        covers_in_time(a, c),
    ensures
        covers_in_time(merged(a, next), c),
{
    let b = merged(a, next);
    let i = choose|i: int|
        0 <= i < a.len() && (#[trigger] a[i]).speaker == c.speaker && extends(a[i].text, c.text)
            && a[i].t_ms <= c.t_ms;
    assert(b[i].speaker == c.speaker);
    if b[i].text != a[i].text {
        let x = normalized(c.text);
        let z = normalized(b[i].text);
        assert(x =~= z.subrange(0, x.len() as int));
    }
    assert(extends(b[i].text, c.text));
}

/// The next event. Of one that is no caption the lines stay as they are. A caption
/// is a line of its own, with its time, its speaker and its text, exactly where it
/// is the first, or another speaker spoke last, or neither whole text, normalized,
/// begins with the other. Else the last line keeps its time and speaker and has
/// the text that the other one begins; all lines before it stay.
pub proof fn law_next_event(s: Seq<TimelineEvent>, e: TimelineEvent)
    ensures
        collapsed(Seq::empty()) == Seq::<Utterance>::empty(),
        !(e is Caption) ==> collapsed(s.push(e)) == collapsed(s),
        e is Caption ==> {
            let a = collapsed(s);
            let b = collapsed(s.push(e));
            let new = Utterance {
                t_ms: e->Caption_t_ms,
                speaker: option_text(e->Caption_speaker),
                text: e->Caption_text@,
            };
            let grows = normalized(a.last().text).is_prefix_of(normalized(new.text));
            let shrinks = normalized(new.text).is_prefix_of(normalized(a.last().text));
            if a.len() == 0 || a.last().speaker != new.speaker || (!grows && !shrinks) {
                b == a.push(new)
            } else {
                &&& b.len() == a.len()
                &&& b.drop_last() == a.drop_last()
                &&& b.last().t_ms == a.last().t_ms
                &&& b.last().speaker == a.last().speaker
                &&& b.last().text == if grows {
                    new.text
                } else {
                    a.last().text
                }
            }
        },
{
    assert(s.push(e).drop_last() =~= s);
    assert(s.push(e).last() == e);
    if e is Caption {
        let a = collapsed(s);
        let b = collapsed(s.push(e));
        if b.len() == a.len() {
            assert(b.drop_last() =~= a.drop_last());
        }
    }
}

/// How the lines of more events relate to those of fewer.
proof fn lemma_lines_stay(s: Seq<TimelineEvent>, n: int)
    requires
        0 <= n <= s.len(),
    ensures
        collapsed(s.take(n)).len() <= collapsed(s).len(),
        forall|i: int|
            0 <= i < collapsed(s.take(n)).len() ==> {
                &&& (#[trigger] collapsed(s)[i]).t_ms == collapsed(s.take(n))[i].t_ms
                &&& collapsed(s)[i].speaker == collapsed(s.take(n))[i].speaker
                &&& normalized(collapsed(s.take(n))[i].text).is_prefix_of(
                    normalized(collapsed(s)[i].text),
                )
            },
    decreases s.len() - n,
{
    let a = collapsed(s.take(n));
    if n == s.len() {
        assert(s.take(n) =~= s);
        assert forall|i: int| 0 <= i < a.len() implies normalized(a[i].text).is_prefix_of(
            normalized((#[trigger] collapsed(s)[i]).text),
        ) by {
            let x = normalized(a[i].text);
            assert(x =~= x.subrange(0, x.len() as int));
        }
    } else {
        lemma_lines_stay(s, n + 1);
        let b = collapsed(s.take(n + 1));
        let c = collapsed(s);
        assert(s.take(n + 1) =~= s.take(n).push(s[n]));
        law_next_event(s.take(n), s[n]);
        assert forall|i: int| 0 <= i < a.len() implies {
            &&& (#[trigger] c[i]).t_ms == a[i].t_ms
            &&& c[i].speaker == a[i].speaker
            &&& normalized(a[i].text).is_prefix_of(normalized(c[i].text))
        } by {
            let x = normalized(a[i].text);
            let y = normalized(b[i].text);
            let z = normalized(c[i].text);
            if b.len() == a.len() && i < a.len() - 1 {
                assert(b[i] == b.drop_last()[i]);
                assert(a[i] == a.drop_last()[i]);
            }
            assert(y.is_prefix_of(z));
            if b[i] == a[i] {
                assert(x == y);
            } else {
                assert(x.is_prefix_of(y));
            }
            assert(x =~= z.subrange(0, x.len() as int)) by {
                assert(forall|k: int| 0 <= k < x.len() ==> x[k] == y.subrange(0, x.len() as int)[k]);
                assert(forall|k: int| 0 <= k < y.len() ==> y[k] == z.subrange(0, y.len() as int)[k]);
            }
        }
    }
}

/// Two sentences stay two lines: where a speaker's caption is followed by another
/// caption of the same speaker, with no caption between them, and neither whole
/// text, normalized, begins with the other, each has a line of its own, one right
/// after the other, and the second line has the time of the second caption.
pub proof fn law_two_sentences_stay_two_lines(s: Seq<TimelineEvent>, j: int, k: int)
    requires
        0 <= j < k < s.len(),
        s[j] is Caption,
        s[k] is Caption,
        forall|m: int| j < m < k ==> !((#[trigger] s[m]) is Caption),
        option_text(s[j]->Caption_speaker) == option_text(s[k]->Caption_speaker),
        !normalized(s[j]->Caption_text@).is_prefix_of(normalized(s[k]->Caption_text@)),
        !normalized(s[k]->Caption_text@).is_prefix_of(normalized(s[j]->Caption_text@)),
    ensures
        exists|i: int|
            0 <= i < collapsed(s).len() - 1 && {
                let first = #[trigger] collapsed(s)[i];
                let second = collapsed(s)[i + 1];
                &&& first.speaker == option_text(s[j]->Caption_speaker)
                &&& normalized(s[j]->Caption_text@).is_prefix_of(normalized(first.text))
                &&& second.speaker == option_text(s[k]->Caption_speaker)
                &&& normalized(s[k]->Caption_text@).is_prefix_of(normalized(second.text))
                &&& second.t_ms == s[k]->Caption_t_ms
            },
{
    let a = collapsed(s.take(j + 1));
    assert(s.take(j + 1) =~= s.take(j).push(s[j]));
    law_next_event(s.take(j), s[j]);
    lemma_silence_changes_no_line(s, j + 1, k);
    let b = collapsed(s.take(k + 1));
    assert(s.take(k + 1) =~= s.take(k).push(s[k]));
    law_next_event(s.take(k), s[k]);
    let x = normalized(s[j]->Caption_text@);
    let y = normalized(s[k]->Caption_text@);
    let l = normalized(a.last().text);
    let i = a.len() - 1;
    assert(a.last().speaker == option_text(s[j]->Caption_speaker));
    assert(x.is_prefix_of(l)) by {
        assert(x =~= x.subrange(0, x.len() as int));
    }
    assert(!l.is_prefix_of(y)) by {
        if l.is_prefix_of(y) {
            assert(x =~= y.subrange(0, x.len() as int)) by {
                assert(forall|m: int| 0 <= m < x.len() ==> x[m] == l.subrange(0, x.len() as int)[m]);
                assert(forall|m: int| 0 <= m < l.len() ==> l[m] == y.subrange(0, l.len() as int)[m]);
            }
        }
    }
    assert(!y.is_prefix_of(l)) by {
        if y.is_prefix_of(l) {
            assert(forall|m: int| 0 <= m < x.len() ==> x[m] == l.subrange(0, x.len() as int)[m]);
            assert(forall|m: int| 0 <= m < y.len() ==> y[m] == l.subrange(0, y.len() as int)[m]);
            if x.len() <= y.len() {
                assert(x =~= y.subrange(0, x.len() as int));
            } else {
                assert(y =~= x.subrange(0, y.len() as int));
            }
        }
    }
    assert(b.len() == a.len() + 1);
    lemma_lines_stay(s, k + 1);
    let first = collapsed(s)[i];
    let second = collapsed(s)[i + 1];
    assert(b[i] == a[i]);
    let f = normalized(first.text);
    assert(l.is_prefix_of(f));
    assert(x =~= f.subrange(0, x.len() as int)) by {
        assert(forall|m: int| 0 <= m < x.len() ==> x[m] == l.subrange(0, x.len() as int)[m]);
        assert(forall|m: int| 0 <= m < l.len() ==> l[m] == f.subrange(0, l.len() as int)[m]);
    }
    assert(y.is_prefix_of(normalized(second.text)));
}

proof fn lemma_silence_changes_no_line(s: Seq<TimelineEvent>, from: int, to: int)
    requires
        0 <= from <= to <= s.len(),
        forall|m: int| from <= m < to ==> !((#[trigger] s[m]) is Caption),
    ensures
        collapsed(s.take(to)) == collapsed(s.take(from)),
    decreases to - from,
{
    if from < to {
        lemma_silence_changes_no_line(s, from, to - 1);
        assert(s.take(to) =~= s.take(to - 1).push(s[to - 1]));
        law_next_event(s.take(to - 1), s[to - 1]);
    }
}

/// A sentence that grows word by word is one line: where all captions are of one
/// speaker and each, normalized, begins with the one before it, the only line has
/// the time of the first caption and the text of the last.
pub proof fn law_growing_sentence_is_one_line(s: Seq<TimelineEvent>)
    requires
        s.len() > 0,
        forall|i: int| 0 <= i < s.len() ==> (#[trigger] s[i]) is Caption,
        forall|i: int|
            0 <= i < s.len() ==> option_text((#[trigger] s[i])->Caption_speaker) == option_text(
                s[0]->Caption_speaker,
            ),
        forall|i: int|
            0 < i < s.len() ==> normalized(s[i - 1]->Caption_text@).is_prefix_of(
                normalized((#[trigger] s[i])->Caption_text@),
            ),
    ensures
        collapsed(s) == seq![
            Utterance {
                t_ms: s[0]->Caption_t_ms,
                speaker: option_text(s[0]->Caption_speaker),
                text: s.last()->Caption_text@,
            },
        ],
    decreases s.len(),
{
    let t = s.drop_last();
    let e = s[s.len() - 1];
    assert(t.push(e) =~= s);
    law_next_event(t, e);
    if t.len() > 0 {
        assert forall|i: int| 0 <= i < t.len() implies (#[trigger] t[i]) is Caption by {
            assert(t[i] == s[i]);
        }
        assert forall|i: int| 0 <= i < t.len() implies option_text(
            (#[trigger] t[i])->Caption_speaker,
        ) == option_text(t[0]->Caption_speaker) by {
            assert(t[i] == s[i] && t[0] == s[0]);
        }
        assert forall|i: int| 0 < i < t.len() implies normalized(
            t[i - 1]->Caption_text@,
        ).is_prefix_of(normalized((#[trigger] t[i])->Caption_text@)) by {
            assert(t[i] == s[i] && t[i - 1] == s[i - 1]);
        }
        law_growing_sentence_is_one_line(t);
        assert(t.last() == s[s.len() - 2]);
        assert(normalized(s[s.len() - 2]->Caption_text@).is_prefix_of(
            normalized(s[s.len() - 1]->Caption_text@),
        ));
        assert(collapsed(s).drop_last() =~= Seq::empty());
        assert(collapsed(s) =~= seq![collapsed(s).last()]);
    } else {
        assert(t =~= Seq::empty());
        assert(collapsed(s) =~= seq![collapsed(s).last()]);
    }
}

// ---------------------------------------------------------------------------
// The transcript
// ---------------------------------------------------------------------------

/// A time as `HH:MM:SS.mmm`.
pub open spec fn time_text(ms: u64) -> Seq<char> {
    let seconds = ms / 1000;
    padded((seconds / 3600) as nat, 2) + seq![':'] + padded((seconds % 3600 / 60) as nat, 2) + seq![
        ':',
    ] + padded((seconds % 60) as nat, 2) + seq!['.'] + padded((ms % 1000) as nat, 3)
}

/// A time as `HH:MM:SS.mmm`.
pub fn fmt_ts_full(ms: u64) -> (r: String)
    ensures
        r@ == time_text(ms),
{
    let total: u64 = ms / 1000;
    let mut r = String::new();
    push_two_digits(&mut r, total / 3600);
    r.push(':');
    push_two_digits(&mut r, (total % 3600) / 60);
    r.push(':');
    push_two_digits(&mut r, total % 60);
    r.push('.');
    push_three_digits(&mut r, ms % 1000);
    r
}

/// A line of the transcript: `[HH:MM:SS.mmm] Speaker: text`. A speaker who is
/// not known is written as a question mark.
pub open spec fn line_text(u: Utterance) -> Seq<char> {
    let who = match u.speaker {
        Some(name) => name,
        None => "?"@,
    };
    seq!['['] + time_text(u.t_ms) + "] "@ + who + ": "@ + u.text + seq!['\n']
}

/// The lines of a transcript, one after the other.
pub open spec fn lines_text(s: Seq<Utterance>) -> Seq<char>
    decreases s.len(),
{
    if s.len() == 0 {
        Seq::empty()
    } else {
        lines_text(s.drop_last()) + line_text(s.last())
    }
}

/// What stands in a transcript that has no lines.
pub const NO_CAPTIONS: &'static str =
    "(no captions in this session — either live-captions were off, no one spoke, or the panel's DOM moved between windows — see agent.log)\n";

fn push_line(body: &mut String, c: &CollapsedCaption)
    ensures
        final(body)@ == old(body)@ + line_text(c@),
{
    let ghost before = body@;
    let ts = fmt_ts_full(c.t_ms);
    body.push('[');
    body.append(ts.as_str());
    body.append("] ");
    match &c.speaker {
        Some(name) => {
            body.append(name.as_str());
        },
        None => {
            body.append("?");
        },
    }
    body.append(": ");
    body.append(c.text.as_str());
    body.push('\n');
    assert(body@ =~= before + line_text(c@));
}

/// The transcript with these lines.
pub open spec fn transcript_text(said: Seq<Utterance>) -> Seq<char> {
    if said.len() == 0 {
        NO_CAPTIONS@
    } else {
        lines_text(said)
    }
}

/// The transcript of a session.
pub open spec fn transcript_of(events: Seq<TimelineEvent>) -> Seq<char> {
    transcript_text(collapsed(by_time(events)))
}

/// The transcript of events that are in order.
pub fn transcript_of_sorted(sorted: &Vec<TimelineEvent>) -> (r: String)
    ensures
        r@ == transcript_text(collapsed(sorted@)),
{
    let lines = collapse_caption_partials(sorted);
    let ghost said = utterances(lines@);
    let mut body = String::new();
    let mut i: usize = 0;
    assert(said.take(0) =~= Seq::empty());
    assert(body@ =~= Seq::empty());
    while i < lines.len()
        invariant
            i <= lines@.len(),
            said == utterances(lines@),
            body@ == lines_text(said.take(i as int)),
        decreases lines@.len() - i,
    {
        assert(said.take(i + 1).drop_last() =~= said.take(i as int));
        assert(said.take(i + 1).last() == lines@[i as int]@);
        push_line(&mut body, &lines[i]);
        i += 1;
    }
    assert(said.take(i as int) =~= said);
    if lines.len() == 0 {
        return NO_CAPTIONS.to_owned();
    }
    body
}

/// The parts of a time stand for the time: hours, minutes and seconds with at
/// least two digits, and thousandths with three.
pub proof fn law_time_can_be_read(ms: u64)
    ensures
        exists|h: Seq<char>, m: Seq<char>, s: Seq<char>, f: Seq<char>|
            {
                &&& time_text(ms) == #[trigger] (h + seq![':'] + m + seq![':'] + s + seq!['.'] + f)
                &&& number(h) * 3_600_000 + number(m) * 60_000 + number(s) * 1000 + number(f) == ms
                &&& 0 <= number(m) < 60
                &&& 0 <= number(s) < 60
                &&& 0 <= number(f) < 1000
                &&& h.len() >= 2
                &&& m.len() == 2
                &&& s.len() == 2
                &&& f.len() == 3
            },
{
    let seconds = ms / 1000;
    let h = padded((seconds / 3600) as nat, 2);
    let m = padded((seconds % 3600 / 60) as nat, 2);
    let s = padded((seconds % 60) as nat, 2);
    let f = padded((ms % 1000) as nat, 3);
    law_padding_keeps_the_number((seconds / 3600) as nat, 2);
    law_padding_keeps_the_number((seconds % 3600 / 60) as nat, 2);
    law_padding_keeps_the_number((seconds % 60) as nat, 2);
    law_padding_keeps_the_number((ms % 1000) as nat, 3);
    reveal_with_fuel(crate::text::decimal, 4);
    assert(time_text(ms) == h + seq![':'] + m + seq![':'] + s + seq!['.'] + f);
}

/// Where nothing was said, the transcript says so.
pub proof fn law_empty_transcript_says_so(said: Seq<Utterance>)
    requires
        said.len() == 0,
    ensures
        transcript_text(said)
            == "(no captions in this session — either live-captions were off, no one spoke, or the panel's DOM moved between windows — see agent.log)\n"@,
{
}

/// A transcript is its lines, one after the other: each is the time in brackets,
/// the speaker, or a question mark if the speaker is not known, a colon and the
/// text.
pub proof fn law_transcript_is_its_lines(said: Seq<Utterance>)
    requires
        said.len() > 0,
    ensures
        transcript_text(said) == said.map_values(
            |u: Utterance|
                seq!['['] + time_text(u.t_ms) + "] "@ + (if u.speaker is Some {
                    u.speaker->0
                } else {
                    "?"@
                }) + ": "@ + u.text + seq!['\n'],
        ).flatten(),
{
    lemma_lines_flat(said);
    let f = |u: Utterance|
        seq!['['] + time_text(u.t_ms) + "] "@ + (if u.speaker is Some {
            u.speaker->0
        } else {
            "?"@
        }) + ": "@ + u.text + seq!['\n'];
    let g = |u: Utterance| line_text(u);
    assert(f =~= g);
}

proof fn lemma_lines_flat(said: Seq<Utterance>)
    ensures
        lines_text(said) == said.map_values(|u: Utterance| line_text(u)).flatten(),
    decreases said.len(),
{
    let g = |u: Utterance| line_text(u);
    if said.len() > 0 {
        lemma_lines_flat(said.drop_last());
        assert(said.map_values(g) =~= said.drop_last().map_values(g).push(g(said.last())));
        said.drop_last().map_values(g).lemma_flatten_push(g(said.last()));
    } else {
        assert(said.map_values(g) =~= Seq::empty());
    }
}

proof fn lemma_sorted_events(s: Seq<TimelineEvent>)
    ensures
        by_time(s).to_multiset() == s.to_multiset(),
    decreases s.len(),
{
    broadcast use vstd::seq_lib::group_to_multiset_ensures;

    if s.len() > 0 {
        let t = s.drop_last();
        lemma_sorted_events(t);
        law_order_is_stable(t);
        lemma_room(by_time(t), s.last());
        let k = room_for(by_time(t), s.last());
        assert(by_time(s) == by_time(t).insert(k, s.last()));
        assert(by_time(s).to_multiset() =~= by_time(t).to_multiset().insert(s.last()));
        assert(t.push(s.last()) =~= s);
        assert(s.to_multiset() =~= t.to_multiset().insert(s.last()));
    }
}

/// The transcript of a session loses nothing, in whatever order its events came:
/// for each caption among them the transcript holds a line of its speaker, not
/// later than the caption, whose whole text, normalized, begins with the whole
/// text of the caption, normalized.
pub proof fn law_transcript_loses_nothing(events: Seq<TimelineEvent>, k: int)
    requires
        0 <= k < events.len(),
        events[k] is Caption,
    ensures
        by_time(events).to_multiset() == events.to_multiset(),
        exists|i: int|
            0 <= i < collapsed(by_time(events)).len() && {
                let line = #[trigger] collapsed(by_time(events))[i];
                &&& line.speaker == option_text(events[k]->Caption_speaker)
                &&& normalized(events[k]->Caption_text@).is_prefix_of(normalized(line.text))
                &&& line.t_ms <= events[k]->Caption_t_ms
                &&& contains(transcript_of(events), line_text(line))
            },
{
    broadcast use vstd::seq_lib::group_to_multiset_ensures;

    let s = by_time(events);
    lemma_sorted_events(events);
    law_order_is_stable(events);
    assert(events.contains(events[k]));
    assert(s.to_multiset().count(events[k]) > 0);
    assert(s.contains(events[k]));
    let n = choose|n: int| 0 <= n < s.len() && s[n] == events[k];
    law_lines_keep_their_start(s);
    assert(spoken(s[n]) is Some);
    let c = spoken(s[n])->0;
    let b = collapsed(s);
    assert(covers_in_time(b, c));
    let i = choose|i: int|
        0 <= i < b.len() && (#[trigger] b[i]).speaker == c.speaker && extends(b[i].text, c.text)
            && b[i].t_ms <= c.t_ms;
    lemma_line_stands_in_text(b, i);
}

proof fn lemma_line_stands_in_text(said: Seq<Utterance>, i: int)
    requires
        0 <= i < said.len(),
    ensures
        contains(lines_text(said), line_text(said[i])),
    decreases said.len(),
{
    let l = line_text(said[i]);
    let front = said.drop_last();
    if i < front.len() {
        lemma_line_stands_in_text(front, i);
        law_contains_means_within(lines_text(front), l);
        let (a, b) = choose|a: Seq<char>, b: Seq<char>|
            lines_text(front) == #[trigger] (a + l + b);
        let c = b + line_text(said.last());
        assert(lines_text(said) =~= a + l + c);
    } else {
        assert(lines_text(said) =~= lines_text(front) + l + Seq::empty());
    }
    law_contains_means_within(lines_text(said), l);
}

// ---------------------------------------------------------------------------
// Clearing up
// ---------------------------------------------------------------------------

/// What becomes of a file of the session once the recording is complete.
#[derive(Debug, Clone, Copy, PartialEq, Eq, Structural)]
pub enum Cleanup {
    Keep,
    RemoveDirectory,
    RemoveFile,
}

/// The files of a session that are kept.
pub open spec fn kept(name: Seq<char>) -> bool {
    name == "meeting.mp4"@ || name == "transcript.txt"@
}

/// What becomes of a file or directory of the session, which may or may not be
/// known to be a directory.
pub fn cleanup_action(name: &str, is_directory: Option<bool>) -> (r: Cleanup)
    ensures
        r is Keep <==> kept(name@),
        r == if name@ == "meeting.mp4"@ || name@ == "transcript.txt"@ {
            Cleanup::Keep
        } else if is_directory == Some(true) {
            Cleanup::RemoveDirectory
        } else {
            Cleanup::RemoveFile
        },
{
    if same_text(name, "meeting.mp4") || same_text(name, "transcript.txt") {
        return Cleanup::Keep;
    }
    match is_directory {
        Some(true) => Cleanup::RemoveDirectory,
        _ => Cleanup::RemoveFile,
    }
}

} // verus!
