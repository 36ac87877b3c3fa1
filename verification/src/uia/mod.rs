//! The accessibility tree of a window, and how it is walked.
//!
//! The tree is held as plain values: what a screen reader would be told of
//! each element, and its children in document order.

use vstd::prelude::*;

use crate::text::{
    contains, join_texts, joined, lowercase, text_contains, texts, to_lower,
};

pub mod captions;

verus! {

/// One element of an accessibility tree.
pub struct UiElement {
    /// By which the owner of the tree finds the live element again.
    pub key: usize,
    pub name: String,
    pub class_name: String,
    pub automation_id: String,
    pub help_text: String,
    pub localized_type: String,
    pub control_type: i32,
    pub offscreen: bool,
    /// In document order.
    pub children: Vec<UiElement>,
}

/// The control type of a button.
pub const BUTTON: i32 = 50000;

/// The control type of an edit field.
pub const EDIT: i32 = 50004;

/// The control type of a list.
pub const LIST: i32 = 50008;

/// The control type of a button with a drop-down part.
pub const SPLIT_BUTTON: i32 = 50019;

/// The control type of a piece of text.
pub const TEXT: i32 = 50020;

/// The control type of a custom control.
pub const CUSTOM: i32 = 50025;

/// The control type of a group.
pub const GROUP: i32 = 50026;

/// What a walk does after it has visited an element.
#[derive(Debug, Clone, Copy, PartialEq, Eq, Structural)]
pub enum WalkAction {
    Continue,
    SkipChildren,
    Stop,
}

/// What a walk does after each element, given the element and its depth.
pub type Rule = spec_fn(UiElement, int) -> WalkAction;

/// Decides at each element how a walk goes on.
pub trait Visitor {
    /// The rule that the visitor follows.
    spec fn rule(&self) -> Rule;

    /// Visits `e`.
    fn visit(&self, e: &UiElement, depth: u32) -> (a: WalkAction)
        ensures
            a == self.rule()(*e, depth as int),
    ;
}

/// The elements that a walk visits, each with its depth, and whether the walk
/// was stopped.
pub type Trace = (Seq<(UiElement, int)>, bool);

/// The walk that goes on with `b` where `a` was not stopped.
pub open spec fn follow(a: Trace, b: Trace) -> Trace {
    if a.1 {
        a
    } else {
        (a.0 + b.0, b.1)
    }
}

/// The visits of a level of a tree, from the first element to the last, or to
/// the one at which the rule stops.
pub open spec fn visit_level(rule: Rule, level: Seq<UiElement>, depth: int) -> Trace
    decreases level.len(),
{
    if level.len() == 0 {
        (Seq::empty(), false)
    } else {
        let before = visit_level(rule, level.drop_last(), depth);
        if before.1 {
            before
        } else {
            (before.0.push((level.last(), depth)), rule(level.last(), depth) is Stop)
        }
    }
}

/// The elements of a list that a walk looks at: all, or those on screen.
pub open spec fn shown(s: Seq<UiElement>, skip_offscreen: bool) -> Seq<UiElement>
    decreases s.len(),
{
    if s.len() == 0 {
        Seq::empty()
    } else if skip_offscreen && s.last().offscreen {
        shown(s.drop_last(), skip_offscreen)
    } else {
        shown(s.drop_last(), skip_offscreen).push(s.last())
    }
}

/// The level below a level: the children of each element that the rule does not
/// skip, one element after the other.
pub open spec fn level_below(
    rule: Rule,
    level: Seq<UiElement>,
    depth: int,
    skip_offscreen: bool,
) -> Seq<UiElement>
    decreases level.len(),
{
    if level.len() == 0 {
        Seq::empty()
    } else {
        let before = level_below(rule, level.drop_last(), depth, skip_offscreen);
        if rule(level.last(), depth) is Continue {
            before + shown(level.last().children@, skip_offscreen)
        } else {
            before
        }
    }
}

/// The walk of a level and of all levels below it, one after the other.
pub open spec fn walk_levels(
    rule: Rule,
    level: Seq<UiElement>,
    depth: int,
    max_depth: int,
    skip_offscreen: bool,
) -> Trace
    decreases max_depth - depth,
{
    let here = visit_level(rule, level, depth);
    if depth >= max_depth {
        here
    } else {
        follow(
            here,
            walk_levels(
                rule,
                level_below(rule, level, depth, skip_offscreen),
                depth + 1,
                max_depth,
                skip_offscreen,
            ),
        )
    }
}

/// The walk of a tree, breadth first: the root, then its children in order, then
/// theirs.
pub open spec fn walk(rule: Rule, root: UiElement, max_depth: int, skip_offscreen: bool) -> Trace {
    walk_levels(rule, seq![root], 0, max_depth, skip_offscreen)
}

proof fn lemma_no_level(rule: Rule, depth: int, max_depth: int, skip_offscreen: bool)
    ensures
        walk_levels(rule, Seq::empty(), depth, max_depth, skip_offscreen) == (
            Seq::<(UiElement, int)>::empty(),
            false,
        ),
    decreases max_depth - depth,
{
    if depth < max_depth {
        lemma_no_level(rule, depth + 1, max_depth, skip_offscreen);
        assert(level_below(rule, Seq::empty(), depth, skip_offscreen) =~= Seq::empty());
        assert(Seq::<(UiElement, int)>::empty() + Seq::empty() =~= Seq::<
            (UiElement, int),
        >::empty());
    }
}

proof fn lemma_stopped_level(rule: Rule, level: Seq<UiElement>, depth: int, n: int)
    requires
        0 <= n <= level.len(),
        visit_level(rule, level.take(n), depth).1,
    ensures
        visit_level(rule, level, depth) == visit_level(rule, level.take(n), depth),
    decreases level.len(),
{
    if n == level.len() {
        assert(level.take(n) =~= level);
    } else {
        assert(level.drop_last().take(n) =~= level.take(n));
        lemma_stopped_level(rule, level.drop_last(), depth, n);
    }
}

proof fn lemma_follow_assoc(a: Trace, b: Trace, c: Trace)
    ensures
        follow(follow(a, b), c) == follow(a, follow(b, c)),
{
    assert((a.0 + b.0) + c.0 =~= a.0 + (b.0 + c.0));
}

proof fn lemma_follow_empty(a: Trace)
    ensures
        follow((Seq::empty(), false), a) == a,
        follow(a, (Seq::empty(), false)) == a,
{
    assert(Seq::empty() + a.0 =~= a.0);
    assert(a.0 + Seq::empty() =~= a.0);
}

/// A list of elements as values.
pub open spec fn values(s: Seq<&UiElement>) -> Seq<UiElement> {
    Seq::new(s.len(), |i: int| *s[i])
}

/// Visited elements as values.
pub open spec fn visited(s: Seq<(&UiElement, u32)>) -> Seq<(UiElement, int)> {
    Seq::new(s.len(), |i: int| (*s[i].0, s[i].1 as int))
}

/// The elements that a walk has visited, in order, each with its depth.
pub struct Walk<'a> {
    pub visits: Vec<(&'a UiElement, u32)>,
    pub stopped: bool,
}

impl<'a> Walk<'a> {
    /// The walk as a trace.
    pub open spec fn trace(&self) -> Trace {
        (visited(self.visits@), self.stopped)
    }
}

/// Appends the children of `e` that a walk looks at.
fn push_shown<'a>(e: &'a UiElement, skip_offscreen: bool, out: &mut Vec<&'a UiElement>)
    ensures
        values(final(out)@) == values(old(out)@) + shown(e.children@, skip_offscreen),
{
    let ghost before = values(out@);
    let ghost kids = e.children@;
    let mut i: usize = 0;
    assert(kids.take(0) =~= Seq::empty());
    assert(before + shown(kids.take(0), skip_offscreen) =~= before);
    while i < e.children.len()
        invariant
            i <= e.children@.len(),
            kids == e.children@,
            values(out@) == before + shown(kids.take(i as int), skip_offscreen),
        decreases e.children@.len() - i,
    {
        let child = &e.children[i];
        assert(kids.take(i + 1).drop_last() =~= kids.take(i as int));
        if !skip_offscreen || !child.offscreen {
            let ghost held = out@;
            out.push(child);
            assert(values(out@) =~= values(held).push(*child));
        }
        i += 1;
        assert(values(out@) =~= before + shown(kids.take(i as int), skip_offscreen));
    }
    assert(kids.take(i as int) =~= kids);
}

/// Walks the tree at `root` down to `max_depth`, breadth first. With
/// `skip_offscreen` an element that is off screen is passed over with all below
/// it.
pub fn walk_descendants<'a, V: Visitor>(
    root: &'a UiElement,
    max_depth: u32,
    skip_offscreen: bool,
    visitor: &V,
) -> (r: Walk<'a>)
    ensures
        r.trace() == walk(visitor.rule(), *root, max_depth as int, skip_offscreen),
        r.stopped == walk(visitor.rule(), *root, max_depth as int, skip_offscreen).1,
        r.visits@.len() == walk(visitor.rule(), *root, max_depth as int, skip_offscreen).0.len(),
        forall|i: int|
            0 <= i < r.visits@.len() ==> {
                let visit = walk(visitor.rule(), *root, max_depth as int, skip_offscreen).0[i];
                *(#[trigger] r.visits@[i]).0 == visit.0 && r.visits@[i].1 == visit.1
            },
{
    let mut visits: Vec<(&'a UiElement, u32)> = Vec::new();
    let mut level: Vec<&'a UiElement> = Vec::new();
    level.push(root);
    let mut depth: u32 = 0;
    let ghost rule = visitor.rule();
    let ghost goal = walk(rule, *root, max_depth as int, skip_offscreen);
    proof {
        assert(values(level@) =~= seq![*root]);
        assert(visited(visits@) =~= Seq::empty());
        lemma_follow_empty(goal);
    }
    loop
        invariant
            depth <= max_depth,
            rule == visitor.rule(),
            goal == walk(visitor.rule(), *root, max_depth as int, skip_offscreen),
            follow(
                (visited(visits@), false),
                walk_levels(rule, values(level@), depth as int, max_depth as int, skip_offscreen),
            ) == goal,
        decreases max_depth - depth,
    {
        let ghost now = values(level@);
        let ghost seen = visited(visits@);
        let ghost rest = walk_levels(
            rule,
            level_below(rule, now, depth as int, skip_offscreen),
            depth + 1,
            max_depth as int,
            skip_offscreen,
        );
        let mut next: Vec<&'a UiElement> = Vec::new();
        let mut i: usize = 0;
        assert(now.take(0) =~= Seq::empty());
        assert(seen + visit_level(rule, now.take(0), depth as int).0 =~= seen);
        assert(values(next@) =~= Seq::empty());
        while i < level.len()
            invariant
                i <= level@.len(),
                depth <= max_depth,
                rule == visitor.rule(),
                now == values(level@),
                goal == walk(visitor.rule(), *root, max_depth as int, skip_offscreen),
                follow(
                    (seen, false),
                    walk_levels(rule, now, depth as int, max_depth as int, skip_offscreen),
                ) == goal,
                !visit_level(rule, now.take(i as int), depth as int).1,
                visited(visits@) == seen + visit_level(rule, now.take(i as int), depth as int).0,
                depth < max_depth ==> values(next@) == level_below(
                    rule,
                    now.take(i as int),
                    depth as int,
                    skip_offscreen,
                ),
                depth == max_depth ==> next@.len() == 0,
            decreases level@.len() - i,
        {
            let node = level[i];
            let ghost upto = now.take(i + 1);
            let ghost held = visits@;
            assert(upto.drop_last() =~= now.take(i as int));
            assert(upto.last() == *node);
            visits.push((node, depth));
            assert(visited(visits@) =~= visited(held).push((*node, depth as int)));
            assert(visited(visits@) =~= seen + visit_level(rule, upto, depth as int).0);
            match visitor.visit(node, depth) {
                WalkAction::Stop => {
                    proof {
                        lemma_stopped_level(rule, now, depth as int, i + 1);
                    }
                    return Walk { visits, stopped: true };
                },
                WalkAction::SkipChildren => {},
                WalkAction::Continue => {
                    if depth < max_depth {
                        push_shown(node, skip_offscreen, &mut next);
                    }
                },
            }
            i += 1;
        }
        proof {
            assert(now.take(i as int) =~= now);
            if depth < max_depth {
                lemma_follow_assoc(
                    (seen, false),
                    visit_level(rule, now, depth as int),
                    rest,
                );
            }
        }
        if depth >= max_depth {
            return Walk { visits, stopped: false };
        }
        if next.len() == 0 {
            proof {
                assert(values(next@) =~= Seq::empty());
                lemma_no_level(rule, depth + 1, max_depth as int, skip_offscreen);
                lemma_follow_empty((visited(visits@), false));
            }
            return Walk { visits, stopped: false };
        }
        level = next;
        depth = depth + 1;
    }
}

// ---------------------------------------------------------------------------
// Searching
// ---------------------------------------------------------------------------

/// The rule that stops at the first element with a property.
pub open spec fn stop_at(wanted: spec_fn(UiElement) -> bool) -> Rule {
    |e: UiElement, depth: int|
        if wanted(e) {
            WalkAction::Stop
        } else {
            WalkAction::Continue
        }
}

/// The element at which a walk was stopped.
pub open spec fn stopped_at(t: Trace) -> Option<UiElement> {
    if t.1 && t.0.len() > 0 {
        Some(t.0.last().0)
    } else {
        None
    }
}

/// The first element with a property that a walk of the tree comes to.
pub open spec fn found(
    wanted: spec_fn(UiElement) -> bool,
    root: UiElement,
    max_depth: int,
) -> Option<UiElement> {
    stopped_at(walk(stop_at(wanted), root, max_depth, false))
}

/// The elements of a tree down to a depth, in document order.
pub open spec fn document(e: UiElement, depth: int, max_depth: int) -> Seq<UiElement>
    decreases e,
{
    seq![e] + if depth >= max_depth {
        Seq::empty()
    } else {
        document_list(e.children@, depth + 1, max_depth)
    }
}

/// The elements of a list of trees down to a depth, in document order.
pub open spec fn document_list(s: Seq<UiElement>, depth: int, max_depth: int) -> Seq<UiElement>
    decreases s,
{
    if s.len() == 0 {
        Seq::empty()
    } else {
        document_list(s.drop_last(), depth, max_depth) + document(s.last(), depth, max_depth)
    }
}

proof fn lemma_document_concat(a: Seq<UiElement>, b: Seq<UiElement>, depth: int, max_depth: int)
    ensures
        document_list(a + b, depth, max_depth) == document_list(a, depth, max_depth)
            + document_list(b, depth, max_depth),
    decreases b.len(),
{
    let d_a = document_list(a, depth, max_depth);
    if b.len() == 0 {
        assert(a + b =~= a);
        assert(d_a + Seq::empty() =~= d_a);
    } else {
        assert((a + b).drop_last() =~= a + b.drop_last());
        lemma_document_concat(a, b.drop_last(), depth, max_depth);
        assert(document_list(a + b, depth, max_depth) =~= d_a + document_list(
            b,
            depth,
            max_depth,
        ));
    }
}

proof fn lemma_all_shown(s: Seq<UiElement>)
    ensures
        shown(s, false) == s,
    decreases s.len(),
{
    if s.len() > 0 {
        lemma_all_shown(s.drop_last());
        assert(s.drop_last().push(s.last()) =~= s);
    }
}

/// The elements of visits.
pub open spec fn elements(s: Seq<(UiElement, int)>) -> Seq<UiElement> {
    s.map_values(|p: (UiElement, int)| p.0)
}

proof fn lemma_full_level(level: Seq<UiElement>, depth: int)
    ensures
        !visit_level(go_on(), level, depth).1,
        elements(visit_level(go_on(), level, depth).0) == level,
    decreases level.len(),
{
    let t = visit_level(go_on(), level, depth);
    if level.len() > 0 {
        lemma_full_level(level.drop_last(), depth);
        let before = visit_level(go_on(), level.drop_last(), depth);
        assert(elements(t.0) =~= elements(before.0).push(level.last()));
        assert(level.drop_last().push(level.last()) =~= level);
    } else {
        assert(elements(t.0) =~= level);
    }
}

proof fn lemma_level_in_document(level: Seq<UiElement>, depth: int, max_depth: int)
    requires
        depth < max_depth,
    ensures
        document_list(level, depth, max_depth).to_multiset() == level.to_multiset().add(
            document_list(
                level_below(go_on(), level, depth, false),
                depth + 1,
                max_depth,
            ).to_multiset(),
        ),
    decreases level.len(),
{
    broadcast use vstd::seq_lib::group_to_multiset_ensures;

    let d = document_list(level, depth, max_depth);
    if level.len() == 0 {
        assert(level =~= Seq::empty());
        assert(d =~= Seq::empty());
        assert(document_list(level_below(go_on(), level, depth, false), depth + 1, max_depth)
            =~= Seq::empty());
        assert(d.to_multiset() =~= level.to_multiset().add(d.to_multiset()));
    } else {
        let front = level.drop_last();
        let e = level.last();
        lemma_level_in_document(front, depth, max_depth);
        lemma_all_shown(e.children@);
        let below = level_below(go_on(), front, depth, false);
        let d_front = document_list(front, depth, max_depth);
        let d_below = document_list(below, depth + 1, max_depth);
        let d_kids = document_list(e.children@, depth + 1, max_depth);
        lemma_document_concat(below, e.children@, depth + 1, max_depth);
        assert(document(e, depth, max_depth) == seq![e] + d_kids);
        assert(d =~= d_front + (seq![e] + d_kids));
        vstd::seq_lib::lemma_multiset_commutative(d_front, seq![e] + d_kids);
        vstd::seq_lib::lemma_multiset_commutative(seq![e], d_kids);
        vstd::seq_lib::lemma_multiset_commutative(d_below, d_kids);
        assert(level =~= front + seq![e]);
        vstd::seq_lib::lemma_multiset_commutative(front, seq![e]);
        assert(d.to_multiset() =~= level.to_multiset().add((d_below + d_kids).to_multiset()));
    }
}

proof fn lemma_full_walk(level: Seq<UiElement>, depth: int, max_depth: int)
    requires
        depth <= max_depth,
    ensures
        !walk_levels(go_on(), level, depth, max_depth, false).1,
        elements(walk_levels(go_on(), level, depth, max_depth, false).0).to_multiset()
            == document_list(level, depth, max_depth).to_multiset(),
    decreases max_depth - depth,
{
    let here = visit_level(go_on(), level, depth);
    lemma_full_level(level, depth);
    if depth < max_depth {
        let next = level_below(go_on(), level, depth, false);
        let down = walk_levels(go_on(), next, depth + 1, max_depth, false);
        lemma_full_walk(next, depth + 1, max_depth);
        lemma_level_in_document(level, depth, max_depth);
        assert(elements(here.0 + down.0) =~= elements(here.0) + elements(down.0));
        vstd::seq_lib::lemma_multiset_commutative(elements(here.0), elements(down.0));
    } else {
        lemma_last_level(level, depth, max_depth);
    }
}

proof fn lemma_last_level(level: Seq<UiElement>, depth: int, max_depth: int)
    requires
        depth >= max_depth,
    ensures
        document_list(level, depth, max_depth) == level,
    decreases level.len(),
{
    if level.len() > 0 {
        lemma_last_level(level.drop_last(), depth, max_depth);
        assert(document(level.last(), depth, max_depth) =~= seq![level.last()]);
        assert(level.drop_last() + seq![level.last()] =~= level);
    }
}

proof fn lemma_level_search(wanted: spec_fn(UiElement) -> bool, level: Seq<UiElement>, depth: int)
    ensures
        ({
            let t = visit_level(stop_at(wanted), level, depth);
            let all = visit_level(go_on(), level, depth);
            &&& t.0.len() <= all.0.len()
            &&& t.0 == all.0.take(t.0.len() as int)
            &&& t.1 ==> t.0.len() > 0 && wanted(t.0.last().0)
            &&& forall|i: int| 0 <= i < t.0.len() - 1 ==> !wanted((#[trigger] t.0[i]).0)
            &&& !t.1 ==> t.0 == all.0 && t.0.len() == level.len() && forall|i: int|
                0 <= i < t.0.len() ==> !wanted((#[trigger] t.0[i]).0)
            &&& !t.1 ==> forall|i: int| 0 <= i < level.len() ==> !wanted(#[trigger] level[i])
        }),
    decreases level.len(),
{
    let t = visit_level(stop_at(wanted), level, depth);
    let all = visit_level(go_on(), level, depth);
    lemma_full_level(level, depth);
    if level.len() == 0 {
        assert(t.0 =~= all.0.take(0));
    } else {
        let front = level.drop_last();
        lemma_full_level(front, depth);
        lemma_level_search(wanted, front, depth);
        let before = visit_level(stop_at(wanted), front, depth);
        let all_before = visit_level(go_on(), front, depth);
        assert(all.0 == all_before.0.push((level.last(), depth)));
        assert(t.0 =~= all.0.take(t.0.len() as int));
        if !t.1 {
            assert forall|i: int| 0 <= i < level.len() implies !wanted(#[trigger] level[i]) by {
                if i < front.len() {
                    assert(front[i] == level[i]);
                }
            }
        }
    }
}

proof fn lemma_same_level_below(
    wanted: spec_fn(UiElement) -> bool,
    level: Seq<UiElement>,
    depth: int,
)
    requires
        forall|i: int| 0 <= i < level.len() ==> !wanted(#[trigger] level[i]),
    ensures
        level_below(stop_at(wanted), level, depth, false) == level_below(
            go_on(),
            level,
            depth,
            false,
        ),
    decreases level.len(),
{
    if level.len() > 0 {
        assert forall|i: int| 0 <= i < level.drop_last().len() implies !wanted(
            #[trigger] level.drop_last()[i],
        ) by {
            assert(level[i] == level.drop_last()[i]);
        }
        assert(!wanted(level[level.len() - 1]));
        lemma_same_level_below(wanted, level.drop_last(), depth);
    }
}

/// A search of some levels ends at the first element that is wanted, or comes
/// past all.
proof fn lemma_search(
    wanted: spec_fn(UiElement) -> bool,
    level: Seq<UiElement>,
    depth: int,
    max_depth: int,
)
    ensures
        ({
            let t = walk_levels(stop_at(wanted), level, depth, max_depth, false);
            let all = walk_levels(go_on(), level, depth, max_depth, false);
            &&& t.0.len() <= all.0.len()
            &&& t.0 == all.0.take(t.0.len() as int)
            &&& t.1 ==> t.0.len() > 0 && wanted(t.0.last().0)
            &&& forall|i: int| 0 <= i < t.0.len() - 1 ==> !wanted((#[trigger] t.0[i]).0)
            &&& !t.1 ==> t.0 == all.0 && forall|i: int|
                0 <= i < t.0.len() ==> !wanted((#[trigger] t.0[i]).0)
        }),
    decreases max_depth - depth,
{
    lemma_level_search(wanted, level, depth);
    lemma_full_level(level, depth);
    if depth < max_depth {
        let here = visit_level(stop_at(wanted), level, depth);
        let all_here = visit_level(go_on(), level, depth);
        let t = walk_levels(stop_at(wanted), level, depth, max_depth, false);
        let all = walk_levels(go_on(), level, depth, max_depth, false);
        let next = level_below(go_on(), level, depth, false);
        let all_down = walk_levels(go_on(), next, depth + 1, max_depth, false);
        assert(all.0 == all_here.0 + all_down.0);
        if !here.1 {
            lemma_same_level_below(wanted, level, depth);
            lemma_search(wanted, next, depth + 1, max_depth);
            let down = walk_levels(stop_at(wanted), next, depth + 1, max_depth, false);
            assert(t.0 == here.0 + down.0);
            assert forall|i: int| 0 <= i < t.0.len() - 1 implies !wanted((#[trigger] t.0[i]).0) by {
                if i < here.0.len() {
                    assert(t.0[i] == here.0[i]);
                } else {
                    assert(t.0[i] == down.0[i - here.0.len()]);
                }
            }
            if t.1 {
                assert(t.0.last() == down.0.last());
            } else {
                assert forall|i: int| 0 <= i < t.0.len() implies !wanted(
                    (#[trigger] t.0[i]).0,
                ) by {
                    if i < here.0.len() {
                        assert(t.0[i] == here.0[i]);
                    } else {
                        assert(t.0[i] == down.0[i - here.0.len()]);
                    }
                }
            }
        }
        assert(t.0 =~= all.0.take(t.0.len() as int));
    } else {
        lemma_level_search(wanted, level, depth);
    }
}

/// A search finds the first element with the property, in the order of a walk of
/// the whole tree, and nothing only where the tree has no such element down to
/// the depth asked for.
pub proof fn law_search_is_complete(
    wanted: spec_fn(UiElement) -> bool,
    root: UiElement,
    max_depth: int,
)
    requires
        0 <= max_depth,
    ensures
        match found(wanted, root, max_depth) {
            Some(e) => wanted(e) && document(root, 0, max_depth).contains(e) && exists|k: int|
                #![trigger walk(go_on(), root, max_depth, false).0[k]]
                0 <= k < walk(go_on(), root, max_depth, false).0.len() && walk(
                    go_on(),
                    root,
                    max_depth,
                    false,
                ).0[k].0 == e && forall|i: int|
                    0 <= i < k ==> !wanted((#[trigger] walk(go_on(), root, max_depth, false).0[i]).0),
            None => forall|i: int|
                0 <= i < document(root, 0, max_depth).len() ==> !wanted(
                    #[trigger] document(root, 0, max_depth)[i],
                ),
        },
{
    broadcast use vstd::seq_lib::group_to_multiset_ensures;

    let t = walk(stop_at(wanted), root, max_depth, false);
    let all = walk(go_on(), root, max_depth, false).0;
    let d = document(root, 0, max_depth);
    lemma_search(wanted, seq![root], 0, max_depth);
    law_full_walk_visits_all(root, max_depth);
    if t.1 {
        let k = t.0.len() - 1;
        assert(all[k] == t.0[k]);
        assert(elements(all)[k] == all[k].0);
        assert(elements(all).contains(all[k].0));
        assert(elements(all).to_multiset().count(all[k].0) > 0);
        assert(d.contains(all[k].0));
        assert forall|i: int| 0 <= i < k implies !wanted((#[trigger] all[i]).0) by {
            assert(all[i] == t.0[i]);
        }
    } else {
        assert forall|i: int| 0 <= i < d.len() implies !wanted(#[trigger] d[i]) by {
            assert(d.contains(d[i]));
            assert(elements(all).to_multiset().count(d[i]) > 0);
            assert(elements(all).contains(d[i]));
            let k = choose|k: int| 0 <= k < elements(all).len() && elements(all)[k] == d[i];
            assert(t.0[k].0 == d[i]);
        }
    }
}

/// A text holds one of the needles.
pub open spec fn holds_any(s: Seq<char>, needles: Seq<Seq<char>>) -> bool {
    exists|j: int| 0 <= j < needles.len() && contains(s, #[trigger] needles[j])
}

/// Texts in lower case.
pub open spec fn all_lowercase(s: Seq<Seq<char>>) -> Seq<Seq<char>> {
    s.map_values(|t: Seq<char>| lowercase(t))
}

/// The lowercase name of `e` holds the lowercase of one of the needles.
pub open spec fn name_contains(e: UiElement, needles: Seq<Seq<char>>) -> bool {
    holds_any(lowercase(e.name@), all_lowercase(needles))
}

/// Does a text hold one of the needles?
pub fn text_holds_any(s: &str, needles: &Vec<String>) -> (r: bool)
    ensures
        r == holds_any(s@, texts(needles@)),
        r == exists|j: int| 0 <= j < needles@.len() && contains(s@, (#[trigger] needles@[j])@),
{
    let mut i: usize = 0;
    while i < needles.len()
        invariant
            i <= needles@.len(),
            forall|j: int| 0 <= j < i ==> !contains(s@, #[trigger] texts(needles@)[j]),
        decreases needles@.len() - i,
    {
        assert(texts(needles@)[i as int] == needles@[i as int]@);
        if text_contains(s, needles[i].as_str()) {
            return true;
        }
        i += 1;
    }
    assert forall|j: int| 0 <= j < needles@.len() implies !contains(
        s@,
        (#[trigger] needles@[j])@,
    ) by {
        assert(texts(needles@)[j] == needles@[j]@);
    }
    false
}

/// Texts in lower case.
pub(crate) fn lower_texts(s: &[&str]) -> (r: Vec<String>)
    ensures
        texts(r@) == all_lowercase(slices(s@)),
{
    let mut out: Vec<String> = Vec::new();
    let mut i: usize = 0;
    while i < s.len()
        invariant
            i <= s@.len(),
            out@.len() == i,
            forall|j: int| 0 <= j < i ==> (#[trigger] out@[j])@ == lowercase(s@[j]@),
        decreases s@.len() - i,
    {
        out.push(to_lower(s[i]));
        i += 1;
    }
    assert(texts(out@) =~= all_lowercase(slices(s@)));
    out
}

/// The property of having one of the needles in the name, whatever the case.
pub open spec fn named_like(needles: Seq<Seq<char>>) -> spec_fn(UiElement) -> bool {
    |e: UiElement| name_contains(e, needles)
}

/// The views of a list of string slices.
pub open spec fn slices(s: Seq<&str>) -> Seq<Seq<char>> {
    Seq::new(s.len(), |i: int| s[i]@)
}

/// Tells whether an element has a property.
pub trait ElementTest {
    /// The property.
    spec fn wanted(&self) -> spec_fn(UiElement) -> bool;

    /// Has `e` the property?
    fn test(&self, e: &UiElement) -> (r: bool)
        ensures
            r == self.wanted()(*e),
    ;
}

/// Tests for one of the needles in the name, whatever the case.
pub struct NameTest<'n> {
    pub needles: &'n [&'n str],
}

impl<'n> ElementTest for NameTest<'n> {
    open spec fn wanted(&self) -> spec_fn(UiElement) -> bool {
        named_like(slices(self.needles@))
    }

    fn test(&self, e: &UiElement) -> (r: bool) {
        let lower = to_lower(e.name.as_str());
        text_holds_any(lower.as_str(), &lower_texts(self.needles))
    }
}

struct StopAt<'t, T> {
    test: &'t T,
}

impl<'t, T: ElementTest> Visitor for StopAt<'t, T> {
    closed spec fn rule(&self) -> Rule {
        stop_at(self.test.wanted())
    }

    fn visit(&self, e: &UiElement, depth: u32) -> (a: WalkAction) {
        if self.test.test(e) {
            WalkAction::Stop
        } else {
            WalkAction::Continue
        }
    }
}

/// The element at which a walk was stopped.
fn last_if_stopped<'a>(w: &Walk<'a>) -> (r: Option<&'a UiElement>)
    ensures
        match r {
            Some(e) => stopped_at(w.trace()) == Some(*e),
            None => stopped_at(w.trace()) is None,
        },
{
    if w.stopped && w.visits.len() > 0 {
        let e = w.visits[w.visits.len() - 1].0;
        assert(w.trace().0.last().0 == *e);
        Some(e)
    } else {
        None
    }
}

/// The first element with a property that a walk of the tree comes to.
pub fn find_where<'a, T: ElementTest>(root: &'a UiElement, max_depth: u32, test: &T) -> (r: Option<
    &'a UiElement,
>)
    ensures
        match r {
            Some(e) => found(test.wanted(), *root, max_depth as int) == Some(*e),
            None => found(test.wanted(), *root, max_depth as int) is None,
        },
{
    let w = walk_descendants(root, max_depth, false, &StopAt { test });
    last_if_stopped(&w)
}

/// The first element of the tree whose name contains one of the needles,
/// whatever the case. Elements that are off screen count: what lies behind a
/// presentation is still live.
pub fn find_descendant_by_name_contains<'a>(
    root: &'a UiElement,
    needles: &[&str],
    max_depth: u32,
) -> (r: Option<&'a UiElement>)
    ensures
        match r {
            Some(e) => found(named_like(slices(needles@)), *root, max_depth as int) == Some(*e),
            None => found(named_like(slices(needles@)), *root, max_depth as int) is None,
        },
{
    find_where(root, max_depth, &NameTest { needles })
}

// ---------------------------------------------------------------------------
// Everything below an element
// ---------------------------------------------------------------------------

/// The rule that visits every element.
pub open spec fn go_on() -> Rule {
    |e: UiElement, depth: int| WalkAction::Continue
}

/// Visits every element.
pub struct EveryElement;

impl Visitor for EveryElement {
    open spec fn rule(&self) -> Rule {
        go_on()
    }

    fn visit(&self, e: &UiElement, depth: u32) -> (a: WalkAction) {
        WalkAction::Continue
    }
}

/// A walk that goes on at every element visits each element of the tree down
/// to the depth asked for, as often as it stands there.
pub proof fn law_full_walk_visits_all(root: UiElement, max_depth: int)
    requires
        0 <= max_depth,
    ensures
        !walk(go_on(), root, max_depth, false).1,
        elements(walk(go_on(), root, max_depth, false).0).to_multiset() == document(
            root,
            0,
            max_depth,
        ).to_multiset(),
{
    lemma_full_walk(seq![root], 0, max_depth);
    assert(seq![root].drop_last() =~= Seq::empty());
    reveal_with_fuel(document_list, 2);
    assert(document_list(seq![root], 0, max_depth) =~= document(root, 0, max_depth));
}

/// The depths of the visits of a walk never fall: what stands higher is visited
/// before what stands lower.
pub proof fn law_higher_comes_first(
    rule: Rule,
    root: UiElement,
    max_depth: int,
    skip_offscreen: bool,
)
    ensures
        forall|i: int, j: int|
            0 <= i <= j < walk(rule, root, max_depth, skip_offscreen).0.len() ==> (
            #[trigger] walk(rule, root, max_depth, skip_offscreen).0[i]).1 <= (
            #[trigger] walk(rule, root, max_depth, skip_offscreen).0[j]).1,
{
    lemma_depths(rule, seq![root], 0, max_depth, skip_offscreen);
}

proof fn lemma_level_depth(rule: Rule, level: Seq<UiElement>, depth: int)
    ensures
        forall|i: int|
            0 <= i < visit_level(rule, level, depth).0.len() ==> (#[trigger] visit_level(
                rule,
                level,
                depth,
            ).0[i]).1 == depth,
    decreases level.len(),
{
    if level.len() > 0 {
        lemma_level_depth(rule, level.drop_last(), depth);
        let before = visit_level(rule, level.drop_last(), depth).0;
        assert forall|i: int|
            0 <= i < visit_level(rule, level, depth).0.len() implies (#[trigger] visit_level(
            rule,
            level,
            depth,
        ).0[i]).1 == depth by {
            if i < before.len() {
                assert(visit_level(rule, level, depth).0[i] == before[i]);
            }
        }
    }
}

proof fn lemma_depths(
    rule: Rule,
    level: Seq<UiElement>,
    depth: int,
    max_depth: int,
    skip_offscreen: bool,
)
    ensures
        ({
            let s = walk_levels(rule, level, depth, max_depth, skip_offscreen).0;
            &&& forall|i: int| 0 <= i < s.len() ==> depth <= (#[trigger] s[i]).1
            &&& forall|i: int, j: int|
                0 <= i <= j < s.len() ==> (#[trigger] s[i]).1 <= (#[trigger] s[j]).1
        }),
    decreases max_depth - depth,
{
    let s = walk_levels(rule, level, depth, max_depth, skip_offscreen).0;
    let here = visit_level(rule, level, depth);
    lemma_level_depth(rule, level, depth);
    if depth < max_depth && !here.1 {
        let next = level_below(rule, level, depth, skip_offscreen);
        let down = walk_levels(rule, next, depth + 1, max_depth, skip_offscreen).0;
        lemma_depths(rule, next, depth + 1, max_depth, skip_offscreen);
        assert(s == here.0 + down);
        assert forall|i: int| 0 <= i < s.len() implies depth <= (#[trigger] s[i]).1 by {
            if i < here.0.len() {
                assert(s[i] == here.0[i]);
            } else {
                assert(s[i] == down[i - here.0.len()]);
            }
        }
        assert forall|i: int, j: int| 0 <= i <= j < s.len() implies (#[trigger] s[i]).1 <= (
        #[trigger] s[j]).1 by {
            if i < here.0.len() {
                assert(s[i] == here.0[i]);
            } else {
                assert(s[i] == down[i - here.0.len()]);
                assert(s[j] == down[j - here.0.len()]);
            }
        }
    } else {
        assert(s == here.0);
    }
}

/// The visited elements that have a property.
pub open spec fn picked(
    s: Seq<(UiElement, int)>,
    wanted: spec_fn(UiElement) -> bool,
) -> Seq<(UiElement, int)>
    decreases s.len(),
{
    if s.len() == 0 {
        Seq::empty()
    } else if wanted(s.last().0) {
        picked(s.drop_last(), wanted).push(s.last())
    } else {
        picked(s.drop_last(), wanted)
    }
}

/// All elements of a tree that have a property, as a walk comes to them.
pub open spec fn all_found(
    wanted: spec_fn(UiElement) -> bool,
    root: UiElement,
    max_depth: int,
) -> Seq<(UiElement, int)> {
    picked(walk(go_on(), root, max_depth, false).0, wanted)
}

/// All elements of a tree that have a property, each with its depth, as a walk
/// comes to them.
pub fn find_all<'a, T: ElementTest>(root: &'a UiElement, max_depth: u32, test: &T) -> (r: Vec<
    (&'a UiElement, u32),
>)
    ensures
        visited(r@) == all_found(test.wanted(), *root, max_depth as int),
{
    let w = walk_descendants(root, max_depth, false, &EveryElement);
    let ghost s = w.trace().0;
    let mut out: Vec<(&'a UiElement, u32)> = Vec::new();
    let mut i: usize = 0;
    assert(s.take(0) =~= Seq::empty());
    assert(visited(out@) =~= picked(s.take(0), test.wanted()));
    while i < w.visits.len()
        invariant
            i <= w.visits@.len(),
            s == w.trace().0,
            visited(out@) == picked(s.take(i as int), test.wanted()),
        decreases w.visits@.len() - i,
    {
        let (e, depth) = w.visits[i];
        assert(s.take(i + 1).drop_last() =~= s.take(i as int));
        assert(s.take(i + 1).last() == (*e, depth as int));
        if test.test(e) {
            let ghost before = out@;
            out.push((e, depth));
            assert(visited(out@) =~= visited(before).push((*e, depth as int)));
        }
        i += 1;
    }
    assert(s.take(i as int) =~= s);
    out
}

/// A piece of text or an edit field that has a name.
pub open spec fn readable(e: UiElement) -> bool {
    (e.control_type == TEXT || e.control_type == EDIT) && e.name@.len() > 0
}

/// The names of the readable elements.
pub open spec fn words(s: Seq<UiElement>) -> Seq<Seq<char>>
    decreases s.len(),
{
    if s.len() == 0 {
        Seq::empty()
    } else if readable(s.last()) {
        words(s.drop_last()).push(s.last().name@)
    } else {
        words(s.drop_last())
    }
}

proof fn lemma_words_concat(a: Seq<UiElement>, b: Seq<UiElement>)
    ensures
        words(a + b) == words(a) + words(b),
    decreases b.len(),
{
    if b.len() == 0 {
        assert(a + b =~= a);
    } else {
        assert((a + b).drop_last() =~= a + b.drop_last());
        lemma_words_concat(a, b.drop_last());
    }
}

fn collect_words(e: &UiElement, depth: u32, max_depth: u32, out: &mut Vec<String>)
    ensures
        texts(final(out)@) == texts(old(out)@) + words(
            document(*e, depth as int, max_depth as int),
        ),
    decreases *e,
{
    let ghost before = texts(out@);
    if (e.control_type == TEXT || e.control_type == EDIT) && !e.name.as_str().is_empty() {
        out.push(e.name.clone());
    }
    let ghost here: Seq<UiElement> = seq![*e];
    assert(here.drop_last() =~= Seq::empty());
    assert(words(here) =~= if readable(*e) {
        seq![e.name@]
    } else {
        Seq::empty()
    }) by {
        reveal_with_fuel(words, 2);
    }
    assert(texts(out@) =~= before + words(here));
    if depth >= max_depth {
        assert(document(*e, depth as int, max_depth as int) =~= here);
        return;
    }
    let ghost kids = e.children@;
    let mut i: usize = 0;
    assert(kids.take(0) =~= Seq::empty());
    assert(before + words(here) + words(Seq::empty()) =~= before + words(here));
    while i < e.children.len()
        invariant
            i <= e.children@.len(),
            kids == e.children@,
            depth < max_depth,
            texts(out@) == before + words(here) + words(
                document_list(kids.take(i as int), depth + 1, max_depth as int),
            ),
        decreases e.children@.len() - i,
    {
        let ghost upto = kids.take(i + 1);
        assert(upto.drop_last() =~= kids.take(i as int));
        let ghost d_rest = document_list(kids.take(i as int), depth + 1, max_depth as int);
        let ghost d_head = document(kids[i as int], depth + 1, max_depth as int);
        assert(decreases_to!(*e => kids[i as int]));
        collect_words(&e.children[i], depth + 1, max_depth, out);
        proof {
            lemma_words_concat(d_rest, d_head);
        }
        i += 1;
        assert(texts(out@) =~= before + words(here) + words(
            document_list(upto, depth + 1, max_depth as int),
        ));
    }
    assert(kids.take(i as int) =~= kids);
    proof {
        lemma_words_concat(here, document_list(kids, depth + 1, max_depth as int));
    }
    assert(texts(out@) =~= before + words(document(*e, depth as int, max_depth as int)));
}

/// The names of the texts and edit fields below an element, in document order
/// and with a space between them.
pub fn collect_text(root: &UiElement, max_depth: u32) -> (r: String)
    ensures
        r@ == joined(words(document(*root, 0, max_depth as int)), seq![' ']),
{
    let mut found_words: Vec<String> = Vec::new();
    collect_words(root, 0, max_depth, &mut found_words);
    proof {
        reveal_strlit(" ");
    }
    let r = join_texts(&found_words, 0, " ");
    assert(texts(found_words@).skip(0) =~= words(document(*root, 0, max_depth as int)));
    assert(" "@ =~= seq![' ']);
    r
}

// ---------------------------------------------------------------------------
// What holds of every walk
// ---------------------------------------------------------------------------

/// A document is the element itself and then, one child after the other, the
/// documents of all its children, each one level further down; at the last level
/// it is the element alone.
pub proof fn law_document_is_whole(e: UiElement, depth: int, max_depth: int)
    ensures
        depth >= max_depth ==> document(e, depth, max_depth) == seq![e],
        depth < max_depth ==> document(e, depth, max_depth) == seq![e] + e.children@.map_values(
            |c: UiElement| document(c, depth + 1, max_depth),
        ).flatten(),
{
    if depth < max_depth {
        lemma_document_list(e.children@, depth + 1, max_depth);
    } else {
        assert(document(e, depth, max_depth) =~= seq![e]);
    }
}

proof fn lemma_document_list(s: Seq<UiElement>, depth: int, max_depth: int)
    ensures
        document_list(s, depth, max_depth) == s.map_values(
            |c: UiElement| document(c, depth, max_depth),
        ).flatten(),
    decreases s.len(),
{
    let f = |c: UiElement| document(c, depth, max_depth);
    if s.len() > 0 {
        lemma_document_list(s.drop_last(), depth, max_depth);
        assert(s.map_values(f) =~= s.drop_last().map_values(f).push(f(s.last())));
        s.drop_last().map_values(f).lemma_flatten_push(f(s.last()));
    } else {
        assert(s.map_values(f) =~= Seq::empty());
    }
}

/// A rule that never stops a walk.
pub open spec fn never_stops(rule: Rule) -> bool {
    forall|e: UiElement, depth: int| !(#[trigger] rule(e, depth) is Stop)
}

spec fn looked_at(skip_offscreen: bool) -> spec_fn(UiElement) -> bool {
    |c: UiElement| !(skip_offscreen && c.offscreen)
}

spec fn goes_on_below(rule: Rule, depth: int) -> spec_fn((UiElement, int)) -> bool {
    |p: (UiElement, int)| p.1 == depth && rule(p.0, p.1) is Continue
}

spec fn children_looked_at(skip_offscreen: bool) -> spec_fn((UiElement, int)) -> Seq<UiElement> {
    |p: (UiElement, int)| p.0.children@.filter(looked_at(skip_offscreen))
}

spec fn at_depth(depth: int) -> spec_fn(UiElement) -> (UiElement, int) {
    |e: UiElement| (e, depth)
}

proof fn lemma_shown_is_filter(s: Seq<UiElement>, skip_offscreen: bool)
    ensures
        shown(s, skip_offscreen) == s.filter(looked_at(skip_offscreen)),
    decreases s.len(),
{
    reveal(Seq::filter);
    if s.len() > 0 {
        lemma_shown_is_filter(s.drop_last(), skip_offscreen);
    } else {
        assert(shown(s, skip_offscreen) =~= s.filter(looked_at(skip_offscreen)));
    }
}

/// The children that a walk comes to below the visits of one level.
spec fn next_visits(
    rule: Rule,
    s: Seq<(UiElement, int)>,
    depth: int,
    skip_offscreen: bool,
) -> Seq<(UiElement, int)> {
    s.filter(goes_on_below(rule, depth)).map_values(
        children_looked_at(skip_offscreen),
    ).flatten().map_values(at_depth(depth + 1))
}

proof fn lemma_level_visits(rule: Rule, level: Seq<UiElement>, depth: int)
    requires
        never_stops(rule),
    ensures
        visit_level(rule, level, depth) == (level.map_values(at_depth(depth)), false),
    decreases level.len(),
{
    let f = at_depth(depth);
    if level.len() > 0 {
        lemma_level_visits(rule, level.drop_last(), depth);
        assert(level.map_values(f) =~= level.drop_last().map_values(f).push(f(level.last())));
        assert(!(rule(level.last(), depth) is Stop));
    } else {
        assert(visit_level(rule, level, depth).0 =~= level.map_values(f));
    }
}

proof fn lemma_below_is_next(
    rule: Rule,
    level: Seq<UiElement>,
    depth: int,
    skip_offscreen: bool,
)
    ensures
        next_visits(rule, level.map_values(at_depth(depth)), depth, skip_offscreen) == level_below(
            rule,
            level,
            depth,
            skip_offscreen,
        ).map_values(at_depth(depth + 1)),
    decreases level.len(),
{
    reveal(Seq::filter);
    let f = at_depth(depth);
    let goes = goes_on_below(rule, depth);
    let kids = children_looked_at(skip_offscreen);
    let down = at_depth(depth + 1);
    if level.len() > 0 {
        let front = level.drop_last();
        lemma_below_is_next(rule, front, depth, skip_offscreen);
        let all = level.map_values(f);
        let before = front.map_values(f);
        assert(all.drop_last() =~= before);
        assert(all.last() == f(level.last()));
        lemma_shown_is_filter(level.last().children@, skip_offscreen);
        if goes(all.last()) {
            let lists = before.filter(goes).map_values(kids);
            assert(all.filter(goes).map_values(kids) =~= lists.push(kids(all.last())));
            lists.lemma_flatten_push(kids(all.last()));
            assert((lists.flatten() + kids(all.last())).map_values(down)
                =~= lists.flatten().map_values(down) + kids(all.last()).map_values(down));
            let b = level_below(rule, front, depth, skip_offscreen);
            assert((b + kids(all.last())).map_values(down) =~= b.map_values(down) + kids(
                all.last(),
            ).map_values(down));
        }
    } else {
        assert(level.map_values(f) =~= Seq::empty());
        assert(level.map_values(f).filter(goes).map_values(kids) =~= Seq::empty());
        assert(next_visits(rule, level.map_values(f), depth, skip_offscreen) =~= level_below(
            rule,
            level,
            depth,
            skip_offscreen,
        ).map_values(down));
    }
}

proof fn lemma_next_skips(
    rule: Rule,
    a: Seq<(UiElement, int)>,
    b: Seq<(UiElement, int)>,
    depth: int,
    skip_offscreen: bool,
)
    requires
        forall|i: int| 0 <= i < a.len() ==> (#[trigger] a[i]).1 != depth,
    ensures
        next_visits(rule, a + b, depth, skip_offscreen) == next_visits(
            rule,
            b,
            depth,
            skip_offscreen,
        ),
{
    let goes = goes_on_below(rule, depth);
    Seq::filter_distributes_over_add(a, b, goes);
    a.lemma_all_neg_filter_empty(goes);
    assert(a.filter(goes) + b.filter(goes) =~= b.filter(goes));
}

proof fn lemma_one_level_more(
    rule: Rule,
    level: Seq<UiElement>,
    depth: int,
    max_depth: int,
    skip_offscreen: bool,
)
    requires
        never_stops(rule),
        depth <= max_depth,
    ensures
        !walk_levels(rule, level, depth, max_depth, skip_offscreen).1,
        !walk_levels(rule, level, depth, max_depth + 1, skip_offscreen).1,
        walk_levels(rule, level, depth, max_depth + 1, skip_offscreen).0 == walk_levels(
            rule,
            level,
            depth,
            max_depth,
            skip_offscreen,
        ).0 + next_visits(
            rule,
            walk_levels(rule, level, depth, max_depth, skip_offscreen).0,
            max_depth,
            skip_offscreen,
        ),
    decreases max_depth - depth,
{
    let here = visit_level(rule, level, depth).0;
    let below = level_below(rule, level, depth, skip_offscreen);
    lemma_level_visits(rule, level, depth);
    if depth == max_depth {
        lemma_level_visits(rule, below, depth + 1);
        lemma_below_is_next(rule, level, depth, skip_offscreen);
        reveal_with_fuel(walk_levels, 2);
    } else {
        lemma_one_level_more(rule, below, depth + 1, max_depth, skip_offscreen);
        let down = walk_levels(rule, below, depth + 1, max_depth, skip_offscreen).0;
        lemma_next_skips(rule, here, down, max_depth, skip_offscreen);
        let next = next_visits(rule, down, max_depth, skip_offscreen);
        assert(here + (down + next) =~= (here + down) + next);
    }
}

/// A walk goes level by level. Down to depth zero it visits the root alone; and
/// a walk that may go one level further down visits, after all else, the
/// children of the elements on what was the last level, one element after the
/// other, each with its children in order. Children are left out only where the
/// rule skips them or where those off screen are to be passed over.
pub proof fn law_walk_goes_level_by_level(
    rule: Rule,
    root: UiElement,
    max_depth: int,
    skip_offscreen: bool,
)
    requires
        never_stops(rule),
        0 <= max_depth,
    ensures
        walk(rule, root, 0, skip_offscreen).0 == seq![(root, 0int)],
        walk(rule, root, max_depth + 1, skip_offscreen).0 == walk(
            rule,
            root,
            max_depth,
            skip_offscreen,
        ).0 + walk(rule, root, max_depth, skip_offscreen).0.filter(
            |p: (UiElement, int)| p.1 == max_depth && rule(p.0, p.1) is Continue,
        ).map_values(
            |p: (UiElement, int)|
                p.0.children@.filter(|c: UiElement| !(skip_offscreen && c.offscreen)),
        ).flatten().map_values(|c: UiElement| (c, max_depth + 1)),
{
    lemma_level_visits(rule, seq![root], 0);
    assert(walk(rule, root, 0, skip_offscreen).0 =~= seq![(root, 0int)]);
    lemma_one_level_more(rule, seq![root], 0, max_depth, skip_offscreen);
    let looked = |c: UiElement| !(skip_offscreen && c.offscreen);
    let goes = |p: (UiElement, int)| p.1 == max_depth && rule(p.0, p.1) is Continue;
    let kids = |p: (UiElement, int)| p.0.children@.filter(looked);
    let down = |c: UiElement| (c, max_depth + 1);
    assert(looked_at(skip_offscreen) =~= looked);
    assert(goes_on_below(rule, max_depth) =~= goes);
    assert(children_looked_at(skip_offscreen) =~= kids);
    assert(at_depth(max_depth + 1) =~= down);
}

/// A rule that goes on where another one stops.
pub open spec fn without_stops(rule: Rule) -> Rule {
    |e: UiElement, depth: int|
        if rule(e, depth) is Stop {
            WalkAction::Continue
        } else {
            rule(e, depth)
        }
}

/// `t` is what is left of `all` where a walk ends at the first stop.
spec fn cut_short(rule: Rule, t: Trace, all: Trace) -> bool {
    &&& t.0.is_prefix_of(all.0)
    &&& forall|i: int|
        0 <= i < t.0.len() - 1 ==> !(rule((#[trigger] t.0[i]).0, t.0[i].1) is Stop)
    &&& t.1 == (t.0.len() > 0 && rule(t.0.last().0, t.0.last().1) is Stop)
    &&& !t.1 ==> t.0 == all.0
}

proof fn lemma_level_cut_short(rule: Rule, level: Seq<UiElement>, depth: int)
    ensures
        cut_short(
            rule,
            visit_level(rule, level, depth),
            visit_level(without_stops(rule), level, depth),
        ),
        !visit_level(rule, level, depth).1 ==> forall|i: int|
            0 <= i < level.len() ==> !(rule(#[trigger] level[i], depth) is Stop),
    decreases level.len(),
{
    let t = visit_level(rule, level, depth);
    let all = visit_level(without_stops(rule), level, depth);
    lemma_level_visits(without_stops(rule), level, depth);
    if level.len() > 0 {
        let front = level.drop_last();
        lemma_level_cut_short(rule, front, depth);
        lemma_level_visits(without_stops(rule), front, depth);
        let before = visit_level(rule, front, depth);
        let all_before = visit_level(without_stops(rule), front, depth);
        assert(all.0 =~= all_before.0.push((level.last(), depth)));
        assert(t.0 =~= all.0.subrange(0, t.0.len() as int));
        assert forall|i: int| 0 <= i < t.0.len() - 1 implies !(rule(
            (#[trigger] t.0[i]).0,
            t.0[i].1,
        ) is Stop) by {
            if i < before.0.len() {
                assert(t.0[i] == before.0[i]);
            }
            if !before.1 && i == before.0.len() - 1 {
                assert(before.0.last() == before.0[i]);
            }
        }
        if !t.1 {
            assert forall|i: int| 0 <= i < level.len() implies !(rule(
                #[trigger] level[i],
                depth,
            ) is Stop) by {
                if i < front.len() {
                    assert(front[i] == level[i]);
                }
            }
        }
    } else {
        assert(t.0 =~= all.0);
        assert(t.0 =~= all.0.subrange(0, 0));
    }
}

proof fn lemma_same_below(rule: Rule, level: Seq<UiElement>, depth: int, skip_offscreen: bool)
    requires
        forall|i: int| 0 <= i < level.len() ==> !(rule(#[trigger] level[i], depth) is Stop),
    ensures
        level_below(rule, level, depth, skip_offscreen) == level_below(
            without_stops(rule),
            level,
            depth,
            skip_offscreen,
        ),
    decreases level.len(),
{
    if level.len() > 0 {
        let front = level.drop_last();
        assert forall|i: int| 0 <= i < front.len() implies !(rule(
            #[trigger] front[i],
            depth,
        ) is Stop) by {
            assert(front[i] == level[i]);
        }
        assert(!(rule(level[level.len() - 1], depth) is Stop));
        lemma_same_below(rule, front, depth, skip_offscreen);
    }
}

proof fn lemma_cut_short(
    rule: Rule,
    level: Seq<UiElement>,
    depth: int,
    max_depth: int,
    skip_offscreen: bool,
)
    ensures
        cut_short(
            rule,
            walk_levels(rule, level, depth, max_depth, skip_offscreen),
            walk_levels(without_stops(rule), level, depth, max_depth, skip_offscreen),
        ),
    decreases max_depth - depth,
{
    let plain = without_stops(rule);
    let here = visit_level(rule, level, depth);
    let all_here = visit_level(plain, level, depth);
    lemma_level_cut_short(rule, level, depth);
    lemma_level_visits(plain, level, depth);
    if depth < max_depth {
        let t = walk_levels(rule, level, depth, max_depth, skip_offscreen);
        let all = walk_levels(plain, level, depth, max_depth, skip_offscreen);
        let below = level_below(plain, level, depth, skip_offscreen);
        let all_down = walk_levels(plain, below, depth + 1, max_depth, skip_offscreen);
        assert(all.0 == all_here.0 + all_down.0);
        if here.1 {
            assert(t.0 =~= all.0.subrange(0, t.0.len() as int));
        } else {
            lemma_same_below(rule, level, depth, skip_offscreen);
            lemma_cut_short(rule, below, depth + 1, max_depth, skip_offscreen);
            let down = walk_levels(rule, below, depth + 1, max_depth, skip_offscreen);
            assert(t.0 == here.0 + down.0);
            assert(t.0 =~= all.0.subrange(0, t.0.len() as int));
            assert forall|i: int| 0 <= i < t.0.len() - 1 implies !(rule(
                (#[trigger] t.0[i]).0,
                t.0[i].1,
            ) is Stop) by {
                if i < here.0.len() {
                    assert(t.0[i] == here.0[i]);
                    if i == here.0.len() - 1 {
                        assert(here.0.last() == here.0[i]);
                    }
                } else {
                    assert(t.0[i] == down.0[i - here.0.len()]);
                }
            }
            if down.0.len() > 0 {
                assert(t.0.last() == down.0.last());
            } else if here.0.len() > 0 {
                assert(t.0.last() == here.0.last());
            }
        }
    }
}

/// A walk visits what it would visit if it were never stopped, up to the first
/// element at which the rule stops, and that element is the last.
pub proof fn law_walk_ends_at_the_first_stop(
    rule: Rule,
    root: UiElement,
    max_depth: int,
    skip_offscreen: bool,
)
    ensures
        ({
            let t = walk(rule, root, max_depth, skip_offscreen);
            let all = walk(without_stops(rule), root, max_depth, skip_offscreen);
            &&& t.0.is_prefix_of(all.0)
            &&& forall|i: int|
                0 <= i < t.0.len() - 1 ==> !(rule((#[trigger] t.0[i]).0, t.0[i].1) is Stop)
            &&& t.1 == (t.0.len() > 0 && rule(t.0.last().0, t.0.last().1) is Stop)
            &&& !t.1 ==> t.0 == all.0
        }),
{
    lemma_cut_short(rule, seq![root], 0, max_depth, skip_offscreen);
}

/// All elements with a property are found: they are those visits of a walk of
/// the whole tree, in its order, whose element has the property.
pub proof fn law_all_are_found(
    wanted: spec_fn(UiElement) -> bool,
    root: UiElement,
    max_depth: int,
)
    ensures
        all_found(wanted, root, max_depth) == walk(
            |e: UiElement, depth: int| WalkAction::Continue,
            root,
            max_depth,
            false,
        ).0.filter(|p: (UiElement, int)| wanted(p.0)),
{
    let rule: Rule = |e: UiElement, depth: int| WalkAction::Continue;
    assert(go_on() =~= rule);
    lemma_picked(walk(go_on(), root, max_depth, false).0, wanted);
}

proof fn lemma_picked(s: Seq<(UiElement, int)>, wanted: spec_fn(UiElement) -> bool)
    ensures
        picked(s, wanted) == s.filter(|p: (UiElement, int)| wanted(p.0)),
    decreases s.len(),
{
    reveal(Seq::filter);
    if s.len() > 0 {
        lemma_picked(s.drop_last(), wanted);
    } else {
        assert(picked(s, wanted) =~= s.filter(|p: (UiElement, int)| wanted(p.0)));
    }
}

/// The words of a list of elements are the names, in order, of all texts and
/// edit fields that have one.
pub proof fn law_no_word_is_left_out(s: Seq<UiElement>)
    ensures
        words(s) == s.filter(
            |e: UiElement|
                (e.control_type == 50020 || e.control_type == 50004) && e.name@.len() > 0,
        ).map_values(|e: UiElement| e.name@),
    decreases s.len(),
{
    reveal(Seq::filter);
    let p = |e: UiElement|
        (e.control_type == 50020 || e.control_type == 50004) && e.name@.len() > 0;
    let f = |e: UiElement| e.name@;
    if s.len() > 0 {
        let front = s.drop_last();
        law_no_word_is_left_out(front);
        if p(s.last()) {
            assert(s.filter(p).map_values(f) =~= front.filter(p).map_values(f).push(f(s.last())));
        }
    } else {
        assert(words(s) =~= s.filter(p).map_values(f));
    }
}

/// A name is like the needles exactly where its lowercase form holds the
/// lowercase form of one of them somewhere.
pub proof fn law_name_holds_a_needle(e: UiElement, needles: Seq<Seq<char>>)
    ensures
        name_contains(e, needles) <==> exists|j: int, at: int|
            0 <= j < needles.len() && 0 <= at <= lowercase(e.name@).len() - lowercase(
                #[trigger] needles[j],
            ).len() && #[trigger] lowercase(e.name@).skip(at).take(
                lowercase(needles[j]).len() as int,
            ) == lowercase(needles[j]),
{
    let s = lowercase(e.name@);
    assert forall|j: int, at: int|
        0 <= j < needles.len() && 0 <= at <= s.len() - lowercase(needles[j]).len() implies (
    #[trigger] s.skip(at).take(lowercase(#[trigger] needles[j]).len() as int)) == s.subrange(
        at,
        at + lowercase(needles[j]).len(),
    ) by {
        assert(s.skip(at).take(lowercase(needles[j]).len() as int) =~= s.subrange(
            at,
            at + lowercase(needles[j]).len(),
        ));
    }
    let low = all_lowercase(needles);
    if name_contains(e, needles) {
        let j = choose|j: int| 0 <= j < low.len() && contains(s, #[trigger] low[j]);
        let at = choose|at: int| crate::text::matches_at(s, low[j], at);
        assert(low[j] == lowercase(needles[j]));
        assert(s.skip(at).take(lowercase(needles[j]).len() as int) == lowercase(needles[j]));
    }
    if exists|j: int, at: int|
        0 <= j < needles.len() && 0 <= at <= s.len() - lowercase(#[trigger] needles[j]).len()
            && #[trigger] s.skip(at).take(lowercase(needles[j]).len() as int) == lowercase(
            needles[j],
        ) {
        let (j, at) = choose|j: int, at: int|
            0 <= j < needles.len() && 0 <= at <= s.len() - lowercase(#[trigger] needles[j]).len()
                && #[trigger] s.skip(at).take(lowercase(needles[j]).len() as int) == lowercase(
                needles[j],
            );
        assert(crate::text::matches_at(s, low[j], at));
        assert(contains(s, low[j]));
    }
}

} // verus!
