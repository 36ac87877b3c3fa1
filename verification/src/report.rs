//! What a user is shown who asks why something is not detected: lines about
//! windows and about the elements of their accessibility trees.

use vstd::prelude::*;

use crate::text::{
    decimal, hex_digits, option_text, push_decimal, push_hex_digits, push_signed, signed_decimal,
    texts,
};
use crate::uia::{
    document, elements, go_on, law_full_walk_visits_all, picked, visited, walk, walk_descendants,
    EveryElement, UiElement,
};

verus! {

/// A text in quotation marks, as it would be written in a program.
pub uninterp spec fn quoted(s: Seq<char>) -> Seq<char>;

/// `format!` with `{:?}` writes a text in quotation marks and escapes what
/// cannot stand there; what it writes depends on the text alone.
#[verifier::external_body]
fn quote(s: &str) -> (r: String)
    ensures
        r@ == quoted(s@),
{
    format!("{:?}", s)
}

/// A text that may be missing.
pub open spec fn quoted_option(s: Option<Seq<char>>) -> Seq<char> {
    match s {
        Some(t) => "Some("@ + quoted(t) + ")"@,
        None => "None"@,
    }
}

/// Appends a text in quotation marks.
pub fn push_quoted(out: &mut String, s: &str)
    ensures
        final(out)@ == old(out)@ + quoted(s@),
{
    let q = quote(s);
    out.append(q.as_str());
}

/// Appends a text that may be missing.
pub fn push_quoted_option(out: &mut String, s: &Option<String>)
    ensures
        final(out)@ == old(out)@ + quoted_option(option_text(*s)),
{
    let ghost before = out@;
    match s {
        Some(t) => {
            out.append("Some(");
            push_quoted(out, t.as_str());
            out.append(")");
        },
        None => {
            out.append("None");
        },
    }
    assert(out@ =~= before + quoted_option(option_text(*s)));
}

/// A handle as a number that is not negative.
pub open spec fn unsigned(h: isize) -> nat {
    if h < 0 {
        (usize::MAX + 1 + h) as nat
    } else {
        h as nat
    }
}

/// A handle in hexadecimal digits.
pub open spec fn handle_text(h: isize) -> Seq<char> {
    "0x"@ + hex_digits(unsigned(h))
}

/// Appends a handle.
pub fn push_handle(out: &mut String, h: isize)
    ensures
        final(out)@ == old(out)@ + handle_text(h),
{
    let ghost before = out@;
    let n: usize = if h < 0 { usize::MAX - ((-(h + 1)) as usize) } else { h as usize };
    out.append("0x");
    push_hex_digits(out, n as u64);
    assert(out@ =~= before + handle_text(h));
}

/// The blanks before an element that stands so deep.
pub open spec fn indent(depth: int) -> Seq<char> {
    Seq::new((2 * depth) as nat, |i: int| ' ')
}

fn push_indent(out: &mut String, depth: u32)
    ensures
        final(out)@ == old(out)@ + indent(depth as int),
{
    let ghost before = out@;
    let mut i: u32 = 0;
    assert(out@ =~= before + indent(0));
    while i < depth
        invariant
            i <= depth,
            out@ == before + indent(i as int),
        decreases depth - i,
    {
        out.push(' ');
        out.push(' ');
        i += 1;
        assert(out@ =~= before + indent(i as int));
    }
}

// ---------------------------------------------------------------------------
// Elements
// ---------------------------------------------------------------------------

/// What is told of an element.
#[derive(Debug, Clone, Copy, PartialEq, Eq, Structural)]
pub enum LineKind {
    /// Its place in the tree.
    Tree,
    /// That it is named like the button that leaves a call.
    Marker,
    /// That it speaks of a share.
    Share,
    /// Everything that it tells.
    Full,
}

/// The line about an element.
pub open spec fn element_line(kind: LineKind, e: UiElement, depth: int) -> Seq<char> {
    let ct = signed_decimal(e.control_type as int);
    let d = decimal(depth as nat);
    let loc = quoted(e.localized_type@);
    let name = quoted(e.name@);
    let aid = quoted(e.automation_id@);
    let class = quoted(e.class_name@);
    let help = quoted(e.help_text@);
    match kind {
        LineKind::Tree => indent(depth) + "["@ + ct + "] name="@ + name + " class="@ + class
            + " aid="@ + aid + " loc="@ + loc,
        LineKind::Marker => indent(depth) + "HIT depth="@ + d + " ct="@ + ct + " loc="@ + loc
            + " name="@ + name + " aid="@ + aid,
        LineKind::Share => indent(depth) + "HIT depth="@ + d + " ct="@ + ct + " loc="@ + loc
            + " name="@ + name + " aid="@ + aid + " class="@ + class + " help="@ + help,
        LineKind::Full => indent(depth) + "d"@ + d + " ct="@ + ct + " loc="@ + loc + " name="@
            + name + " aid="@ + aid + " class="@ + class + " help="@ + help,
    }
}

/// The line about an element.
pub fn line_about(kind: LineKind, e: &UiElement, depth: u32) -> (r: String)
    ensures
        r@ == element_line(kind, *e, depth as int),
{
    let mut r = String::new();
    push_indent(&mut r, depth);
    if kind == LineKind::Tree {
        r.append("[");
        push_signed(&mut r, e.control_type as i64);
        r.append("] name=");
        push_quoted(&mut r, e.name.as_str());
        r.append(" class=");
        push_quoted(&mut r, e.class_name.as_str());
        r.append(" aid=");
        push_quoted(&mut r, e.automation_id.as_str());
        r.append(" loc=");
        push_quoted(&mut r, e.localized_type.as_str());
    } else {
        if kind == LineKind::Full {
            r.append("d");
        } else {
            r.append("HIT depth=");
        }
        push_decimal(&mut r, depth as u128);
        r.append(" ct=");
        push_signed(&mut r, e.control_type as i64);
        r.append(" loc=");
        push_quoted(&mut r, e.localized_type.as_str());
        r.append(" name=");
        push_quoted(&mut r, e.name.as_str());
        r.append(" aid=");
        push_quoted(&mut r, e.automation_id.as_str());
        if kind != LineKind::Marker {
            r.append(" class=");
            push_quoted(&mut r, e.class_name.as_str());
            r.append(" help=");
            push_quoted(&mut r, e.help_text.as_str());
        }
    }
    assert(r@ =~= element_line(kind, *e, depth as int));
    r
}

/// The lines about visited elements.
pub open spec fn element_lines(kind: LineKind, s: Seq<(UiElement, int)>) -> Seq<Seq<char>> {
    Seq::new(s.len(), |i: int| element_line(kind, s[i].0, s[i].1))
}

/// Appends the lines about visited elements.
pub fn push_element_lines(
    out: &mut Vec<String>,
    kind: LineKind,
    visits: &Vec<(&UiElement, u32)>,
)
    ensures
        texts(final(out)@) == texts(old(out)@) + element_lines(kind, visited(visits@)),
{
    let ghost before = texts(out@);
    let ghost all = element_lines(kind, visited(visits@));
    let mut i: usize = 0;
    assert(before + all.take(0) =~= before);
    while i < visits.len()
        invariant
            i <= visits@.len(),
            all == element_lines(kind, visited(visits@)),
            texts(out@) == before + all.take(i as int),
        decreases visits@.len() - i,
    {
        let (e, depth) = visits[i];
        let ghost sofar = out@;
        let line = line_about(kind, e, depth);
        assert(line@ == all[i as int]);
        out.push(line);
        i += 1;
        assert(texts(out@) =~= texts(sofar).push(line@));
        assert(texts(out@) =~= before + all.take(i as int));
    }
    assert(all.take(i as int) =~= all);
}

/// The lines about all elements of a tree.
pub open spec fn tree_lines(root: UiElement, max_depth: int) -> Seq<Seq<char>> {
    element_lines(LineKind::Tree, walk(go_on(), root, max_depth, false).0)
}

/// Appends the lines about all elements of a tree.
pub fn dump_tree(out: &mut Vec<String>, root: &UiElement, max_depth: u32)
    ensures
        texts(final(out)@) == texts(old(out)@) + tree_lines(*root, max_depth as int),
{
    let w = walk_descendants(root, max_depth, false, &EveryElement);
    push_element_lines(out, LineKind::Tree, &w.visits);
}

/// Appends a line.
pub fn push_line(out: &mut Vec<String>, line: String)
    ensures
        texts(final(out)@) == texts(old(out)@).push(line@),
{
    let ghost before = out@;
    out.push(line);
    assert(texts(out@) =~= texts(before).push(line@));
}

/// Every element of a tree has its line, and its line only: there are as many lines
/// as elements down to the depth asked for, in the order of a walk.
pub proof fn law_every_element_has_its_line(root: UiElement, max_depth: int)
    requires
        0 <= max_depth,
    ensures
        tree_lines(root, max_depth).len() == document(root, 0, max_depth).len(),
        tree_lines(root, max_depth).len() == walk(go_on(), root, max_depth, false).0.len(),
        forall|i: int|
            0 <= i < tree_lines(root, max_depth).len() ==> #[trigger] tree_lines(root, max_depth)[i]
                == element_line(
                LineKind::Tree,
                walk(go_on(), root, max_depth, false).0[i].0,
                walk(go_on(), root, max_depth, false).0[i].1,
            ),
{
    broadcast use vstd::seq_lib::group_to_multiset_ensures;

    law_full_walk_visits_all(root, max_depth);
    let s = walk(go_on(), root, max_depth, false).0;
    assert(elements(s).len() == s.len());
    assert(elements(s).to_multiset().len() == document(root, 0, max_depth).to_multiset().len());
}

/// A handle is written as the number that its bits stand for, without a sign.
pub proof fn law_handle_is_written_without_sign(h: isize)
    ensures
        h >= 0 ==> handle_text(h) == "0x"@ + hex_digits(h as nat),
        h < 0 ==> handle_text(h) == "0x"@ + hex_digits((usize::MAX + 1 + h) as nat),
{
}

/// A line of one list is a line of both lists together.
pub proof fn lemma_line_stays(a: Seq<Seq<char>>, b: Seq<Seq<char>>, line: Seq<char>)
    requires
        a.contains(line) || b.contains(line),
    ensures
        (a + b).contains(line),
{
    if a.contains(line) {
        let i = choose|i: int| 0 <= i < a.len() && a[i] == line;
        assert((a + b)[i] == line);
    } else {
        let i = choose|i: int| 0 <= i < b.len() && b[i] == line;
        assert((a + b)[a.len() + i] == line);
    }
}

/// An element that was found has its line among the lines about what was found.
pub proof fn lemma_hit_has_its_line(
    kind: LineKind,
    s: Seq<(UiElement, int)>,
    wanted: spec_fn(UiElement) -> bool,
    k: int,
)
    requires
        0 <= k < s.len(),
        wanted(s[k].0),
    ensures
        element_lines(kind, picked(s, wanted)).contains(element_line(kind, s[k].0, s[k].1)),
        picked(s, wanted).len() > 0,
    decreases s.len(),
{
    let line = element_line(kind, s[k].0, s[k].1);
    let all = element_lines(kind, picked(s, wanted));
    if k == s.len() - 1 {
        assert(all[all.len() - 1] == line);
    } else {
        let front = s.drop_last();
        lemma_hit_has_its_line(kind, front, wanted, k);
        let before = element_lines(kind, picked(front, wanted));
        let i = choose|i: int| 0 <= i < before.len() && before[i] == line;
        assert(all[i] == line);
    }
}

} // verus!
