//! Live captions: where they stand in the accessibility tree, how a row is
//! read, and which rows have been written already.
//!
//! The last row of the panel is still growing word by word, so it is held back
//! until a row follows it, and written at the end of the session if none does.

use std::collections::hash_map::DefaultHasher;
use std::collections::VecDeque;
use std::hash::{Hash, Hasher};

use vstd::prelude::*;
use vstd::std_specs::hash::DefaultHasherAdditionalSpecFns;

use crate::report::{
    dump_tree, push_line, push_quoted, push_quoted_option, quoted, quoted_option, tree_lines,
};
use crate::text::{
    byte_count, byte_len, chars_of, contains, copy_option_text, cut, decimal, first_bytes, hex,
    hex16, in_ascii, join_texts, joined, law_ascii_takes_one_byte_each, lowercase,
    option_text, padded, push_decimal, push_signed,
    push_two_digits, same_text, signed_decimal, string_of, text_contains, texts, to_lower, trim,
    trimmed,
};
use crate::timeline::event::TimelineEvent;
use crate::uia::{
    all_lowercase, document, document_list, find_descendant_by_name_contains, find_where, found,
    go_on, holds_any, law_search_is_complete, name_contains, named_like, slices, values, walk, ElementTest, UiElement, CUSTOM, GROUP,
    LIST, TEXT,
};

verus! {

// ---------------------------------------------------------------------------
// Captions and their ids
// ---------------------------------------------------------------------------

/// One caption row.
#[derive(Debug)]
pub struct CaptionItem {
    pub speaker: Option<String>,
    pub text: String,
    /// The same for the same speaker and text.
    pub id: String,
}

/// What a caption row says.
pub struct Caption {
    pub speaker: Option<Seq<char>>,
    pub text: Seq<char>,
    pub id: Seq<char>,
}

impl View for CaptionItem {
    type V = Caption;

    open spec fn view(&self) -> Caption {
        Caption { speaker: option_text(self.speaker), text: self.text@, id: self.id@ }
    }
}

/// What a list of caption rows says.
pub open spec fn views(s: Seq<CaptionItem>) -> Seq<Caption> {
    s.map_values(|i: CaptionItem| i@)
}

impl CaptionItem {
    /// A copy of the row.
    pub fn copy(&self) -> (r: Self)
        ensures
            r == *self,
    {
        CaptionItem {
            speaker: copy_option_text(&self.speaker),
            text: self.text.clone(),
            id: self.id.clone(),
        }
    }
}

/// The writes that hashing a text makes to a hasher.
pub uninterp spec fn text_writes(s: Seq<char>) -> Seq<Seq<u8>>;

/// `str::hash` writes the text to the hasher; the writes depend on the text
/// alone.
#[verifier::external_body]
fn hash_text(s: &str, hasher: &mut DefaultHasher)
    ensures
        final(hasher)@ == old(hasher)@ + text_writes(s@),
{
    s.hash(hasher)
}

/// The writes that hashing an optional text makes to a hasher, on a
/// little-endian machine whose words have `word_bits` bits.
pub uninterp spec fn option_text_writes(s: Option<Seq<char>>, word_bits: u32) -> Seq<Seq<u8>>;

/// `Option::hash` writes which of the two cases it is, as a word, and then the
/// text; the writes depend on the value and on how the machine lays out a word.
#[verifier::external_body]
fn hash_option_text(s: &Option<String>, hasher: &mut DefaultHasher)
    ensures
        final(hasher)@ == old(hasher)@ + option_text_writes(option_text(*s), usize::BITS),
{
    s.hash(hasher)
}

/// The id of a caption: the sixteen hexadecimal digits of its hash.
pub open spec fn caption_id(speaker: Option<Seq<char>>, text: Seq<char>) -> Seq<char> {
    hex(
        DefaultHasher::spec_finish(
            option_text_writes(speaker, usize::BITS) + text_writes(text),
        ) as nat,
        16,
    )
}

/// The id of a caption.
pub fn stable_id(speaker: &Option<String>, text: &str) -> (r: String)
    ensures
        r@ == caption_id(option_text(*speaker), text@),
        r@ == hex(
            DefaultHasher::spec_finish(
                option_text_writes(option_text(*speaker), usize::BITS) + text_writes(text@),
            ) as nat,
            16,
        ),
{
    let mut hasher = DefaultHasher::new();
    hash_option_text(speaker, &mut hasher);
    hash_text(text, &mut hasher);
    assert(hasher@ =~= option_text_writes(option_text(*speaker), usize::BITS) + text_writes(text@));
    hex16(hasher.finish())
}

// ---------------------------------------------------------------------------
// Reading the rows
// ---------------------------------------------------------------------------

/// A class in lower case is that of a caption row.
pub open spec fn row_class(lower: Seq<char>) -> bool {
    contains(lower, "chatmessagecompact__body"@)
}

/// A caption row is known by its class.
pub open spec fn is_row(e: UiElement) -> bool {
    row_class(lowercase(e.class_name@))
}

/// Is a class in lower case that of a caption row?
pub fn is_row_class(lower: &str) -> (r: bool)
    ensures
        r == row_class(lower@),
{
    text_contains(lower, "chatmessagecompact__body")
}

fn row_here(e: &UiElement) -> (r: bool)
    ensures
        r == is_row(*e),
{
    let class = to_lower(e.class_name.as_str());
    is_row_class(class.as_str())
}

/// How deep below the caption container a row may stand.
pub const ROW_DEPTH: u32 = 6;

/// How deep below a row its texts may stand.
pub const LEAF_DEPTH: u32 = 4;

/// The rows of a tree in document order; a row has no rows below it.
pub open spec fn rows_in(e: UiElement, depth: int, max_depth: int) -> Seq<UiElement>
    decreases e,
{
    if is_row(e) {
        seq![e]
    } else if depth >= max_depth {
        Seq::empty()
    } else {
        rows_in_list(e.children@, depth + 1, max_depth)
    }
}

/// The rows of a list of trees in document order.
pub open spec fn rows_in_list(s: Seq<UiElement>, depth: int, max_depth: int) -> Seq<UiElement>
    decreases s,
{
    if s.len() == 0 {
        Seq::empty()
    } else {
        rows_in_list(s.drop_last(), depth, max_depth) + rows_in(s.last(), depth, max_depth)
    }
}

/// The caption rows below a container, the oldest first.
pub open spec fn rows(container: UiElement) -> Seq<UiElement> {
    rows_in(container, 0, ROW_DEPTH as int)
}

/// The trimmed names of the texts among elements; texts without a name are left
/// out.
pub open spec fn leaf_names(s: Seq<UiElement>) -> Seq<Seq<char>>
    decreases s.len(),
{
    if s.len() == 0 {
        Seq::empty()
    } else if s.last().control_type == TEXT && trim(s.last().name@).len() > 0 {
        leaf_names(s.drop_last()).push(trim(s.last().name@))
    } else {
        leaf_names(s.drop_last())
    }
}

/// The texts of a row, in document order.
pub open spec fn leaves(row: UiElement) -> Seq<Seq<char>> {
    leaf_names(document(row, 0, LEAF_DEPTH as int))
}

/// The position of the first colon of a text, or its length.
pub open spec fn first_colon(s: Seq<char>) -> int
    decreases s.len(),
{
    if s.len() == 0 || s.first() == ':' {
        0
    } else {
        1 + first_colon(s.drop_first())
    }
}

/// A text has the form `Speaker: text`: it has a colon, and neither side of the
/// first one is blank.
pub open spec fn names_speaker(s: Seq<char>) -> bool {
    &&& first_colon(s) < s.len()
    &&& trim(s.take(first_colon(s))).len() > 0
    &&& trim(s.skip(first_colon(s) + 1)).len() > 0
}

/// The speaker and the words of a text, which are split at the first colon. A
/// text of another form is all words.
pub open spec fn split_text(s: Seq<char>) -> (Option<Seq<char>>, Seq<char>) {
    if names_speaker(s) {
        (Some(trim(s.take(first_colon(s)))), trim(s.skip(first_colon(s) + 1)))
    } else {
        (None, s)
    }
}

/// What a row says. Of several texts the first is the speaker and the others are
/// what was spoken; a single text is split.
pub open spec fn caption_of(row: UiElement) -> Option<Caption> {
    let l = leaves(row);
    if l.len() == 0 {
        None
    } else {
        let (speaker, text) = if l.len() == 1 {
            split_text(l[0])
        } else {
            (Some(l[0]), joined(l.skip(1), " "@))
        };
        if text.len() == 0 {
            None
        } else {
            Some(Caption { speaker, text, id: caption_id(speaker, text) })
        }
    }
}

/// What a list of rows says, row by row; a row that says nothing is left out.
pub open spec fn captions_of(s: Seq<UiElement>) -> Seq<Caption>
    decreases s.len(),
{
    if s.len() == 0 {
        Seq::empty()
    } else {
        match caption_of(s.last()) {
            Some(c) => captions_of(s.drop_last()).push(c),
            None => captions_of(s.drop_last()),
        }
    }
}

fn push_rows<'a>(e: &'a UiElement, depth: u32, max_depth: u32, out: &mut Vec<&'a UiElement>)
    ensures
        values(final(out)@) == values(old(out)@) + rows_in(*e, depth as int, max_depth as int),
    decreases *e,
{
    let ghost before = values(out@);
    if row_here(e) {
        out.push(e);
        assert(values(out@) =~= before + seq![*e]);
        return;
    }
    assert(before + Seq::empty() =~= before);
    if depth >= max_depth {
        return;
    }
    let ghost kids = e.children@;
    let mut i: usize = 0;
    assert(kids.take(0) =~= Seq::empty());
    while i < e.children.len()
        invariant
            i <= e.children@.len(),
            kids == e.children@,
            depth < max_depth,
            values(out@) == before + rows_in_list(
                kids.take(i as int),
                depth + 1,
                max_depth as int,
            ),
        decreases e.children@.len() - i,
    {
        let ghost upto = kids.take(i + 1);
        assert(upto.drop_last() =~= kids.take(i as int));
        assert(decreases_to!(*e => kids[i as int]));
        push_rows(&e.children[i], depth + 1, max_depth, out);
        i += 1;
        assert(values(out@) =~= before + rows_in_list(upto, depth + 1, max_depth as int));
    }
    assert(kids.take(i as int) =~= kids);
}

fn row_elements<'a>(container: &'a UiElement) -> (r: Vec<&'a UiElement>)
    ensures
        values(r@) == rows(*container),
{
    let mut out: Vec<&'a UiElement> = Vec::new();
    assert(values(out@) =~= Seq::empty());
    push_rows(container, 0, ROW_DEPTH, &mut out);
    assert(values(out@) =~= rows(*container));
    out
}

proof fn lemma_leaf_names_concat(a: Seq<UiElement>, b: Seq<UiElement>)
    ensures
        leaf_names(a + b) == leaf_names(a) + leaf_names(b),
    decreases b.len(),
{
    if b.len() == 0 {
        assert(a + b =~= a);
        assert(leaf_names(a) + Seq::empty() =~= leaf_names(a));
    } else {
        assert((a + b).drop_last() =~= a + b.drop_last());
        lemma_leaf_names_concat(a, b.drop_last());
        assert(leaf_names(a + b) =~= leaf_names(a) + leaf_names(b));
    }
}

fn push_leaves(e: &UiElement, depth: u32, max_depth: u32, out: &mut Vec<String>)
    ensures
        texts(final(out)@) == texts(old(out)@) + leaf_names(
            document(*e, depth as int, max_depth as int),
        ),
    decreases *e,
{
    let ghost before = texts(out@);
    let ghost here: Seq<UiElement> = seq![*e];
    assert(here.drop_last() =~= Seq::empty());
    proof {
        reveal_with_fuel(leaf_names, 2);
    }
    assert(before + Seq::empty() =~= before);
    if e.control_type == TEXT {
        let name = trimmed(e.name.as_str());
        if !name.as_str().is_empty() {
            out.push(name);
            assert(texts(out@) =~= before.push(name@));
        }
    }
    assert(texts(out@) =~= before + leaf_names(here));
    if depth >= max_depth {
        assert(document(*e, depth as int, max_depth as int) =~= here);
        return;
    }
    let ghost kids = e.children@;
    let mut i: usize = 0;
    assert(kids.take(0) =~= Seq::empty());
    assert(before + leaf_names(here) + leaf_names(Seq::empty()) =~= before + leaf_names(here));
    while i < e.children.len()
        invariant
            i <= e.children@.len(),
            kids == e.children@,
            depth < max_depth,
            texts(out@) == before + leaf_names(here) + leaf_names(
                document_list(kids.take(i as int), depth + 1, max_depth as int),
            ),
        decreases e.children@.len() - i,
    {
        let ghost upto = kids.take(i + 1);
        assert(upto.drop_last() =~= kids.take(i as int));
        assert(decreases_to!(*e => kids[i as int]));
        push_leaves(&e.children[i], depth + 1, max_depth, out);
        proof {
            lemma_leaf_names_concat(
                document_list(kids.take(i as int), depth + 1, max_depth as int),
                document(kids[i as int], depth + 1, max_depth as int),
            );
        }
        i += 1;
        assert(texts(out@) =~= before + leaf_names(here) + leaf_names(
            document_list(upto, depth + 1, max_depth as int),
        ));
    }
    assert(kids.take(i as int) =~= kids);
    proof {
        lemma_leaf_names_concat(here, document_list(kids, depth + 1, max_depth as int));
    }
    assert(texts(out@) =~= before + leaf_names(document(*e, depth as int, max_depth as int)));
}

fn row_leaves(row: &UiElement) -> (r: Vec<String>)
    ensures
        texts(r@) == leaves(*row),
{
    let mut out: Vec<String> = Vec::new();
    assert(texts(out@) =~= Seq::empty());
    push_leaves(row, 0, LEAF_DEPTH, &mut out);
    assert(texts(out@) =~= leaves(*row));
    out
}

proof fn lemma_first_colon(s: Seq<char>, k: int)
    requires
        0 <= k <= s.len(),
        k < s.len() ==> s[k] == ':',
        forall|i: int| 0 <= i < k ==> s[i] != ':',
    ensures
        first_colon(s) == k,
    decreases s.len(),
{
    if s.len() > 0 && k > 0 {
        lemma_first_colon(s.drop_first(), k - 1);
    }
}

/// The speaker and the words of a text.
pub fn split_speaker_text(s: &str) -> (r: (Option<String>, String))
    ensures
        (option_text(r.0), r.1@) == split_text(s@),
{
    let chars = chars_of(s);
    let mut k: usize = 0;
    while k < chars.len() && chars[k] != ':'
        invariant
            k <= chars@.len(),
            chars@ == s@,
            forall|i: int| 0 <= i < k ==> chars@[i] != ':',
        decreases chars@.len() - k,
    {
        k += 1;
    }
    proof {
        lemma_first_colon(s@, k as int);
    }
    if k < chars.len() {
        let before = string_of(&chars, 0, k);
        let after = string_of(&chars, k + 1, chars.len());
        assert(before@ =~= s@.take(k as int));
        assert(after@ =~= s@.skip(k + 1));
        let speaker = trimmed(before.as_str());
        let text = trimmed(after.as_str());
        if !speaker.as_str().is_empty() && !text.as_str().is_empty() {
            return (Some(speaker), text);
        }
    }
    (None, s.to_owned())
}

fn read_row(row: &UiElement) -> (r: Option<CaptionItem>)
    ensures
        match r {
            Some(item) => caption_of(*row) == Some(item@),
            None => caption_of(*row) is None,
        },
{
    let l = row_leaves(row);
    assert(texts(l@).len() == l@.len());
    if l.len() == 0 {
        return None;
    }
    let (speaker, text) = if l.len() == 1 {
        split_speaker_text(l[0].as_str())
    } else {
        (Some(l[0].clone()), join_texts(&l, 1, " "))
    };
    if text.as_str().is_empty() {
        return None;
    }
    let id = stable_id(&speaker, text.as_str());
    Some(CaptionItem { speaker, text, id })
}

/// The captions that the panel shows, the oldest first.
pub fn scan_captions(container: &UiElement) -> (r: Vec<CaptionItem>)
    ensures
        views(r@) == captions_of(rows(*container)),
        r@.len() == captions_of(rows(*container)).len(),
        forall|i: int|
            0 <= i < r@.len() ==> {
                &&& option_text((#[trigger] r@[i]).speaker) == captions_of(
                    rows(*container),
                )[i].speaker
                &&& r@[i].text@ == captions_of(rows(*container))[i].text
                &&& r@[i].id@ == captions_of(rows(*container))[i].id
            },
{
    let found_rows = row_elements(container);
    let ghost all = rows(*container);
    let mut out: Vec<CaptionItem> = Vec::new();
    let mut i: usize = 0;
    assert(all.take(0) =~= Seq::empty());
    assert(views(out@) =~= captions_of(all.take(0)));
    while i < found_rows.len()
        invariant
            i <= found_rows@.len(),
            all == rows(*container),
            values(found_rows@) == all,
            views(out@) == captions_of(all.take(i as int)),
        decreases found_rows@.len() - i,
    {
        assert(all.take(i + 1).drop_last() =~= all.take(i as int));
        assert(all.take(i + 1).last() == values(found_rows@)[i as int]);
        let ghost before = out@;
        match read_row(found_rows[i]) {
            Some(item) => {
                out.push(item);
                assert(views(out@) =~= views(before).push(item@));
            },
            None => {},
        }
        i += 1;
    }
    assert(all.take(i as int) =~= all);
    assert(views(out@).len() == out@.len());
    assert forall|k: int| 0 <= k < out@.len() implies (#[trigger] out@[k])@ == captions_of(all)[k] by {
        assert(views(out@)[k] == out@[k]@);
    }
    out
}

// ---------------------------------------------------------------------------
// What holds of every scan
// ---------------------------------------------------------------------------

/// Every row that says something gives exactly one caption, in the order of the
/// rows: there are as many captions as such rows, and each is what its own row
/// says, whoever spoke before.
pub proof fn law_every_row_gives_one_caption(s: Seq<UiElement>)
    ensures
        captions_of(s).len() == s.filter(|r: UiElement| caption_of(r) is Some).len(),
        forall|i: int|
            0 <= i < captions_of(s).len() ==> Some(#[trigger] captions_of(s)[i]) == caption_of(
                s.filter(|r: UiElement| caption_of(r) is Some)[i],
            ),
    decreases s.len(),
{
    reveal(Seq::filter);
    let says = |r: UiElement| caption_of(r) is Some;
    if s.len() > 0 {
        let front = s.drop_last();
        law_every_row_gives_one_caption(front);
        assert forall|i: int| 0 <= i < captions_of(s).len() implies Some(
            #[trigger] captions_of(s)[i],
        ) == caption_of(s.filter(says)[i]) by {
            if i < captions_of(front).len() {
                assert(captions_of(s)[i] == captions_of(front)[i]);
                assert(s.filter(says)[i] == front.filter(says)[i]);
            }
        }
    }
}

proof fn lemma_rows_of_list(s: Seq<UiElement>, depth: int, max_depth: int)
    ensures
        rows_in_list(s, depth, max_depth) == s.map_values(
            |c: UiElement| rows_in(c, depth, max_depth),
        ).flatten(),
    decreases s.len(),
{
    let f = |c: UiElement| rows_in(c, depth, max_depth);
    if s.len() > 0 {
        lemma_rows_of_list(s.drop_last(), depth, max_depth);
        assert(s.map_values(f) =~= s.drop_last().map_values(f).push(f(s.last())));
        s.drop_last().map_values(f).lemma_flatten_push(f(s.last()));
    } else {
        assert(s.map_values(f) =~= Seq::empty());
    }
}

/// Rows are looked for six levels down. An element with the class of a row is a
/// row, and nothing below it is; of another element the rows are those of its
/// children, one child after the other.
pub proof fn law_rows_are_looked_for_everywhere(container: UiElement, e: UiElement, depth: int)
    ensures
        rows(container) == rows_in(container, 0, 6),
        contains(lowercase(e.class_name@), "chatmessagecompact__body"@) ==> rows_in(e, depth, 6)
            == seq![e],
        !contains(lowercase(e.class_name@), "chatmessagecompact__body"@) && depth >= 6 ==> rows_in(
            e,
            depth,
            6,
        ).len() == 0,
        !contains(lowercase(e.class_name@), "chatmessagecompact__body"@) && depth < 6 ==> rows_in(
            e,
            depth,
            6,
        ) == e.children@.map_values(|c: UiElement| rows_in(c, depth + 1, 6)).flatten(),
{
    lemma_rows_of_list(e.children@, depth + 1, 6);
}

/// The class of the element is that of a row.
spec fn of_row_class() -> spec_fn(UiElement) -> bool {
    |e: UiElement| contains(lowercase(e.class_name@), "chatmessagecompact__body"@)
}

/// No row stands below `e`, if `e` is a row.
pub open spec fn holds_no_rows(e: UiElement) -> bool {
    contains(lowercase(e.class_name@), "chatmessagecompact__body"@) ==> forall|i: int|
        1 <= i < document(e, 0, 6).len() ==> !contains(
            lowercase((#[trigger] document(e, 0, 6)[i]).class_name@),
            "chatmessagecompact__body"@,
        )
}

proof fn lemma_shallow_list(s: Seq<UiElement>, depth: int, max_depth: int, start: int, deep: int)
    requires
        max_depth - depth <= deep - start,
    ensures
        forall|x: UiElement|
            document_list(s, depth, max_depth).contains(x) ==> #[trigger] document_list(
                s,
                start,
                deep,
            ).contains(x),
    decreases s, 0int,
{
    if s.len() > 0 {
        let a = document_list(s.drop_last(), depth, max_depth);
        let b = document(s.last(), depth, max_depth);
        let c = document_list(s.drop_last(), start, deep);
        let d = document(s.last(), start, deep);
        lemma_shallow_list(s.drop_last(), depth, max_depth, start, deep);
        lemma_shallow_element(s.last(), depth, max_depth, start, deep);
        assert forall|x: UiElement| (a + b).contains(x) implies #[trigger] (c + d).contains(x) by {
            let k = choose|k: int| 0 <= k < (a + b).len() && (a + b)[k] == x;
            if k < a.len() {
                assert(a[k] == x);
                assert(c.contains(x));
                let j = choose|j: int| 0 <= j < c.len() && c[j] == x;
                assert((c + d)[j] == x);
            } else {
                assert(b[k - a.len()] == x);
                assert(b.contains(x));
                assert(d.contains(x));
                let j = choose|j: int| 0 <= j < d.len() && d[j] == x;
                assert((c + d)[c.len() + j] == x);
            }
        }
    }
}

proof fn lemma_shallow_element(e: UiElement, depth: int, max_depth: int, start: int, deep: int)
    requires
        max_depth - depth <= deep - start,
    ensures
        forall|x: UiElement|
            document(e, depth, max_depth).contains(x) ==> #[trigger] document(
                e,
                start,
                deep,
            ).contains(x),
    decreases e, 1int,
{
    if depth < max_depth {
        lemma_shallow_list(e.children@, depth + 1, max_depth, start + 1, deep);
    }
    assert forall|x: UiElement|
        document(e, depth, max_depth).contains(x) implies #[trigger] document(
        e,
        start,
        deep,
    ).contains(x) by {
        let d = document(e, depth, max_depth);
        let k = choose|k: int| 0 <= k < d.len() && d[k] == x;
        if k == 0 {
            assert(document(e, start, deep)[0] == x);
        } else {
            let l = document_list(e.children@, depth + 1, max_depth);
            assert(l[k - 1] == x);
            assert(l.contains(x));
            let m = document_list(e.children@, start + 1, deep);
            assert(m.contains(x));
            let j = choose|j: int| 0 <= j < m.len() && m[j] == x;
            assert(document(e, start, deep)[j + 1] == x);
        }
    }
}

proof fn lemma_flat_rows(e: UiElement, depth: int)
    requires
        0 <= depth <= 6,
        forall|x: UiElement| #[trigger] document(e, depth, 6).contains(x) ==> holds_no_rows(x),
    ensures
        rows_in(e, depth, 6) == document(e, depth, 6).filter(of_row_class()),
    decreases e, 1int,
{
    let p = of_row_class();
    let d = document(e, depth, 6);
    let below = if depth >= 6 {
        Seq::empty()
    } else {
        document_list(e.children@, depth + 1, 6)
    };
    reveal(Seq::filter);
    assert(d == seq![e] + below);
    assert(d[0] == e);
    assert(d.contains(e));
    Seq::filter_distributes_over_add(seq![e], below, p);
    assert(seq![e].drop_last() =~= Seq::empty());
    reveal_with_fuel(Seq::filter, 2);
    if p(e) {
        assert forall|i: int| 0 <= i < below.len() implies !p(#[trigger] below[i]) by {
            lemma_shallow_element(e, depth, 6, 0, 6);
            lemma_shallow_list(e.children@, depth + 1, 6, 1, 6);
            let m = document_list(e.children@, 1, 6);
            assert(below.contains(below[i]));
            assert(m.contains(below[i]));
            let j = choose|j: int| 0 <= j < m.len() && m[j] == below[i];
            assert(document(e, 0, 6)[j + 1] == below[i]);
        }
        below.lemma_all_neg_filter_empty(p);
        assert(d.filter(p) =~= seq![e]);
    } else {
        if depth < 6 {
            assert forall|x: UiElement| #[trigger] below.contains(x) implies holds_no_rows(x) by {
                let k = choose|k: int| 0 <= k < below.len() && below[k] == x;
                assert(d[k + 1] == x);
                assert(d.contains(x));
            }
            lemma_flat_rows_list(e.children@, depth + 1);
        }
        assert(d.filter(p) =~= below.filter(p));
        assert(rows_in(e, depth, 6) =~= below.filter(p));
    }
}

proof fn lemma_flat_rows_list(s: Seq<UiElement>, depth: int)
    requires
        0 <= depth <= 6,
        forall|x: UiElement| #[trigger] document_list(s, depth, 6).contains(x) ==> holds_no_rows(x),
    ensures
        rows_in_list(s, depth, 6) == document_list(s, depth, 6).filter(of_row_class()),
    decreases s, 0int,
{
    reveal(Seq::filter);
    if s.len() > 0 {
        let a = document_list(s.drop_last(), depth, 6);
        let b = document(s.last(), depth, 6);
        assert forall|x: UiElement| #[trigger] a.contains(x) implies holds_no_rows(x) by {
            let k = choose|k: int| 0 <= k < a.len() && a[k] == x;
            assert((a + b)[k] == x);
            assert(document_list(s, depth, 6).contains(x));
        }
        assert forall|x: UiElement| #[trigger] b.contains(x) implies holds_no_rows(x) by {
            let k = choose|k: int| 0 <= k < b.len() && b[k] == x;
            assert((a + b)[a.len() + k] == x);
            assert(document_list(s, depth, 6).contains(x));
        }
        lemma_flat_rows_list(s.drop_last(), depth);
        lemma_flat_rows(s.last(), depth);
        Seq::filter_distributes_over_add(a, b, of_row_class());
    } else {
        assert(rows_in_list(s, depth, 6) =~= document_list(s, depth, 6).filter(of_row_class()));
    }
}

/// Where no row stands below another, the rows of a container are all elements
/// down to six levels below it that have the class of a row, in document order.
pub proof fn law_no_row_is_passed_over(container: UiElement)
    requires
        forall|x: UiElement| #[trigger] document(container, 0, 6).contains(x) ==> holds_no_rows(x),
    ensures
        rows(container) == document(container, 0, 6).filter(
            |e: UiElement| contains(lowercase(e.class_name@), "chatmessagecompact__body"@),
        ),
{
    lemma_flat_rows(container, 0);
    let p = |e: UiElement| contains(lowercase(e.class_name@), "chatmessagecompact__body"@);
    assert(of_row_class() =~= p);
}

/// The texts of a row are the trimmed names, in document order, of all texts down
/// to four levels below it whose name is not blank.
pub proof fn law_every_text_of_a_row_is_read(row: UiElement)
    ensures
        leaves(row) == document(row, 0, 4).filter(
            |e: UiElement| e.control_type == 50020 && trim(e.name@).len() > 0,
        ).map_values(|e: UiElement| trim(e.name@)),
{
    lemma_leaf_names(document(row, 0, 4));
}

proof fn lemma_leaf_names(s: Seq<UiElement>)
    ensures
        leaf_names(s) == s.filter(
            |e: UiElement| e.control_type == 50020 && trim(e.name@).len() > 0,
        ).map_values(|e: UiElement| trim(e.name@)),
        forall|i: int| 0 <= i < leaf_names(s).len() ==> (#[trigger] leaf_names(s)[i]).len() > 0,
    decreases s.len(),
{
    reveal(Seq::filter);
    let p = |e: UiElement| e.control_type == 50020 && trim(e.name@).len() > 0;
    let f = |e: UiElement| trim(e.name@);
    if s.len() > 0 {
        let front = s.drop_last();
        lemma_leaf_names(front);
        if p(s.last()) {
            assert(s.filter(p).map_values(f) =~= front.filter(p).map_values(f).push(f(s.last())));
        }
        assert forall|i: int| 0 <= i < leaf_names(s).len() implies (#[trigger] leaf_names(
            s,
        )[i]).len() > 0 by {
            if i < leaf_names(front).len() {
                assert(leaf_names(s)[i] == leaf_names(front)[i]);
            }
        }
    } else {
        assert(leaf_names(s) =~= s.filter(p).map_values(f));
    }
}

/// A text is split at its first colon: what stands before it is the speaker and
/// what stands behind it are the words, both trimmed. Where one of the two is
/// blank, or where there is no colon, all of it are words and no speaker is told.
pub proof fn law_speaker_stands_before_the_colon(a: Seq<char>, b: Seq<char>)
    requires
        forall|i: int| 0 <= i < a.len() ==> a[i] != ':',
    ensures
        split_text(a) == (None::<Seq<char>>, a),
        trim(a).len() > 0 && trim(b).len() > 0 ==> split_text(a + seq![':'] + b) == (
            Some(trim(a)),
            trim(b),
        ),
        trim(a).len() == 0 || trim(b).len() == 0 ==> split_text(a + seq![':'] + b) == (
            None::<Seq<char>>,
            a + seq![':'] + b,
        ),
{
    let s = a + seq![':'] + b;
    lemma_first_colon(a, a.len() as int);
    lemma_first_colon(s, a.len() as int);
    assert(s.take(a.len() as int) =~= a);
    assert(s.skip(a.len() as int + 1) =~= b);
}

/// A row says something exactly where it has a text. Of several texts the first
/// is the speaker, and the others follow each other with a blank between them; a
/// single text is split. The id is that of the speaker and the words.
pub proof fn law_row_says_its_texts(row: UiElement)
    ensures
        caption_of(row) is Some <==> leaves(row).len() > 0,
        leaves(row).len() > 1 ==> {
            &&& caption_of(row)->0.speaker == Some(leaves(row)[0])
            &&& caption_of(row)->0.text == leaves(row)[1] + leaves(row).skip(2).map_values(
                |w: Seq<char>| seq![' '] + w,
            ).flatten()
        },
        leaves(row).len() == 1 ==> (caption_of(row)->0.speaker, caption_of(row)->0.text)
            == split_text(leaves(row)[0]),
        caption_of(row) is Some ==> caption_of(row)->0.id == caption_id(
            caption_of(row)->0.speaker,
            caption_of(row)->0.text,
        ),
{
    let l = leaves(row);
    lemma_leaf_names(document(row, 0, LEAF_DEPTH as int));
    if l.len() == 1 {
        assert(l[0].len() > 0);
    } else if l.len() > 1 {
        reveal_strlit(" ");
        assert(" "@ =~= seq![' ']);
        let rest = l.skip(1);
        crate::text::law_joined_parts_follow_each_other(rest, " "@);
        assert(rest[0] == l[1]);
        assert(rest.drop_first() =~= l.skip(2));
        let f = |w: Seq<char>| seq![' '] + w;
        let g = |w: Seq<char>| " "@ + w;
        assert(f =~= g);
        assert(l[1].len() > 0);
    }
}

/// What is said of a caption is what it holds.
pub proof fn law_caption_is_what_it_holds(item: CaptionItem)
    ensures
        item@.text == item.text@,
        item@.id == item.id@,
        item@.speaker is Some == item.speaker is Some,
        item.speaker is Some ==> item@.speaker->0 == item.speaker->0@,
{
}

// ---------------------------------------------------------------------------
// Finding the panel
// ---------------------------------------------------------------------------

/// Names that the caption panel goes by.
pub open spec fn panel_names() -> Seq<Seq<char>> {
    seq!["captions"@, "live captions"@, "subtitles"@, "캡션"@, "라이브 캡션"@, "자막"@]
}

/// A lowercase text holds one of the hints that name a caption panel.
pub open spec fn has_hint(s: Seq<char>) -> bool {
    ||| contains(s, "captions"@)
    ||| contains(s, "live-captions"@)
}

/// An element of this kind, with this id and this class in lower case, is
/// list-like and hints at captions.
pub open spec fn panel_kind(control_type: i32, id: Seq<char>, class: Seq<char>) -> bool {
    &&& has_hint(id) || has_hint(class)
    &&& control_type == LIST || control_type == CUSTOM || control_type == GROUP
}

/// A list-like element whose id or class hints at captions.
pub open spec fn hinted_panel(e: UiElement) -> bool {
    panel_kind(e.control_type, lowercase(e.automation_id@), lowercase(e.class_name@))
}

/// How deep in a window the caption panel may stand.
pub const PANEL_DEPTH: u32 = 18;

/// The property of being hinted at as a caption panel.
pub open spec fn hinted() -> spec_fn(UiElement) -> bool {
    |e: UiElement| hinted_panel(e)
}

/// The caption panel of a window: by its name, or else by its hints.
pub open spec fn panel_in(root: UiElement) -> Option<UiElement> {
    match found(named_like(panel_names()), root, PANEL_DEPTH as int) {
        Some(e) => Some(e),
        None => found(hinted(), root, PANEL_DEPTH as int),
    }
}

/// The caption panel of the first window that has one.
pub open spec fn first_panel(roots: Seq<UiElement>) -> Option<UiElement>
    decreases roots.len(),
{
    if roots.len() == 0 {
        None
    } else {
        match panel_in(roots.first()) {
            Some(e) => Some(e),
            None => first_panel(roots.drop_first()),
        }
    }
}

fn hint_in(s: &str) -> (r: bool)
    ensures
        r == has_hint(s@),
{
    text_contains(s, "captions") || text_contains(s, "live-captions")
}

/// Is an element of this kind, with this id and this class in lower case,
/// list-like, and does it hint at captions?
pub fn is_panel_kind(control_type: i32, id: &str, class: &str) -> (r: bool)
    ensures
        r == panel_kind(control_type, id@, class@),
{
    (hint_in(id) || hint_in(class)) && (control_type == LIST || control_type == CUSTOM
        || control_type == GROUP)
}

struct HintTest;

impl ElementTest for HintTest {
    closed spec fn wanted(&self) -> spec_fn(UiElement) -> bool {
        hinted()
    }

    fn test(&self, e: &UiElement) -> (r: bool) {
        let id = to_lower(e.automation_id.as_str());
        let class = to_lower(e.class_name.as_str());
        is_panel_kind(e.control_type, id.as_str(), class.as_str())
    }
}

fn locate_in<'a>(root: &'a UiElement) -> (r: Option<&'a UiElement>)
    ensures
        match r {
            Some(e) => panel_in(*root) == Some(*e),
            None => panel_in(*root) is None,
        },
{
    let names: [&str; 6] = [
        "captions",
        "live captions",
        "subtitles",
        "캡션",
        "라이브 캡션",
        "자막",
    ];
    assert(slices(names@) =~= panel_names());
    let by_name = find_descendant_by_name_contains(root, &names, PANEL_DEPTH);
    match by_name {
        Some(e) => Some(e),
        None => find_where(root, PANEL_DEPTH, &HintTest),
    }
}

/// The caption panel, looked for in one window after the other. The panel
/// moves between windows, so all of them are searched.
pub fn locate_caption_container<'a>(roots: &'a Vec<UiElement>) -> (r: Option<&'a UiElement>)
    ensures
        match r {
            Some(e) => first_panel(roots@) == Some(*e),
            None => first_panel(roots@) is None,
        },
{
    let mut i: usize = 0;
    assert(roots@.skip(0) =~= roots@);
    while i < roots.len()
        invariant
            i <= roots@.len(),
            first_panel(roots@.skip(i as int)) == first_panel(roots@),
        decreases roots@.len() - i,
    {
        assert(roots@.skip(i as int).drop_first() =~= roots@.skip(i + 1));
        match locate_in(&roots[i]) {
            Some(e) => {
                return Some(e);
            },
            None => {},
        }
        i += 1;
    }
    None
}

/// The panel is looked for eighteen levels down. It is the first element, as a
/// walk comes to them, that has one of its names, whatever the case; where none
/// has, it is the first list-like one whose id or class hints at captions; and
/// there is none only where no element is of either kind.
pub proof fn law_panel_is_not_missed(root: UiElement)
    ensures
        ({
            let names = seq![
                "captions"@,
                "live captions"@,
                "subtitles"@,
                "캡션"@,
                "라이브 캡션"@,
                "자막"@,
            ];
            let named = |e: UiElement|
                exists|j: int|
                    0 <= j < names.len() && contains(
                        lowercase(e.name@),
                        lowercase(#[trigger] names[j]),
                    );
            let hints = |e: UiElement|
                (e.control_type == 50008 || e.control_type == 50025 || e.control_type == 50026) && (
                contains(lowercase(e.automation_id@), "captions"@) || contains(
                    lowercase(e.automation_id@),
                    "live-captions"@,
                ) || contains(lowercase(e.class_name@), "captions"@) || contains(
                    lowercase(e.class_name@),
                    "live-captions"@,
                ));
            let all = walk(go_on(), root, 18, false).0;
            match panel_in(root) {
                None => forall|i: int|
                    0 <= i < document(root, 0, 18).len() ==> !named(
                        #[trigger] document(root, 0, 18)[i],
                    ) && !hints(document(root, 0, 18)[i]),
                Some(e) => {
                    &&& document(root, 0, 18).contains(e)
                    &&& {
                        ||| named(e) && exists|k: int|
                            0 <= k < all.len() && (#[trigger] all[k]).0 == e && forall|i: int|
                                0 <= i < k ==> !named((#[trigger] all[i]).0)
                        ||| hints(e) && exists|k: int|
                            0 <= k < all.len() && (#[trigger] all[k]).0 == e && forall|i: int|
                                0 <= i < k ==> !hints((#[trigger] all[i]).0)
                    }
                    &&& (exists|i: int|
                        0 <= i < document(root, 0, 18).len() && named(
                            #[trigger] document(root, 0, 18)[i],
                        )) ==> named(e) && exists|k: int|
                        0 <= k < all.len() && (#[trigger] all[k]).0 == e && forall|i: int|
                            0 <= i < k ==> !named((#[trigger] all[i]).0)
                },
            }
        }),
{
    let names = seq![
        "captions"@,
        "live captions"@,
        "subtitles"@,
        "캡션"@,
        "라이브 캡션"@,
        "자막"@,
    ];
    let named = |e: UiElement|
        exists|j: int|
            0 <= j < names.len() && contains(lowercase(e.name@), lowercase(#[trigger] names[j]));
    let hints = |e: UiElement|
        (e.control_type == 50008 || e.control_type == 50025 || e.control_type == 50026) && (contains(
            lowercase(e.automation_id@),
            "captions"@,
        ) || contains(lowercase(e.automation_id@), "live-captions"@) || contains(
            lowercase(e.class_name@),
            "captions"@,
        ) || contains(lowercase(e.class_name@), "live-captions"@));
    assert(panel_names() =~= names);
    let low = all_lowercase(names);
    assert forall|e: UiElement| #[trigger] name_contains(e, names) == named(e) by {
        if named(e) {
            let j = choose|j: int|
                0 <= j < names.len() && contains(
                    lowercase(e.name@),
                    lowercase(#[trigger] names[j]),
                );
            assert(low[j] == lowercase(names[j]));
            assert(contains(lowercase(e.name@), low[j]));
        }
        if holds_any(lowercase(e.name@), low) {
            let j = choose|j: int| 0 <= j < low.len() && contains(lowercase(e.name@), #[trigger] low[j]);
            assert(low[j] == lowercase(names[j]));
        }
    }
    assert(named_like(panel_names()) =~= named);
    assert(hinted() =~= hints);
    law_search_is_complete(named, root, 18);
    law_search_is_complete(hints, root, 18);
}

/// The panel is that of the first window that has one, and there is none only
/// where no window has one.
pub proof fn law_first_window_with_a_panel_counts(roots: Seq<UiElement>)
    ensures
        match first_panel(roots) {
            None => forall|i: int| 0 <= i < roots.len() ==> panel_in(#[trigger] roots[i]) is None,
            Some(e) => exists|i: int|
                0 <= i < roots.len() && panel_in(#[trigger] roots[i]) == Some(e) && forall|j: int|
                    0 <= j < i ==> panel_in(#[trigger] roots[j]) is None,
        },
    decreases roots.len(),
{
    if roots.len() > 0 {
        let rest = roots.drop_first();
        if panel_in(roots[0]) is None {
            law_first_window_with_a_panel_counts(rest);
            match first_panel(rest) {
                None => {
                    assert forall|i: int| 0 <= i < roots.len() implies panel_in(
                        #[trigger] roots[i],
                    ) is None by {
                        if i > 0 {
                            assert(rest[i - 1] == roots[i]);
                        }
                    }
                },
                Some(e) => {
                    let i = choose|i: int|
                        0 <= i < rest.len() && panel_in(#[trigger] rest[i]) == Some(e) && forall|
                            j: int,
                        |
                            0 <= j < i ==> panel_in(#[trigger] rest[j]) is None;
                    assert(panel_in(roots[i + 1]) == Some(e));
                    assert forall|j: int| 0 <= j < i + 1 implies panel_in(
                        #[trigger] roots[j],
                    ) is None by {
                        if j > 0 {
                            assert(rest[j - 1] == roots[j]);
                        }
                    }
                },
            }
        }
    }
}

// ---------------------------------------------------------------------------
// Which rows have been written
// ---------------------------------------------------------------------------

/// How many ids are remembered.
pub const RECENT_CAPTION_RING: usize = 256;

/// After how many scans in a row without a caption the panel is looked for
/// anew.
pub const STALE_AFTER_EMPTY_SCANS: u32 = 10;

/// The ids remembered after one more: the oldest gives way where the ring is
/// full.
pub open spec fn remember(seen: Seq<Seq<char>>, id: Seq<char>) -> Seq<Seq<char>> {
    if seen.len() >= RECENT_CAPTION_RING {
        seen.drop_first().push(id)
    } else {
        seen.push(id)
    }
}

/// What comes of finished rows: the ids remembered afterwards, and the rows
/// that were not known.
pub open spec fn take_rows(seen: Seq<Seq<char>>, finished: Seq<Caption>) -> (
    Seq<Seq<char>>,
    Seq<Caption>,
)
    decreases finished.len(),
{
    if finished.len() == 0 {
        (seen, Seq::empty())
    } else {
        let before = take_rows(seen, finished.drop_last());
        let row = finished.last();
        if before.0.contains(row.id) {
            before
        } else {
            (remember(before.0, row.id), before.1.push(row))
        }
    }
}

/// What the caption worker knows from one poll to the next.
pub struct CaptionTracker {
    /// The panel was found and is still trusted.
    pub located: bool,
    /// The ids of the rows written last, the oldest first.
    pub seen: VecDeque<String>,
    /// The row that may still be growing.
    pub pending: Option<CaptionItem>,
    /// Scans in a row that showed no caption.
    pub empty_scans: u32,
    /// The user has been told that captions are being written.
    pub announced: bool,
}

/// What to do once the panel was looked for.
#[derive(Debug, Clone, Copy, PartialEq, Eq, Structural)]
pub struct Located {
    /// Write a note into the timeline.
    pub note: bool,
    /// Tell the user.
    pub announce: bool,
}

impl CaptionTracker {
    /// The remembered ids.
    pub open spec fn ids(&self) -> Seq<Seq<char>> {
        texts(self.seen@)
    }

    /// The ring holds no more ids than it may, and none of them twice.
    pub open spec fn wf(&self) -> bool {
        &&& self.seen@.len() <= 256
        &&& self.ids().no_duplicates()
        &&& self.empty_scans < 10
    }

    /// What is known at the start of a session: nothing.
    pub fn new() -> (r: Self)
        ensures
            r.wf(),
            !r.located,
            r.ids() == Seq::<Seq<char>>::empty(),
            r.pending is None,
            r.empty_scans == 0,
            !r.announced,
    {
        let r = CaptionTracker {
            located: false,
            seen: VecDeque::new(),
            pending: None,
            empty_scans: 0,
            announced: false,
        };
        assert(r.ids() =~= Seq::<Seq<char>>::empty());
        r
    }

    /// Must the panel be looked for before the next scan?
    pub fn needs_locate(&self) -> (r: bool)
        ensures
            r == !self.located,
    {
        !self.located
    }

    /// The panel was looked for. The user is told the first time it is found.
    pub fn on_located(&mut self, found_it: bool) -> (r: Located)
        requires
            old(self).wf(),
        ensures
            final(self).wf(),
            r.note == found_it,
            r.announce == (found_it && !old(self).announced),
            final(self).located == (old(self).located || found_it),
            final(self).announced == (old(self).announced || found_it),
            final(self).empty_scans == if found_it {
                0
            } else {
                old(self).empty_scans
            },
            final(self).seen == old(self).seen,
            final(self).pending == old(self).pending,
    {
        if found_it {
            let announce = !self.announced;
            self.located = true;
            self.announced = true;
            self.empty_scans = 0;
            Located { note: true, announce }
        } else {
            Located { note: false, announce: false }
        }
    }

    /// The panel could not be read: it is looked for anew.
    pub fn on_scan_failed(&mut self)
        requires
            old(self).wf(),
        ensures
            final(self).wf(),
            !final(self).located,
            final(self).empty_scans == 0,
            final(self).seen == old(self).seen,
            final(self).pending == old(self).pending,
            final(self).announced == old(self).announced,
    {
        self.located = false;
        self.empty_scans = 0;
    }

    fn knows(&self, id: &str) -> (r: bool)
        ensures
            r == self.ids().contains(id@),
    {
        let mut i: usize = 0;
        while i < self.seen.len()
            invariant
                i <= self.seen@.len(),
                forall|k: int| 0 <= k < i ==> #[trigger] self.ids()[k] != id@,
            decreases self.seen@.len() - i,
        {
            assert(self.ids()[i as int] == self.seen@[i as int]@);
            if same_text(self.seen[i].as_str(), id) {
                return true;
            }
            i += 1;
        }
        false
    }

    fn note_id(&mut self, id: &String)
        requires
            old(self).wf(),
            !old(self).ids().contains(id@),
        ensures
            final(self).wf(),
            final(self).ids() == remember(old(self).ids(), id@),
            final(self).located == old(self).located,
            final(self).pending == old(self).pending,
            final(self).empty_scans == old(self).empty_scans,
            final(self).announced == old(self).announced,
    {
        let ghost before = self.ids();
        if self.seen.len() >= RECENT_CAPTION_RING {
            self.seen.pop_front();
            assert(self.ids() =~= before.drop_first());
        }
        let ghost kept = self.ids();
        assert forall|a: int, b: int|
            0 <= a < kept.len() && 0 <= b < kept.len() && a != b implies kept[a] != kept[b] by {
            if before.len() >= RECENT_CAPTION_RING {
                assert(kept[a] == before[a + 1]);
                assert(kept[b] == before[b + 1]);
            }
        }
        assert forall|a: int| 0 <= a < kept.len() implies kept[a] != id@ by {
            if before.len() >= RECENT_CAPTION_RING {
                assert(kept[a] == before[a + 1]);
                assert(before.contains(kept[a]));
            } else {
                assert(before.contains(kept[a]));
            }
        }
        self.seen.push_back(id.clone());
        assert(self.ids() =~= kept.push(id@));
    }

    /// The panel was read. Every row but the last is finished; those that are
    /// not known yet are to be written, in order, and are known from then on.
    /// After too many scans in a row without a caption the panel is looked for
    /// anew.
    pub fn on_scan(&mut self, items: &Vec<CaptionItem>) -> (r: Vec<CaptionItem>)
        requires
            old(self).wf(),
            old(self).located,
        ensures
            final(self).wf(),
            final(self).announced == old(self).announced,
            items@.len() == 0 ==> {
                &&& r@.len() == 0
                &&& final(self).seen == old(self).seen
                &&& final(self).pending == old(self).pending
                &&& if old(self).empty_scans + 1 >= 10 {
                    !final(self).located && final(self).empty_scans == 0
                } else {
                    final(self).located && final(self).empty_scans == old(self).empty_scans + 1
                }
            },
            items@.len() > 0 ==> {
                &&& views(r@) == take_rows(old(self).ids(), views(items@).drop_last()).1
                &&& final(self).ids() == take_rows(old(self).ids(), views(items@).drop_last()).0
                &&& final(self).pending == Some(items@.last())
                &&& final(self).located
                &&& final(self).empty_scans == 0
            },
    {
        let mut out: Vec<CaptionItem> = Vec::new();
        if items.len() == 0 {
            self.empty_scans = self.empty_scans + 1;
            if self.empty_scans >= STALE_AFTER_EMPTY_SCANS {
                self.located = false;
                self.empty_scans = 0;
            }
            return out;
        }
        self.empty_scans = 0;
        let ghost start = self.ids();
        let ghost finished = views(items@).drop_last();
        let last: usize = items.len() - 1;
        let mut i: usize = 0;
        assert(finished.take(0) =~= Seq::empty());
        assert(views(out@) =~= Seq::<Caption>::empty());
        while i < last
            invariant
                i <= last,
                last == items@.len() - 1,
                finished == views(items@).drop_last(),
                self.wf(),
                self.located,
                self.empty_scans == 0,
                self.announced == old(self).announced,
                self.ids() == take_rows(start, finished.take(i as int)).0,
                views(out@) == take_rows(start, finished.take(i as int)).1,
            decreases last - i,
        {
            let it = &items[i];
            assert(finished.take(i + 1).drop_last() =~= finished.take(i as int));
            assert(finished.take(i + 1).last() == it@);
            if !self.knows(it.id.as_str()) {
                let ghost before = out@;
                self.note_id(&it.id);
                out.push(it.copy());
                assert(views(out@) =~= views(before).push(it@));
            }
            i += 1;
        }
        assert(finished.take(i as int) =~= finished);
        self.pending = Some(items[last].copy());
        out
    }

    /// The session ends: the row that was held back is to be written, unless
    /// it is known.
    pub fn on_shutdown(&self) -> (r: Option<CaptionItem>)
        ensures
            match self.pending {
                Some(p) => r == if self.ids().contains(p.id@) {
                    None
                } else {
                    Some(p)
                },
                None => r is None,
            },
    {
        match &self.pending {
            Some(p) => if self.knows(p.id.as_str()) {
                None
            } else {
                Some(p.copy())
            },
            None => None,
        }
    }
}

// ---------------------------------------------------------------------------
// What holds of a whole session
// ---------------------------------------------------------------------------

/// The ids of captions.
pub open spec fn ids_of(s: Seq<Caption>) -> Seq<Seq<char>> {
    s.map_values(|c: Caption| c.id)
}

/// The ids written last, as many as the ring holds.
pub open spec fn latest(written: Seq<Seq<char>>) -> Seq<Seq<char>> {
    if written.len() <= RECENT_CAPTION_RING {
        written
    } else {
        written.skip(written.len() - RECENT_CAPTION_RING)
    }
}

/// Between two writes of one id lie more writes than the ring holds ids.
pub open spec fn spaced(written: Seq<Seq<char>>) -> bool {
    forall|i: int, j: int|
        0 <= i < j < written.len() && j - i <= RECENT_CAPTION_RING ==> #[trigger] written[i]
            != #[trigger] written[j]
}

/// No caption is lost and none is written twice. Let `written` be the ids of
/// all captions written so far, and let the ring hold the latest of them, as
/// it does at the start. Whatever finished rows come, the ring then holds the
/// latest ids again, two writes of one id still lie further apart than the
/// ring is long, and every finished row has been written.
pub proof fn law_each_caption_once(written: Seq<Seq<char>>, finished: Seq<Caption>)
    requires
        spaced(written),
    ensures
        take_rows(latest(written), finished).0 == latest(
            written + ids_of(take_rows(latest(written), finished).1),
        ),
        spaced(written + ids_of(take_rows(latest(written), finished).1)),
        forall|k: int|
            0 <= k < finished.len() ==> (written + ids_of(
                take_rows(latest(written), finished).1,
            )).contains(#[trigger] finished[k].id),
    decreases finished.len(),
{
    let seen = latest(written);
    let now = take_rows(seen, finished);
    if finished.len() == 0 {
        assert(written + ids_of(now.1) =~= written);
    } else {
        let rest = finished.drop_last();
        law_each_caption_once(written, rest);
        let before = take_rows(seen, rest);
        let h = written + ids_of(before.1);
        let id = finished.last().id;
        if before.0.contains(id) {
            let k = choose|k: int| 0 <= k < before.0.len() && before.0[k] == id;
            assert(h[h.len() - before.0.len() + k] == id);
            assert(h.contains(id));
        } else {
            let h2 = written + ids_of(now.1);
            assert(h2 =~= h.push(id));
            assert(now.0 =~= latest(h2));
            assert forall|i: int, j: int|
                0 <= i < j < h2.len() && j - i <= RECENT_CAPTION_RING implies #[trigger] h2[i]
                != #[trigger] h2[j] by {
                if j == h.len() {
                    assert(before.0[i - (h.len() - before.0.len())] == h[i]);
                } else {
                    assert(h[i] != h[j]);
                }
            }
            assert(h2[h.len() as int] == id);
            assert forall|k: int| 0 <= k < finished.len() implies h2.contains(
                #[trigger] finished[k].id,
            ) by {
                if k < rest.len() {
                    assert(rest[k] == finished[k]);
                    assert(h.contains(rest[k].id));
                    let m = choose|m: int| 0 <= m < h.len() && h[m] == rest[k].id;
                    assert(h2[m] == rest[k].id);
                }
            }
        }
        assert forall|k: int| 0 <= k < finished.len() implies (written + ids_of(now.1)).contains(
            #[trigger] finished[k].id,
        ) by {
            if k < rest.len() && before.0.contains(id) {
                assert(rest[k] == finished[k]);
                assert(h.contains(rest[k].id));
            }
        }
    }
}

/// One more finished row: it is written exactly where its id is not remembered,
/// and then comes after all that was written before it. The ring remembers the
/// last 256 ids.
pub proof fn law_next_row_is_written_unless_known(
    seen: Seq<Seq<char>>,
    finished: Seq<Caption>,
    row: Caption,
)
    ensures
        take_rows(seen, Seq::empty()) == (seen, Seq::<Caption>::empty()),
        take_rows(seen, finished).0.contains(row.id) ==> take_rows(seen, finished.push(row))
            == take_rows(seen, finished),
        !take_rows(seen, finished).0.contains(row.id) ==> {
            &&& take_rows(seen, finished.push(row)).1 == take_rows(seen, finished).1.push(row)
            &&& take_rows(seen, finished).0.len() < 256 ==> take_rows(seen, finished.push(row)).0
                == take_rows(seen, finished).0.push(row.id)
            &&& take_rows(seen, finished).0.len() >= 256 ==> take_rows(seen, finished.push(row)).0
                == take_rows(seen, finished).0.drop_first().push(row.id)
        },
{
    assert(finished.push(row).drop_last() =~= finished);
}

/// As long as no more than 256 rows come, a row is written exactly where its id
/// is neither remembered nor that of an earlier row.
pub proof fn law_row_is_written_the_first_time(
    seen: Seq<Seq<char>>,
    finished: Seq<Caption>,
    k: int,
)
    requires
        0 <= k < finished.len(),
        seen.len() + k < 256,
    ensures
        ({
            let known = seen.contains(finished[k].id) || exists|j: int|
                0 <= j < k && (#[trigger] finished[j]).id == finished[k].id;
            take_rows(seen, finished.take(k + 1)).1 == if known {
                take_rows(seen, finished.take(k)).1
            } else {
                take_rows(seen, finished.take(k)).1.push(finished[k])
            }
        }),
{
    lemma_known_ids(seen, finished, k);
    assert(finished.take(k + 1).drop_last() =~= finished.take(k));
}

proof fn lemma_known_ids(seen: Seq<Seq<char>>, finished: Seq<Caption>, k: int)
    requires
        0 <= k <= finished.len(),
        seen.len() + k <= 256,
    ensures
        take_rows(seen, finished.take(k)).0.len() <= seen.len() + k,
        forall|id: Seq<char>| #[trigger]
            take_rows(seen, finished.take(k)).0.contains(id) <==> (seen.contains(id) || exists|
                j: int,
            |
                0 <= j < k && (#[trigger] finished[j]).id == id),
    decreases k,
{
    if k > 0 {
        lemma_known_ids(seen, finished, k - 1);
        assert(finished.take(k).drop_last() =~= finished.take(k - 1));
        let before = take_rows(seen, finished.take(k - 1)).0;
        let now = take_rows(seen, finished.take(k)).0;
        let row = finished[k - 1];
        assert forall|id: Seq<char>| #[trigger] now.contains(id) <==> (seen.contains(id) || exists|
            j: int,
        |
            0 <= j < k && (#[trigger] finished[j]).id == id) by {
            if !before.contains(row.id) {
                assert(now == before.push(row.id));
                if before.contains(id) {
                    let m = choose|m: int| 0 <= m < before.len() && before[m] == id;
                    assert(now[m] == id);
                }
                if id == row.id {
                    assert(now[before.len() as int] == id);
                }
                if now.contains(id) && id != row.id {
                    let m = choose|m: int| 0 <= m < now.len() && now[m] == id;
                    assert(before[m] == id);
                }
            }
            if exists|j: int| 0 <= j < k && (#[trigger] finished[j]).id == id {
                let j = choose|j: int| 0 <= j < k && (#[trigger] finished[j]).id == id;
                if j < k - 1 {
                    assert(before.contains(id));
                }
            }
        }
    } else {
        assert(finished.take(0) =~= Seq::empty());
    }
}

/// The event of a caption.
pub fn caption_event(t_ms: u64, wall: String, item: CaptionItem) -> (r: TimelineEvent)
    ensures
        r == (TimelineEvent::Caption {
            t_ms,
            wall,
            speaker: item.speaker,
            text: item.text,
            item_id: item.id,
        }),
{
    TimelineEvent::Caption {
        t_ms,
        wall,
        speaker: item.speaker,
        text: item.text,
        item_id: item.id,
    }
}

// ---------------------------------------------------------------------------
// Why captions are not seen
// ---------------------------------------------------------------------------

/// How many bytes of a caption are shown.
pub const PREVIEW_BYTES: u128 = 100;

/// A caption as it is shown; none where the cut would fall inside a character.
pub open spec fn preview(text: Seq<char>) -> Option<Seq<char>> {
    if byte_len(text) > PREVIEW_BYTES {
        match cut(text, PREVIEW_BYTES as nat) {
            Some(count) => Some(
                text.take(count) + "…(len="@ + decimal(byte_len(text)) + ")"@,
            ),
            None => None,
        }
    } else {
        Some(text)
    }
}

fn preview_of(text: &str) -> (r: Option<String>)
    ensures
        option_text(r) == preview(text@),
{
    let chars = chars_of(text);
    let bytes: u128 = byte_count(&chars, chars.len());
    assert(chars@.take(chars@.len() as int) =~= chars@);
    let shown = first_bytes(text, PREVIEW_BYTES);
    match shown {
        None => None,
        Some(t) => {
            let mut line = t;
            if bytes > PREVIEW_BYTES {
                line.append("…(len=");
                push_decimal(&mut line, bytes);
                line.append(")");
            }
            assert(Some(line@) == preview(text@)) by {
                if bytes > PREVIEW_BYTES {
                    let count = cut(text@, PREVIEW_BYTES as nat)->0;
                    assert(line@ =~= text@.take(count) + "…(len="@ + decimal(byte_len(text@))
                        + ")"@);
                }
            }
            Some(line)
        },
    }
}

/// The line about a caption; none where the caption cannot be shown.
pub open spec fn caption_line(i: int, c: Caption) -> Option<Seq<char>> {
    match preview(c.text) {
        Some(t) => Some(
            "  ["@ + padded(i as nat, 2) + "] speaker="@ + quoted_option(c.speaker) + " text="@
                + quoted(t),
        ),
        None => None,
    }
}

/// The lines about the first `n` captions; none where one of them cannot be
/// shown.
pub open spec fn caption_lines(s: Seq<Caption>, n: int) -> Option<Seq<Seq<char>>>
    decreases n,
{
    if n <= 0 {
        Some(Seq::empty())
    } else {
        match (caption_lines(s, n - 1), caption_line(n - 1, s[n - 1])) {
            (Some(lines), Some(line)) => Some(lines.push(line)),
            _ => None,
        }
    }
}

/// What is told of a container.
pub open spec fn container_line(e: UiElement) -> Seq<char> {
    "  ct="@ + signed_decimal(e.control_type as int) + "  loc="@ + quoted(e.localized_type@)
        + "  name="@ + quoted(e.name@) + "  aid="@ + quoted(e.automation_id@) + "  class="@
        + quoted(e.class_name@)
}

/// The lines before those about the captions.
pub open spec fn container_lines(e: UiElement, max_depth: int) -> Seq<Seq<char>> {
    seq![
        "\n=== Caption container located ==="@,
        container_line(e),
        "\n=== Container subtree (depth "@ + decimal(max_depth as nat) + ") ==="@,
    ] + tree_lines(e, max_depth) + seq![
        "\n=== What current scan_captions() would extract ==="@,
        "("@ + decimal(captions_of(rows(e)).len()) + " items)"@,
    ]
}

/// What a user is shown who asks why captions are not seen; none where one of
/// the captions cannot be shown.
pub open spec fn diagnosis(container: Option<UiElement>, max_depth: int) -> Option<Seq<Seq<char>>> {
    match container {
        None => Some(
            seq![
                "\n(NOT FOUND) caption container could not be located."@,
                "Open Teams, join a meeting, and ensure Live Captions is ON."@,
            ],
        ),
        Some(e) => match caption_lines(captions_of(rows(e)), captions_of(rows(e)).len() as int) {
            Some(lines) => Some(container_lines(e, max_depth) + lines),
            None => None,
        },
    }
}

fn line_about_caption(i: usize, item: &CaptionItem) -> (r: Option<String>)
    ensures
        option_text(r) == caption_line(i as int, item@),
{
    match preview_of(item.text.as_str()) {
        None => None,
        Some(shown) => {
            let mut line = "  [".to_owned();
            push_two_digits(&mut line, i as u64);
            line.append("] speaker=");
            push_quoted_option(&mut line, &item.speaker);
            line.append(" text=");
            push_quoted(&mut line, shown.as_str());
            assert(Some(line@) == caption_line(i as int, item@)) by {
                assert(line@ =~= "  ["@ + padded(i as nat, 2) + "] speaker="@ + quoted_option(
                    item@.speaker,
                ) + " text="@ + quoted(shown@));
            }
            Some(line)
        },
    }
}

fn push_container_lines(out: &mut Vec<String>, e: &UiElement, max_depth: u32, items: usize)
    requires
        items == captions_of(rows(*e)).len(),
    ensures
        texts(final(out)@) == texts(old(out)@) + container_lines(*e, max_depth as int),
{
    let ghost before = texts(out@);
    push_line(out, "\n=== Caption container located ===".to_owned());
    let mut about = "  ct=".to_owned();
    push_signed(&mut about, e.control_type as i64);
    about.append("  loc=");
    push_quoted(&mut about, e.localized_type.as_str());
    about.append("  name=");
    push_quoted(&mut about, e.name.as_str());
    about.append("  aid=");
    push_quoted(&mut about, e.automation_id.as_str());
    about.append("  class=");
    push_quoted(&mut about, e.class_name.as_str());
    assert(about@ =~= container_line(*e));
    push_line(out, about);
    let mut subtree = "\n=== Container subtree (depth ".to_owned();
    push_decimal(&mut subtree, max_depth as u128);
    subtree.append(") ===");
    push_line(out, subtree);
    dump_tree(out, e, max_depth);
    push_line(out, "\n=== What current scan_captions() would extract ===".to_owned());
    let mut count = "(".to_owned();
    push_decimal(&mut count, items as u128);
    count.append(" items)");
    push_line(out, count);
    assert(texts(out@) =~= before + container_lines(*e, max_depth as int));
}

/// What a user is shown who asks why captions are not seen: the container that
/// was found, all below it, and what is read from it. None where a caption is
/// longer than what is shown and the cut would fall inside a character.
pub fn diagnose(container: Option<&UiElement>, max_depth: u32) -> (r: Option<Vec<String>>)
    ensures
        match container {
            None => r is Some && Some(texts(r->0@)) == diagnosis(None, max_depth as int),
            Some(e) => match diagnosis(Some(*e), max_depth as int) {
                Some(lines) => r is Some && texts(r->0@) == lines,
                None => r is None,
            },
        },
{
    let mut out: Vec<String> = Vec::new();
    assert(texts(out@) =~= Seq::empty());
    match container {
        None => {
            push_line(
                &mut out,
                "\n(NOT FOUND) caption container could not be located.".to_owned(),
            );
            push_line(
                &mut out,
                "Open Teams, join a meeting, and ensure Live Captions is ON.".to_owned(),
            );
            assert(texts(out@) =~= diagnosis(None, max_depth as int)->0);
            Some(out)
        },
        Some(e) => {
            let items = scan_captions(e);
            let ghost said = captions_of(rows(*e));
            assert(views(items@).len() == items@.len());
            push_container_lines(&mut out, e, max_depth, items.len());
            let ghost head = container_lines(*e, max_depth as int);
            assert(texts(out@) =~= head);
            let mut i: usize = 0;
            assert(head + caption_lines(said, 0)->0 =~= head);
            while i < items.len()
                invariant
                    i <= items@.len(),
                    container == Some(e),
                    said == captions_of(rows(*e)),
                    said == views(items@),
                    said.len() == items@.len(),
                    caption_lines(said, i as int) is Some,
                    texts(out@) == head + caption_lines(said, i as int)->0,
                decreases items@.len() - i,
            {
                assert(said[i as int] == items@[i as int]@);
                match line_about_caption(i, &items[i]) {
                    Some(line) => {
                        push_line(&mut out, line);
                        assert(texts(out@) =~= head + caption_lines(said, i + 1)->0);
                    },
                    None => {
                        proof {
                            lemma_not_shown(said, i + 1, said.len() as int);
                        }
                        return None;
                    },
                }
                i += 1;
            }
            Some(out)
        },
    }
}

proof fn lemma_not_shown(s: Seq<Caption>, n: int, m: int)
    requires
        0 <= n <= m,
        caption_lines(s, n) is None,
    ensures
        caption_lines(s, m) is None,
    decreases m - n,
{
    if n < m {
        lemma_not_shown(s, n, m - 1);
    }
}

/// A caption in ASCII is shown whole where it has no more than a hundred characters;
/// of a longer one the first hundred are shown, and how many it has.
pub proof fn law_long_captions_are_cut(text: Seq<char>)
    requires
        in_ascii(text),
    ensures
        text.len() <= 100 ==> preview(text) == Some(text),
        text.len() > 100 ==> preview(text) == Some(
            text.take(100) + "…(len="@ + decimal(text.len()) + ")"@,
        ),
{
    law_ascii_takes_one_byte_each(text);
    if text.len() > 100 {
        assert(cut(text, 100) == Some(100int));
    }
}

/// A user who asks why captions are not seen is shown every caption that is read, if
/// all of them can be shown.
pub proof fn law_every_caption_is_shown(e: UiElement, max_depth: int, i: int)
    requires
        0 <= i < captions_of(rows(e)).len(),
        diagnosis(Some(e), max_depth) is Some,
    ensures
        caption_line(i, captions_of(rows(e))[i]) is Some,
        diagnosis(Some(e), max_depth)->0.contains(caption_line(i, captions_of(rows(e))[i])->0),
{
    let s = captions_of(rows(e));
    lemma_caption_line_stays(s, s.len() as int, i);
    let lines = caption_lines(s, s.len() as int)->0;
    let head = container_lines(e, max_depth);
    let line = caption_line(i, s[i])->0;
    crate::report::lemma_line_stays(head, lines, line);
}

proof fn lemma_caption_line_stays(s: Seq<Caption>, n: int, i: int)
    requires
        0 <= i < n,
        caption_lines(s, n) is Some,
    ensures
        caption_line(i, s[i]) is Some,
        caption_lines(s, n)->0.contains(caption_line(i, s[i])->0),
    decreases n,
{
    let before = caption_lines(s, n - 1);
    let now = caption_lines(s, n)->0;
    if i < n - 1 {
        lemma_caption_line_stays(s, n - 1, i);
        let k = choose|k: int|
            0 <= k < before->0.len() && before->0[k] == caption_line(i, s[i])->0;
        assert(now[k] == caption_line(i, s[i])->0);
    } else {
        assert(now[now.len() - 1] == caption_line(i, s[i])->0);
    }
}

} // verus!
