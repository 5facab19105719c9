//! Writing calendar events: card edits, colors, sequence numbers and the
//! payloads of the sync endpoint.
use vstd::prelude::*;

pub use crate::dates::{format_ical_date_end_exclusive, format_ical_dt};
pub use crate::escape::escape_ical_text;

use crate::json;
use crate::json::{copy_json, copy_jsons, json_int, json_text, Json, JsonModel};
use crate::lines;
use crate::lines::{prop_name, unfold_ical_lines};
use crate::lists;
use crate::lists::{append_new, extend_texts};
use crate::numbers;
use crate::ordered;
use crate::ordered::{TextMap, TextSet};
use crate::text;
use crate::text::{
    chars_of, concat2, concat3, copy_text, eq_ignoring_case, text_eq, text_starts_with, to_upper,
    trimmed,
};

verus! {

broadcast use crate::text::lemma_texts_push;

// ---------------------------------------------------------------------
// Card edits
// ---------------------------------------------------------------------

/// Edits of single properties of a decrypted VEVENT card. Every other line
/// of the card stays as it is: conferencing properties, the organizer,
/// attendees, third-party `X-` properties and nested components survive.
#[derive(Debug)]
pub struct CardPatch {
    /// Replace or insert a single-valued property: the name, and the line
    /// after the name (`":new value"`, `";TZID=Europe/Rome:20260914T200000"`).
    pub set: TextMap,
    /// Remove every line with the name, before `set` and `append` apply.
    pub delete: TextSet,
    /// Add unfolded lines as they are; a line that the card has already is
    /// skipped.
    pub append: Vec<String>,
}

impl Default for CardPatch {
    fn default() -> (r: CardPatch)
        ensures
            r.set@ == Seq::<(Seq<char>, Seq<char>)>::empty(),
            r.delete@ == Seq::<Seq<char>>::empty(),
            r.append@ == Seq::<String>::empty(),
    {
        CardPatch { set: TextMap::new(), delete: TextSet::new(), append: Vec::new() }
    }
}

/// The content lines of a card, apart: properties of the event, and the
/// lines of nested components.
#[verifier::ext_equal]
pub struct Sections {
    pub props: Seq<Seq<char>>,
    pub blocks: Seq<Seq<char>>,
}

/// A line of the wrapper that every card is written with.
pub open spec fn is_wrapper(upper: Seq<char>) -> bool {
    ||| text::starts_with(upper, "BEGIN:VCALENDAR"@)
    ||| text::starts_with(upper, "BEGIN:VEVENT"@)
    ||| text::starts_with(upper, "END:VEVENT"@)
    ||| text::starts_with(upper, "END:VCALENDAR"@)
}

/// A line that starts a component.
pub open spec fn begins(line: Seq<char>) -> bool {
    text::starts_with(text::uppercase(line), "BEGIN:"@)
}

/// A line that ends a component.
pub open spec fn ends(line: Seq<char>) -> bool {
    text::starts_with(text::uppercase(line), "END:"@)
}

/// A line that starts a component of this name.
pub open spec fn begins_as(line: Seq<char>, name: Seq<char>) -> bool {
    begins(line) && text::uppercase(line).skip(6) == name
}

/// A line that ends a component of this name.
pub open spec fn ends_as(line: Seq<char>, name: Seq<char>) -> bool {
    ends(line) && text::uppercase(line).skip(4) == name
}

/// Where the outermost of `open` components of this name closes: behind the
/// line that ends as many of them as have started.
pub open spec fn close_at(l: Seq<Seq<char>>, i: int, name: Seq<char>, open: int) -> Option<int>
    decreases l.len() - i,
{
    if i >= l.len() {
        None
    } else if begins_as(l[i], name) {
        close_at(l, i + 1, name, open + 1)
    } else if ends_as(l[i], name) {
        if open <= 1 {
            Some(i + 1)
        } else {
            close_at(l, i + 1, name, open - 1)
        }
    } else {
        close_at(l, i + 1, name, open)
    }
}

/// Behind the next line that ends a component, or the end of the lines.
pub open spec fn next_end(l: Seq<Seq<char>>, i: int) -> int
    decreases l.len() - i,
{
    if i >= l.len() {
        l.len() as int
    } else if ends(l[i]) {
        i + 1
    } else {
        next_end(l, i + 1)
    }
}

/// Where the component that starts at a line ends: behind the line that
/// closes it by name, with the components in it; one that nothing closes by
/// name ends at the next end of any.
pub open spec fn block_end(l: Seq<Seq<char>>, i: int) -> int {
    match close_at(l, i + 1, text::uppercase(l[i]).skip(6), 1) {
        Some(j) => j,
        None => next_end(l, i + 1),
    }
}

pub proof fn lemma_block_end(l: Seq<Seq<char>>, i: int)
    requires
        0 <= i < l.len(),
    ensures
        i < block_end(l, i) <= l.len(),
{
    lemma_close_at(l, i + 1, text::uppercase(l[i]).skip(6), 1);
    lemma_next_end(l, i + 1);
}

proof fn lemma_close_at(l: Seq<Seq<char>>, i: int, name: Seq<char>, open: int)
    ensures
        close_at(l, i, name, open) matches Some(j) ==> i < j <= l.len(),
    decreases l.len() - i,
{
    if i < l.len() {
        if begins_as(l[i], name) {
            lemma_close_at(l, i + 1, name, open + 1);
        } else if ends_as(l[i], name) {
            lemma_close_at(l, i + 1, name, open - 1);
        } else {
            lemma_close_at(l, i + 1, name, open);
        }
    }
}

proof fn lemma_next_end(l: Seq<Seq<char>>, i: int)
    requires
        i <= l.len(),
    ensures
        i <= next_end(l, i) <= l.len(),
        i < l.len() ==> i < next_end(l, i),
    decreases l.len() - i,
{
    if i < l.len() {
        lemma_next_end(l, i + 1);
    }
}

/// The sections of the lines from one on: wrapper lines and blank lines are
/// left out, a nested component is kept from its start to its end.
pub open spec fn sections_from(l: Seq<Seq<char>>, i: int) -> Sections
    decreases l.len() - i,
{
    if i < 0 || i >= l.len() {
        Sections { props: seq![], blocks: seq![] }
    } else if is_wrapper(text::uppercase(l[i])) {
        sections_from(l, i + 1)
    } else if begins(l[i]) {
        proof {
            lemma_block_end(l, i);
        }
        let rest = sections_from(l, block_end(l, i));
        Sections { props: rest.props, blocks: l.subrange(i, block_end(l, i)) + rest.blocks }
    } else if text::trim(l[i]).len() == 0 {
        sections_from(l, i + 1)
    } else {
        let rest = sections_from(l, i + 1);
        Sections { props: seq![l[i]] + rest.props, blocks: rest.blocks }
    }
}

pub open spec fn sections(lines: Seq<Seq<char>>) -> Sections {
    sections_from(lines, 0)
}

/// The same entries under upper-cased names.
pub open spec fn upper_entries(m: Seq<(Seq<char>, Seq<char>)>) -> Seq<(Seq<char>, Seq<char>)>
    decreases m.len(),
{
    if m.len() == 0 {
        seq![]
    } else {
        ordered::with_entry(
            upper_entries(m.drop_last()),
            text::uppercase(m.last().0),
            m.last().1,
        )
    }
}

/// Whether `name` is among the names to delete, whatever their case.
pub open spec fn deletes(delete: Seq<Seq<char>>, name: Seq<char>) -> bool {
    exists|i: int| 0 <= i < delete.len() && #[trigger] text::uppercase(delete[i]) == name
}

/// What becomes of one property line: `None` when it is deleted.
pub open spec fn edited_line(
    line: Seq<char>,
    set: Seq<(Seq<char>, Seq<char>)>,
    delete: Seq<Seq<char>>,
) -> Option<Seq<char>> {
    match lines::property_name(line) {
        None => Some(line),
        Some(name) => if deletes(delete, name) {
            None
        } else {
            match ordered::lookup(set, name) {
                Some(value) => Some(name + value),
                None => Some(line),
            }
        },
    }
}

/// The property lines after deletion and replacement, in their order.
pub open spec fn edited(
    props: Seq<Seq<char>>,
    set: Seq<(Seq<char>, Seq<char>)>,
    delete: Seq<Seq<char>>,
) -> Seq<Seq<char>>
    decreases props.len(),
{
    if props.len() == 0 {
        seq![]
    } else {
        let init = edited(props.drop_last(), set, delete);
        match edited_line(props.last(), set, delete) {
            Some(line) => init.push(line),
            None => init,
        }
    }
}

/// Whether a property of this name is among the lines and stays there.
pub open spec fn keeps_name(
    props: Seq<Seq<char>>,
    delete: Seq<Seq<char>>,
    name: Seq<char>,
) -> bool {
    !deletes(delete, name) && exists|i: int|
        0 <= i < props.len() && #[trigger] lines::property_name(props[i]) == Some(name)
}

/// The lines of the set properties that the card lacks, by name.
pub open spec fn missing(
    props: Seq<Seq<char>>,
    set: Seq<(Seq<char>, Seq<char>)>,
    delete: Seq<Seq<char>>,
) -> Seq<Seq<char>>
    decreases set.len(),
{
    if set.len() == 0 {
        seq![]
    } else {
        let init = missing(props, set.drop_last(), delete);
        let name = text::uppercase(set.last().0);
        if keeps_name(props, delete, name) {
            init
        } else {
            init.push(name + set.last().1)
        }
    }
}

/// The property lines of a patched card.
pub open spec fn patched_props(
    props: Seq<Seq<char>>,
    set: Seq<(Seq<char>, Seq<char>)>,
    delete: Seq<Seq<char>>,
    append: Seq<Seq<char>>,
) -> Seq<Seq<char>> {
    lists::appended(edited(props, set, delete) + missing(props, set, delete), append)
}

/// The content lines of a patched card: the wrapper round the property
/// lines and the nested components.
pub open spec fn patched_lines(
    card: Seq<char>,
    set: Seq<(Seq<char>, Seq<char>)>,
    delete: Seq<Seq<char>>,
    append: Seq<Seq<char>>,
) -> Seq<Seq<char>> {
    let st = sections(lines::unfold(lines::card_lines(card)));
    seq!["BEGIN:VCALENDAR"@, "BEGIN:VEVENT"@] + patched_props(
        st.props,
        upper_entries(set),
        delete,
        append,
    ) + st.blocks + seq!["END:VEVENT"@, "END:VCALENDAR"@]
}

fn wrapper_line(upper: &str) -> (r: bool)
    ensures
        r == is_wrapper(upper@),
{
    text_starts_with(upper, "BEGIN:VCALENDAR") || text_starts_with(upper, "BEGIN:VEVENT")
        || text_starts_with(upper, "END:VEVENT") || text_starts_with(upper, "END:VCALENDAR")
}

/// Whether an upper-cased line is a mark with this name behind it.
fn marked_as(upper: &str, mark: &str, name: &str) -> (r: bool)
    ensures
        r == (text::starts_with(upper@, mark@) && upper@.skip(mark@.len() as int) == name@),
{
    if !text_starts_with(upper, mark) {
        return false;
    }
    let v: Vec<char> = text::chars_of(upper);
    let m: Vec<char> = text::chars_of(mark);
    let rest: String = text::string_of(&v, m.len(), v.len());
    assert(rest@ =~= upper@.skip(mark@.len() as int));
    text::text_eq(rest.as_str(), name)
}

/// Where the component that starts at a line ends.
fn find_block_end(all: &Vec<String>, i: usize) -> (r: usize)
    requires
        i < all@.len(),
        begins(all@[i as int]@),
    ensures
        r == block_end(text::texts(all@), i as int),
        i < r <= all@.len(),
{
    let ghost t = text::texts(all@);
    proof {
        reveal_strlit("BEGIN:");
        reveal_strlit("END:");
        lemma_block_end(t, i as int);
    }
    let count: usize = all.len();
    let upper: String = text::to_upper(all[i].as_str());
    let v: Vec<char> = text::chars_of(upper.as_str());
    let name: String = text::string_of(&v, 6, v.len());
    let ghost want = text::uppercase(t[i as int]).skip(6);
    assert(name@ =~= want);
    let mut k: usize = i + 1;
    let mut open: usize = 1;
    let mut closed: bool = false;
    while k < count && !closed
        invariant
            i < k <= count,
            count == all@.len(),
            t == text::texts(all@),
            "BEGIN:"@.len() == 6,
            "END:"@.len() == 4,
            name@ == want,
            1 <= open <= k - i,
            !closed ==> close_at(t, i + 1, want, 1) == close_at(t, k as int, want, open as int),
            closed ==> close_at(t, i + 1, want, 1) == Some(k as int),
        decreases count - k,
    {
        assert(t[k as int] == all@[k as int]@);
        let line: String = text::to_upper(all[k].as_str());
        if marked_as(line.as_str(), "BEGIN:", name.as_str()) {
            open = open + 1;
        } else if marked_as(line.as_str(), "END:", name.as_str()) {
            if open <= 1 {
                closed = true;
            } else {
                open = open - 1;
            }
        }
        k = k + 1;
    }
    if closed {
        return k;
    }
    let mut k: usize = i + 1;
    while k < count
        invariant
            i < k <= count,
            count == all@.len(),
            t == text::texts(all@),
            close_at(t, i + 1, text::uppercase(t[i as int]).skip(6), 1) is None,
            next_end(t, i + 1) == next_end(t, k as int),
        decreases count - k,
    {
        assert(t[k as int] == all@[k as int]@);
        let line: String = text::to_upper(all[k].as_str());
        k = k + 1;
        if text_starts_with(line.as_str(), "END:") {
            return k;
        }
    }
    k
}

/// Splits unfolded lines into the property lines and the lines of nested
/// components.
fn split_sections(all: Vec<String>) -> (r: (Vec<String>, Vec<String>))
    ensures
        text::texts(r.0@) == sections(text::texts(all@)).props,
        text::texts(r.1@) == sections(text::texts(all@)).blocks,
{
    let mut props: Vec<String> = Vec::new();
    let mut blocks: Vec<String> = Vec::new();
    let ghost t = text::texts(all@);
    let mut i: usize = 0;
    assert(text::texts(props@) + sections(t).props =~= sections(t).props);
    assert(text::texts(blocks@) + sections(t).blocks =~= sections(t).blocks);
    while i < all.len()
        invariant
            i <= all@.len(),
            t == text::texts(all@),
            text::texts(props@) + sections_from(t, i as int).props == sections(t).props,
            text::texts(blocks@) + sections_from(t, i as int).blocks == sections(t).blocks,
        decreases all@.len() - i,
    {
        assert(t[i as int] == all@[i as int]@);
        let ghost rest = sections_from(t, i as int);
        let line: String = copy_text(all[i].as_str());
        let upper: String = text::to_upper(line.as_str());
        if wrapper_line(upper.as_str()) {
            i = i + 1;
        } else if text_starts_with(upper.as_str(), "BEGIN:") {
            let end: usize = find_block_end(&all, i);
            let ghost had = text::texts(blocks@);
            let ghost first = i as int;
            while i < end
                invariant
                    0 <= first <= i <= end <= all@.len(),
                    t == text::texts(all@),
                    text::texts(blocks@) == had + t.subrange(first, i as int),
                decreases end - i,
            {
                let ghost before = text::texts(blocks@);
                blocks.push(copy_text(all[i].as_str()));
                assert(t.subrange(first, i + 1) =~= t.subrange(first, i as int).push(
                    t[i as int],
                ));
                assert(text::texts(blocks@) =~= had + t.subrange(first, i + 1));
                i = i + 1;
            }
            assert(text::texts(blocks@) + sections_from(t, i as int).blocks =~= had + (t.subrange(
                first,
                i as int,
            ) + sections_from(t, i as int).blocks));
        } else if text::is_empty(text::trimmed(line.as_str()).as_str()) {
            i = i + 1;
        } else {
            let ghost had = text::texts(props@);
            props.push(line);
            i = i + 1;
            assert(text::texts(props@) + sections_from(t, i as int).props =~= had + rest.props);
        }
    }
    assert(text::texts(props@) + Seq::<Seq<char>>::empty() =~= text::texts(props@));
    assert(text::texts(blocks@) + Seq::<Seq<char>>::empty() =~= text::texts(blocks@));
    (props, blocks)
}

fn upper_map(m: &TextMap) -> (r: TextMap)
    ensures
        r@ == upper_entries(m@),
{
    let mut out: TextMap = TextMap::new();
    let mut i: usize = 0;
    while i < m.len()
        invariant
            i <= m@.len(),
            out@ == upper_entries(m@.take(i as int)),
        decreases m@.len() - i,
    {
        assert(m@.take(i + 1).drop_last() =~= m@.take(i as int));
        let (k, v): (&String, &String) = m.entry(i);
        out.insert(text::to_upper(k.as_str()), copy_text(v.as_str()));
        i = i + 1;
    }
    assert(m@.take(m@.len() as int) =~= m@);
    out
}

fn is_deleted(delete: &TextSet, name: &str) -> (r: bool)
    ensures
        r == deletes(delete@, name@),
{
    let mut i: usize = 0;
    while i < delete.len()
        invariant
            i <= delete@.len(),
            forall|j: int| 0 <= j < i ==> #[trigger] text::uppercase(delete@[j]) != name@,
        decreases delete@.len() - i,
    {
        let d: String = text::to_upper(delete.item(i).as_str());
        if text::text_eq(d.as_str(), name) {
            assert(text::uppercase(delete@[i as int]) == name@);
            return true;
        }
        i = i + 1;
    }
    false
}

/// The property lines after deletion and replacement.
fn edit_props(props: &Vec<String>, set: &TextMap, delete: &TextSet) -> (r: Vec<String>)
    ensures
        text::texts(r@) == edited(text::texts(props@), set@, delete@),
{
    let mut out: Vec<String> = Vec::new();
    let ghost t = text::texts(props@);
    let mut i: usize = 0;
    assert(text::texts(out@) =~= seq![]);
    while i < props.len()
        invariant
            i <= props@.len(),
            t == text::texts(props@),
            text::texts(out@) == edited(t.take(i as int), set@, delete@),
        decreases props@.len() - i,
    {
        assert(t.take(i + 1).drop_last() =~= t.take(i as int));
        assert(t.take(i + 1).last() == props@[i as int]@);
        let line: String = copy_text(props[i].as_str());
        match prop_name(line.as_str()) {
            None => {
                out.push(line);
            },
            Some(name) => {
                if !is_deleted(delete, name.as_str()) {
                    match set.get(name.as_str()) {
                        Some(value) => {
                            out.push(text::concat2(name.as_str(), value.as_str()));
                        },
                        None => {
                            out.push(line);
                        },
                    }
                }
            },
        }
        i = i + 1;
    }
    assert(t.take(t.len() as int) =~= t);
    out
}

/// Whether a property of this name is among the lines and stays there.
fn name_kept(props: &Vec<String>, delete: &TextSet, name: &str) -> (r: bool)
    ensures
        r == keeps_name(text::texts(props@), delete@, name@),
{
    if is_deleted(delete, name) {
        return false;
    }
    let ghost t = text::texts(props@);
    let mut i: usize = 0;
    while i < props.len()
        invariant
            i <= props@.len(),
            t == text::texts(props@),
            !deletes(delete@, name@),
            forall|j: int| 0 <= j < i ==> #[trigger] lines::property_name(t[j]) != Some(name@),
        decreases props@.len() - i,
    {
        assert(t[i as int] == props@[i as int]@);
        match prop_name(props[i].as_str()) {
            Some(n) => {
                if text::text_eq(n.as_str(), name) {
                    assert(lines::property_name(t[i as int]) == Some(name@));
                    return true;
                }
            },
            None => {},
        }
        i = i + 1;
    }
    false
}

/// Appends the lines of the set properties that the card lacks.
fn add_missing(out: &mut Vec<String>, props: &Vec<String>, set: &TextMap, delete: &TextSet)
    ensures
        text::texts(final(out)@) == text::texts(old(out)@) + missing(
            text::texts(props@),
            set@,
            delete@,
        ),
{
    let ghost start = text::texts(out@);
    let ghost t = text::texts(props@);
    let mut i: usize = 0;
    assert(start + Seq::<Seq<char>>::empty() =~= start);
    while i < set.len()
        invariant
            i <= set@.len(),
            t == text::texts(props@),
            text::texts(out@) =~= start + missing(t, set@.take(i as int), delete@),
        decreases set@.len() - i,
    {
        assert(set@.take(i + 1).drop_last() =~= set@.take(i as int));
        let (k, v): (&String, &String) = set.entry(i);
        let name: String = text::to_upper(k.as_str());
        if !name_kept(props, delete, name.as_str()) {
            out.push(text::concat2(name.as_str(), v.as_str()));
        }
        i = i + 1;
    }
    assert(set@.take(set@.len() as int) =~= set@);
}

/// Applies a patch to a card and returns the card wrapped anew: no line is
/// added but those of the patch, and there is no line end behind the last.
pub fn patch_card(card: &str, patch: &CardPatch) -> (r: String)
    ensures
        r@ == lines::card_of(
            patched_lines(card@, patch.set@, patch.delete@, text::texts(patch.append@)),
        ),
{
    let set: TextMap = upper_map(&patch.set);
    let (props, blocks): (Vec<String>, Vec<String>) = split_sections(unfold_ical_lines(card));
    let mut out: Vec<String> = edit_props(&props, &set, &patch.delete);
    add_missing(&mut out, &props, &set, &patch.delete);
    append_new(&mut out, &patch.append);
    let mut all: Vec<String> = Vec::new();
    all.push(copy_text("BEGIN:VCALENDAR"));
    all.push(copy_text("BEGIN:VEVENT"));
    extend_texts(&mut all, &out);
    extend_texts(&mut all, &blocks);
    all.push(copy_text("END:VEVENT"));
    all.push(copy_text("END:VCALENDAR"));
    assert(text::texts(all@) =~= patched_lines(
        card@,
        patch.set@,
        patch.delete@,
        text::texts(patch.append@),
    ));
    lines::fold_card(&all)
}

// ---------------------------------------------------------------------
// What a patch keeps
// ---------------------------------------------------------------------

/// Every line after editing comes from a line of the card: that line as it
/// was, under a name that is neither deleted nor set, or the set value of
/// its name.
pub proof fn law_edited_lines(
    props: Seq<Seq<char>>,
    set: Seq<(Seq<char>, Seq<char>)>,
    delete: Seq<Seq<char>>,
    line: Seq<char>,
)
    requires
        edited(props, set, delete).contains(line),
    ensures
        exists|i: int|
            0 <= i < props.len() && edited_line(#[trigger] props[i], set, delete) == Some(line),
    decreases props.len(),
{
    let init = props.drop_last();
    let done = edited(init, set, delete);
    if edited_line(props.last(), set, delete) == Some(line) {
        assert(edited_line(props[props.len() - 1], set, delete) == Some(line));
    } else {
        let k = choose|k: int|
            0 <= k < edited(props, set, delete).len() && edited(props, set, delete)[k] == line;
        assert(done[k] == line);
        assert(done.contains(line));
        law_edited_lines(init, set, delete, line);
        let i = choose|i: int|
            0 <= i < init.len() && edited_line(#[trigger] init[i], set, delete) == Some(line);
        assert(edited_line(props[i], set, delete) == Some(line));
    }
}

/// A line of the card that the patch does not delete is there after
/// editing: as it was, or with the set value of its name.
pub proof fn law_undeleted_lines_stay(
    props: Seq<Seq<char>>,
    set: Seq<(Seq<char>, Seq<char>)>,
    delete: Seq<Seq<char>>,
    append: Seq<Seq<char>>,
    i: int,
)
    requires
        0 <= i < props.len(),
        edited_line(props[i], set, delete) is Some,
    ensures
        patched_props(props, set, delete, append).contains(
            edited_line(props[i], set, delete)->Some_0,
        ),
{
    lemma_edited_contains(props, set, delete, i);
    let e = edited(props, set, delete);
    let line = edited_line(props[i], set, delete)->Some_0;
    let k = choose|k: int| 0 <= k < e.len() && e[k] == line;
    let out = e + missing(props, set, delete);
    assert(out[k] == line);
    lists::law_appended(out, append);
    assert(lists::appended(out, append)[k] == line);
}

proof fn lemma_edited_contains(
    props: Seq<Seq<char>>,
    set: Seq<(Seq<char>, Seq<char>)>,
    delete: Seq<Seq<char>>,
    i: int,
)
    requires
        0 <= i < props.len(),
        edited_line(props[i], set, delete) is Some,
    ensures
        edited(props, set, delete).contains(edited_line(props[i], set, delete)->Some_0),
    decreases props.len(),
{
    let init = props.drop_last();
    let done = edited(init, set, delete);
    let line = edited_line(props[i], set, delete)->Some_0;
    let e = edited(props, set, delete);
    if i == props.len() - 1 {
        assert(e[e.len() - 1] == line);
    } else {
        assert(init[i] == props[i]);
        lemma_edited_contains(init, set, delete, i);
        let k = choose|k: int| 0 <= k < done.len() && done[k] == line;
        assert(e[k] == line);
    }
}

/// A property that the patch sets is in the patched card with the set value,
/// whether the card had it or not, and whether or not its old lines are
/// deleted.
pub proof fn law_set_property_present(
    props: Seq<Seq<char>>,
    set: Seq<(Seq<char>, Seq<char>)>,
    delete: Seq<Seq<char>>,
    append: Seq<Seq<char>>,
    k: int,
)
    requires
        0 <= k < set.len(),
        text::uppercase(set[k].0) == set[k].0,
        ordered::lookup(set, set[k].0) == Some(set[k].1),
    ensures
        patched_props(props, set, delete, append).contains(set[k].0 + set[k].1),
{
    let name = set[k].0;
    let line = name + set[k].1;
    let e = edited(props, set, delete);
    let out = e + missing(props, set, delete);
    if keeps_name(props, delete, name) {
        let i = choose|i: int|
            0 <= i < props.len() && #[trigger] lines::property_name(props[i]) == Some(name);
        assert(edited_line(props[i], set, delete) == Some(line));
        law_undeleted_lines_stay(props, set, delete, append, i);
    } else {
        lemma_missing_contains(props, set, delete, k);
        let m = missing(props, set, delete);
        let j = choose|j: int| 0 <= j < m.len() && m[j] == line;
        assert(out[e.len() + j] == line);
        lists::law_appended(out, append);
        assert(lists::appended(out, append).take(out.len() as int)[e.len() + j] == line);
        assert(lists::appended(out, append)[e.len() + j] == line);
    }
}

/// A property that the patch sets has one value afterwards, however many
/// lines of it the card had: each of them becomes the set one, and any other
/// line comes from a line of another name.
pub proof fn law_set_replaces_every_line(
    props: Seq<Seq<char>>,
    set: Seq<(Seq<char>, Seq<char>)>,
    delete: Seq<Seq<char>>,
    name: Seq<char>,
    k: int,
)
    requires
        ordered::lookup(set, name) is Some,
        0 <= k < edited(props, set, delete).len(),
    ensures
        edited(props, set, delete)[k] == name + ordered::lookup(set, name)->Some_0 || exists|i: int|
            0 <= i < props.len() && lines::property_name(props[i]) != Some(name) && edited_line(
                #[trigger] props[i],
                set,
                delete,
            ) == Some(edited(props, set, delete)[k]),
    decreases props.len(),
{
    let line = edited(props, set, delete)[k];
    let init = props.drop_last();
    let last = props.len() - 1;
    assert(props.last() == props[last]);
    if k < edited(init, set, delete).len() {
        law_set_replaces_every_line(init, set, delete, name, k);
        assert(line == edited(init, set, delete)[k]);
        if line != name + ordered::lookup(set, name)->Some_0 {
            let i = choose|i: int|
                0 <= i < init.len() && lines::property_name(init[i]) != Some(name) && edited_line(
                    #[trigger] init[i],
                    set,
                    delete,
                ) == Some(line);
            assert(init[i] == props[i]);
        }
    } else {
        assert(edited_line(props[last], set, delete) == Some(line));
    }
}

proof fn lemma_missing_contains(
    props: Seq<Seq<char>>,
    set: Seq<(Seq<char>, Seq<char>)>,
    delete: Seq<Seq<char>>,
    k: int,
)
    requires
        0 <= k < set.len(),
        text::uppercase(set[k].0) == set[k].0,
        !keeps_name(props, delete, set[k].0),
    ensures
        missing(props, set, delete).contains(set[k].0 + set[k].1),
    decreases set.len(),
{
    let init = set.drop_last();
    let m = missing(props, set, delete);
    let line = set[k].0 + set[k].1;
    if k == set.len() - 1 {
        assert(m[m.len() - 1] == line);
    } else {
        assert(init[k] == set[k]);
        lemma_missing_contains(props, init, delete, k);
        let done = missing(props, init, delete);
        let j = choose|j: int| 0 <= j < done.len() && done[j] == line;
        assert(m[j] == line);
    }
}

/// A line under a deleted name goes: the card is edited as if the line had
/// not been there, and none of that name counts as kept.
pub proof fn law_deleted_name_absent(
    props: Seq<Seq<char>>,
    set: Seq<(Seq<char>, Seq<char>)>,
    delete: Seq<Seq<char>>,
    i: int,
)
    requires
        0 <= i < props.len(),
        lines::property_name(props[i]) matches Some(name) && deletes(delete, name),
    ensures
        edited_line(props[i], set, delete) is None,
        edited(props, set, delete) == edited(props.remove(i), set, delete),
        !keeps_name(props, delete, lines::property_name(props[i])->Some_0),
    decreases props.len(),
{
    let init = props.drop_last();
    if i == props.len() - 1 {
        assert(props.remove(i) =~= init);
    } else {
        assert(init[i] == props[i]);
        law_deleted_name_absent(init, set, delete, i);
        assert(props.remove(i).drop_last() =~= init.remove(i));
        assert(props.remove(i).last() == props.last());
    }
}

/// A content line: no line end in it, and not a continuation.
pub open spec fn content_line(line: Seq<char>) -> bool {
    lines::one_line(line) && !lines::is_continuation(line)
}

pub open spec fn content_lines(s: Seq<Seq<char>>) -> bool {
    forall|i: int| 0 <= i < s.len() ==> content_line(#[trigger] s[i])
}

/// Lines that a patch sets are content lines, under the given name and
/// under the upper-cased one.
pub open spec fn sets_content_lines(set: Seq<(Seq<char>, Seq<char>)>) -> bool {
    forall|i: int|
        0 <= i < set.len() ==> content_line(#[trigger] set[i].0 + set[i].1) && content_line(
            text::uppercase(set[i].0) + set[i].1,
        )
}

proof fn lemma_sections_content(all: Seq<Seq<char>>, i: int)
    requires
        0 <= i,
        content_lines(all),
    ensures
        content_lines(sections_from(all, i).props),
        content_lines(sections_from(all, i).blocks),
    decreases all.len() - i,
{
    if i < all.len() {
        let st = sections_from(all, i);
        let line = all[i];
        if !is_wrapper(text::uppercase(line)) && begins(line) {
            let j = block_end(all, i);
            lemma_block_end(all, i);
            lemma_sections_content(all, j);
            assert forall|k: int| 0 <= k < st.blocks.len() implies content_line(
                #[trigger] st.blocks[k],
            ) by {
                if k < j - i {
                    assert(st.blocks[k] == all[i + k]);
                } else {
                    assert(st.blocks[k] == sections_from(all, j).blocks[k - (j - i)]);
                }
            }
        } else {
            lemma_sections_content(all, i + 1);
            assert forall|k: int| 0 <= k < st.props.len() implies content_line(
                #[trigger] st.props[k],
            ) by {
                let rest = sections_from(all, i + 1);
                if st.props.len() > rest.props.len() {
                    if k > 0 {
                        assert(st.props[k] == rest.props[k - 1]);
                    } else {
                        assert(st.props[0] == all[i]);
                    }
                }
            }
        }
    }
}

pub proof fn lemma_lookup_at(set: Seq<(Seq<char>, Seq<char>)>, name: Seq<char>)
    requires
        ordered::lookup(set, name) is Some,
    ensures
        exists|i: int|
            0 <= i < set.len() && #[trigger] set[i] == (
                name,
                ordered::lookup(set, name)->Some_0,
            ),
    decreases set.len(),
{
    if set[0].0 == name {
        assert(set[0] == (name, ordered::lookup(set, name)->Some_0));
    } else {
        lemma_lookup_at(set.skip(1), name);
        let i = choose|i: int|
            0 <= i < set.skip(1).len() && #[trigger] set.skip(1)[i] == (
                name,
                ordered::lookup(set, name)->Some_0,
            );
        assert(set[i + 1] == (name, ordered::lookup(set, name)->Some_0));
    }
}

proof fn lemma_edited_content(
    props: Seq<Seq<char>>,
    set: Seq<(Seq<char>, Seq<char>)>,
    delete: Seq<Seq<char>>,
)
    requires
        content_lines(props),
        sets_content_lines(set),
    ensures
        content_lines(edited(props, set, delete)),
    decreases props.len(),
{
    if props.len() > 0 {
        assert forall|i: int| 0 <= i < props.drop_last().len() implies content_line(
            #[trigger] props.drop_last()[i],
        ) by {
            assert(content_line(props[i]));
        }
        lemma_edited_content(props.drop_last(), set, delete);
        assert(content_line(props[props.len() - 1]));
        if let Some(name) = lines::property_name(props.last()) {
            if ordered::lookup(set, name) is Some {
                lemma_lookup_at(set, name);
                let v = ordered::lookup(set, name)->Some_0;
                let i = choose|i: int| 0 <= i < set.len() && #[trigger] set[i] == (name, v);
                assert(content_line(set[i].0 + set[i].1));
            }
        }
    }
}

proof fn lemma_missing_content(
    props: Seq<Seq<char>>,
    set: Seq<(Seq<char>, Seq<char>)>,
    delete: Seq<Seq<char>>,
)
    requires
        sets_content_lines(set),
    ensures
        content_lines(missing(props, set, delete)),
    decreases set.len(),
{
    if set.len() > 0 {
        let init = set.drop_last();
        assert forall|i: int| 0 <= i < init.len() implies content_line(
            #[trigger] init[i].0 + init[i].1,
        ) && content_line(text::uppercase(init[i].0) + init[i].1) by {
            assert(content_line(set[i].0 + set[i].1));
        }
        lemma_missing_content(props, init, delete);
        assert(content_line(set[set.len() - 1].0 + set[set.len() - 1].1));
    }
}

/// A patched card unfolds to its content lines: what the patch makes of the
/// property lines, then the nested components as they were. It holds for a
/// card none of whose unfolded lines starts with a space or a tab, and a
/// patch that adds content lines.
pub proof fn law_patched_card_reads_back(
    card: Seq<char>,
    set: Seq<(Seq<char>, Seq<char>)>,
    delete: Seq<Seq<char>>,
    append: Seq<Seq<char>>,
)
    requires
        forall|i: int|
            0 <= i < lines::unfold(lines::card_lines(card)).len() ==> !lines::is_continuation(
                #[trigger] lines::unfold(lines::card_lines(card))[i],
            ),
        sets_content_lines(upper_entries(set)),
        content_lines(append),
    ensures
        lines::unfold(
            lines::card_lines(lines::card_of(patched_lines(card, set, delete, append))),
        ) == patched_lines(card, set, delete, append),
        content_lines(patched_lines(card, set, delete, append)),
{
    let all = lines::unfold(lines::card_lines(card));
    let st = sections(all);
    let out = edited(st.props, upper_entries(set), delete) + missing(
        st.props,
        upper_entries(set),
        delete,
    );
    lines::lemma_unfolded_lines(card);
    assert forall|i: int| 0 <= i < all.len() implies content_line(#[trigger] all[i]) by {}
    lemma_sections_content(all, 0);
    lemma_edited_content(st.props, upper_entries(set), delete);
    lemma_missing_content(st.props, upper_entries(set), delete);
    lists::law_appended(out, append);
    let p = lists::appended(out, append);
    assert forall|i: int| 0 <= i < p.len() implies content_line(#[trigger] p[i]) by {
        if i < out.len() {
            assert(p.take(out.len() as int)[i] == p[i]);
            assert(out[i] == p[i]);
        } else {
            assert(append.contains(p[i]));
        }
    }
    let r = patched_lines(card, set, delete, append);
    reveal_strlit("BEGIN:VCALENDAR");
    reveal_strlit("BEGIN:VEVENT");
    reveal_strlit("END:VEVENT");
    reveal_strlit("END:VCALENDAR");
    assert forall|i: int| 0 <= i < r.len() implies lines::one_line(#[trigger] r[i])
        && !lines::is_continuation(r[i]) by {
        if 2 <= i < 2 + p.len() {
            assert(r[i] == p[i - 2]);
        } else if 2 + p.len() <= i < 2 + p.len() + st.blocks.len() {
            assert(r[i] == st.blocks[i - 2 - p.len()]);
        }
    }
    lines::law_unfold_inverts_fold(r);
}

// ---------------------------------------------------------------------
// Patching twice
// ---------------------------------------------------------------------

/// A line that is read as a property where no component is open.
spec fn is_property(line: Seq<char>) -> bool {
    !is_wrapper(text::uppercase(line)) && !begins(line) && text::trim(line).len() > 0
}

proof fn lemma_props_are_properties(l: Seq<Seq<char>>, i: int)
    requires
        0 <= i,
    ensures
        forall|k: int|
            0 <= k < sections_from(l, i).props.len() ==> is_property(
                #[trigger] sections_from(l, i).props[k],
            ),
    decreases l.len() - i,
{
    if i < l.len() {
        let st = sections_from(l, i);
        if !is_wrapper(text::uppercase(l[i])) && begins(l[i]) {
            lemma_block_end(l, i);
            lemma_props_are_properties(l, block_end(l, i));
            assert(st.props == sections_from(l, block_end(l, i)).props);
        } else {
            lemma_props_are_properties(l, i + 1);
            let rest = sections_from(l, i + 1);
            assert forall|k: int| 0 <= k < st.props.len() implies is_property(
                #[trigger] st.props[k],
            ) by {
                if st.props.len() == rest.props.len() {
                    assert(st.props == rest.props);
                } else if k > 0 {
                    assert(st.props[k] == rest.props[k - 1]);
                } else {
                    assert(st.props[0] == l[i]);
                }
            }
        }
    }
}

/// Properties in front of other lines are read as such.
proof fn lemma_properties_again(l: Seq<Seq<char>>, i: int, n: int)
    requires
        0 <= i,
        0 <= n,
        i + n <= l.len(),
        forall|k: int| i <= k < i + n ==> is_property(#[trigger] l[k]),
    ensures
        sections_from(l, i) == (Sections {
            props: l.subrange(i, i + n) + sections_from(l, i + n).props,
            blocks: sections_from(l, i + n).blocks,
        }),
    decreases n,
{
    let rest = sections_from(l, i + n);
    if n == 0 {
        assert(l.subrange(i, i) + rest.props =~= rest.props);
    } else {
        assert(is_property(l[i]));
        lemma_properties_again(l, i + 1, n - 1);
        assert(seq![l[i]] + (l.subrange(i + 1, i + n) + rest.props) =~= l.subrange(i, i + n)
            + rest.props);
    }
}

/// What closes a component by name closes it elsewhere too, where the lines
/// up to there are the same.
proof fn lemma_closes_again(
    l: Seq<Seq<char>>,
    i: int,
    j: int,
    m: Seq<Seq<char>>,
    k: int,
    name: Seq<char>,
    open: int,
)
    requires
        0 <= i <= j <= l.len(),
        0 <= k,
        k + (j - i) <= m.len(),
        l.subrange(i, j) == m.subrange(k, k + (j - i)),
        close_at(l, i, name, open) == Some(j),
    ensures
        close_at(m, k, name, open) == Some(k + (j - i)),
    decreases j - i,
{
    lemma_close_at(l, i, name, open);
    assert(l.subrange(i, j)[0] == l[i]);
    assert(m.subrange(k, k + (j - i))[0] == m[k]);
    let next = if begins_as(l[i], name) {
        open + 1
    } else if ends_as(l[i], name) {
        open - 1
    } else {
        open
    };
    if !(!begins_as(l[i], name) && ends_as(l[i], name) && open <= 1) {
        assert(close_at(l, i + 1, name, next) == Some(j));
        assert(l.subrange(i + 1, j) =~= l.subrange(i, j).skip(1));
        assert(m.subrange(k + 1, k + (j - i)) =~= m.subrange(k, k + (j - i)).skip(1));
        lemma_close_at(l, i + 1, name, next);
        lemma_closes_again(l, i + 1, j, m, k + 1, name, next);
    }
}

/// The next end is found elsewhere too, where the lines up to there are the
/// same.
proof fn lemma_next_end_again(l: Seq<Seq<char>>, i: int, j: int, m: Seq<Seq<char>>, k: int)
    requires
        0 <= i < j <= l.len(),
        0 <= k,
        k + (j - i) <= m.len(),
        l.subrange(i, j) == m.subrange(k, k + (j - i)),
        next_end(l, i) == j,
        ends(l[j - 1]),
    ensures
        next_end(m, k) == k + (j - i),
    decreases j - i,
{
    assert(l.subrange(i, j)[0] == l[i]);
    assert(m.subrange(k, k + (j - i))[0] == m[k]);
    if !ends(l[i]) {
        lemma_next_end(l, i + 1);
        assert(l.subrange(i + 1, j) =~= l.subrange(i, j).skip(1));
        assert(m.subrange(k + 1, k + (j - i)) =~= m.subrange(k, k + (j - i)).skip(1));
        lemma_next_end_again(l, i + 1, j, m, k + 1);
    }
}

proof fn lemma_next_end_ends(l: Seq<Seq<char>>, i: int, k: int)
    requires
        0 <= i <= k < l.len(),
        ends(l[k]),
    ensures
        i < next_end(l, i) <= l.len(),
        ends(l[next_end(l, i) - 1]),
    decreases k - i,
{
    lemma_next_end(l, i);
    if !ends(l[i]) {
        lemma_next_end_ends(l, i + 1, k);
    }
}

/// The lines behind the blocks of a card.
spec fn closing() -> Seq<Seq<char>> {
    seq!["END:VEVENT"@, "END:VCALENDAR"@]
}

/// A name of no wrapper line.
spec fn is_nested_name(name: Seq<char>) -> bool {
    !text::starts_with(name, "VEVENT"@) && !text::starts_with(name, "VCALENDAR"@)
}

proof fn lemma_nested_name(line: Seq<char>)
    requires
        begins(line),
        !is_wrapper(text::uppercase(line)),
    ensures
        is_nested_name(text::uppercase(line).skip(6)),
{
    reveal_strlit("BEGIN:");
    reveal_strlit("BEGIN:VEVENT");
    reveal_strlit("BEGIN:VCALENDAR");
    reveal_strlit("VEVENT");
    reveal_strlit("VCALENDAR");
    let u = text::uppercase(line);
    let n = u.skip(6);
    if text::starts_with(n, "VEVENT"@) {
        assert(u.take(12) =~= u.take(6) + n.take(6));
        assert("BEGIN:VEVENT"@ =~= "BEGIN:"@ + "VEVENT"@);
    }
    if text::starts_with(n, "VCALENDAR"@) {
        assert(u.take(15) =~= u.take(6) + n.take(9));
        assert("BEGIN:VCALENDAR"@ =~= "BEGIN:"@ + "VCALENDAR"@);
    }
}

/// A wrapper line neither starts nor ends a component of another name.
proof fn lemma_wrapper_marks(line: Seq<char>, name: Seq<char>)
    requires
        is_wrapper(text::uppercase(line)),
        is_nested_name(name),
    ensures
        !begins_as(line, name),
        !ends_as(line, name),
{
    reveal_strlit("BEGIN:");
    reveal_strlit("END:");
    reveal_strlit("BEGIN:VEVENT");
    reveal_strlit("BEGIN:VCALENDAR");
    reveal_strlit("END:VEVENT");
    reveal_strlit("END:VCALENDAR");
    reveal_strlit("VEVENT");
    reveal_strlit("VCALENDAR");
    let u = text::uppercase(line);
    if begins(line) {
        let n = u.skip(6);
        assert(u.take(6)[0] == 'B');
        assert(u[0] == 'B');
        if text::starts_with(u, "END:VEVENT"@) {
            assert(u.take(10)[0] == u[0]);
        }
        if text::starts_with(u, "END:VCALENDAR"@) {
            assert(u.take(13)[0] == u[0]);
        }
        if text::starts_with(u, "BEGIN:VEVENT"@) {
            assert(n.take(6) =~= u.take(12).skip(6));
            assert("BEGIN:VEVENT"@.skip(6) =~= "VEVENT"@);
        } else {
            assert(n.take(9) =~= u.take(15).skip(6));
            assert("BEGIN:VCALENDAR"@.skip(6) =~= "VCALENDAR"@);
        }
    }
    if ends(line) {
        let n = u.skip(4);
        assert(u.take(4)[0] == 'E');
        assert(u[0] == 'E');
        if text::starts_with(u, "BEGIN:VEVENT"@) {
            assert(u.take(12)[0] == u[0]);
        }
        if text::starts_with(u, "BEGIN:VCALENDAR"@) {
            assert(u.take(15)[0] == u[0]);
        }
        if text::starts_with(u, "END:VEVENT"@) {
            assert(n.take(6) =~= u.take(10).skip(4));
            assert("END:VEVENT"@.skip(4) =~= "VEVENT"@);
        } else {
            assert(n.take(9) =~= u.take(13).skip(4));
            assert("END:VCALENDAR"@.skip(4) =~= "VCALENDAR"@);
        }
    }
}

/// What no line of a card closes, no line of its blocks closes either. The
/// lines from `i` to `j` are those of a block.
proof fn lemma_open_again(
    l: Seq<Seq<char>>,
    i: int,
    j: int,
    m: Seq<Seq<char>>,
    k: int,
    name: Seq<char>,
    open: int,
    more: int,
)
    requires
        0 <= i <= j <= l.len(),
        0 <= k <= m.len(),
        m.skip(k) == l.subrange(i, j) + sections_from(l, j).blocks + closing(),
        is_nested_name(name),
        1 <= open <= more,
        close_at(l, i, name, open) is None,
    ensures
        close_at(m, k, name, more) is None,
    decreases l.len() - i, (if i == j { 1int } else { 0 }),
{
    let rest = sections_from(l, j).blocks;
    if i < j {
        let whole = l.subrange(i, j) + rest + closing();
        assert(whole[0] == l[i]);
        assert(m.skip(k).len() == m.len() - k);
        assert(m.skip(k)[0] == m[k]);
        assert(m[k] == l[i]);
        assert(m.skip(k + 1) =~= l.subrange(i + 1, j) + rest + closing()) by {
            assert(m.skip(k + 1) =~= m.skip(k).skip(1));
            assert((l.subrange(i, j) + rest + closing()).skip(1) =~= l.subrange(i + 1, j) + rest
                + closing());
        }
        if begins_as(l[i], name) {
            lemma_open_again(l, i + 1, j, m, k + 1, name, open + 1, more + 1);
        } else if ends_as(l[i], name) {
            lemma_open_again(l, i + 1, j, m, k + 1, name, open - 1, more - 1);
        } else {
            lemma_open_again(l, i + 1, j, m, k + 1, name, open, more);
        }
    } else if i == l.len() {
        assert(l.subrange(i, j) + rest + closing() =~= closing());
        assert(m.len() == k + 2);
        assert(m[k] == m.skip(k)[0]);
        assert(m[k + 1] == m.skip(k)[1]);
        lemma_wrapper_lines();
        lemma_wrapper_marks(m[k], name);
        lemma_wrapper_marks(m[k + 1], name);
        assert(close_at(m, k + 2, name, more) is None);
        assert(close_at(m, k + 1, name, more) is None);
    } else if is_wrapper(text::uppercase(l[i])) {
        lemma_wrapper_marks(l[i], name);
        assert(l.subrange(i, j) + rest =~= l.subrange(i + 1, i + 1) + sections_from(
            l,
            i + 1,
        ).blocks);
        lemma_open_again(l, i + 1, i + 1, m, k, name, open, more);
    } else if begins(l[i]) {
        let e = block_end(l, i);
        lemma_block_end(l, i);
        assert(l.subrange(i, j) + rest =~= l.subrange(i, e) + sections_from(l, e).blocks);
        lemma_open_again(l, i, e, m, k, name, open, more);
    } else {
        assert(l.subrange(i, j) + rest =~= l.subrange(i + 1, i + 1) + sections_from(
            l,
            i + 1,
        ).blocks);
        if ends_as(l[i], name) {
            lemma_open_again(l, i + 1, i + 1, m, k, name, open - 1, more);
        } else {
            lemma_open_again(l, i + 1, i + 1, m, k, name, open, more);
        }
    }
}

/// Every start of a nested component has some end behind it.
pub open spec fn ends_follow(l: Seq<Seq<char>>) -> bool {
    forall|i: int|
        0 <= i < l.len() && begins(#[trigger] l[i]) && !is_wrapper(text::uppercase(l[i]))
            ==> exists|j: int| i < j < l.len() && ends(#[trigger] l[j])
}

/// The blocks of a card are read as the same blocks.
proof fn lemma_blocks_again(l: Seq<Seq<char>>, i: int, m: Seq<Seq<char>>, k: int)
    requires
        0 <= i,
        0 <= k <= m.len(),
        ends_follow(l),
        m.skip(k) == sections_from(l, i).blocks + closing(),
    ensures
        sections_from(m, k) == (Sections { props: seq![], blocks: sections_from(l, i).blocks }),
    decreases l.len() - i,
{
    if i >= l.len() {
        assert(sections_from(l, i).blocks + closing() =~= closing());
        assert(m.len() == k + 2);
        assert(m[k] == m.skip(k)[0]);
        assert(m[k + 1] == m.skip(k)[1]);
        lemma_wrapper_lines();
        assert(sections_from(m, k + 2) == (Sections { props: seq![], blocks: seq![] }));
        assert(sections_from(m, k + 1) == sections_from(m, k + 2));
    } else if !is_wrapper(text::uppercase(l[i])) && begins(l[i]) {
        let e = block_end(l, i);
        let n = e - i;
        let rest = sections_from(l, e).blocks;
        let name = text::uppercase(l[i]).skip(6);
        lemma_block_end(l, i);
        let whole = l.subrange(i, e) + (rest + closing());
        assert(sections_from(l, i).blocks + closing() =~= whole);
        assert(m.skip(k) == whole);
        assert(whole[0] == l[i]);
        assert(m.skip(k)[0] == m[k]);
        assert(m[k] == l[i]);
        assert(m.skip(k + n) =~= rest + closing()) by {
            assert(m.skip(k + n) =~= m.skip(k).skip(n));
            assert((l.subrange(i, e) + (rest + closing())).skip(n) =~= rest + closing());
        }
        assert(m.subrange(k, k + n) =~= l.subrange(i, e)) by {
            assert(m.subrange(k, k + n) =~= m.skip(k).take(n));
            assert((l.subrange(i, e) + (rest + closing())).take(n) =~= l.subrange(i, e));
        }
        assert(m.subrange(k + 1, k + n) =~= l.subrange(i + 1, e)) by {
            assert(m.subrange(k + 1, k + n) =~= m.subrange(k, k + n).skip(1));
            assert(l.subrange(i + 1, e) =~= l.subrange(i, e).skip(1));
        }
        assert(block_end(m, k) == k + n) by {
            if close_at(l, i + 1, name, 1) is Some {
                lemma_closes_again(l, i + 1, e, m, k + 1, name, 1);
            } else {
                lemma_nested_name(l[i]);
                assert(m.skip(k + 1) =~= l.subrange(i + 1, e) + rest + closing()) by {
                    assert(m.skip(k + 1) =~= m.subrange(k + 1, k + n) + m.skip(k + n));
                }
                lemma_open_again(l, i + 1, e, m, k + 1, name, 1, 1);
                let j = choose|j: int| i < j < l.len() && ends(#[trigger] l[j]);
                lemma_next_end_ends(l, i + 1, j);
                lemma_next_end_again(l, i + 1, e, m, k + 1);
            }
        }
        lemma_blocks_again(l, e, m, k + n);
        assert(sections_from(m, k).blocks =~= sections_from(l, i).blocks);
    } else {
        lemma_blocks_again(l, i + 1, m, k);
    }
}

proof fn lemma_edited_by_nothing(props: Seq<Seq<char>>)
    ensures
        edited(props, seq![], seq![]) == props,
    decreases props.len(),
{
    if props.len() > 0 {
        lemma_edited_by_nothing(props.drop_last());
        let none = Seq::<(Seq<char>, Seq<char>)>::empty();
        assert(edited_line(props.last(), none, seq![]) == Some(props.last()));
        assert(props =~= props.drop_last().push(props.last()));
    } else {
        assert(edited(props, seq![], seq![]) =~= props);
    }
}

proof fn lemma_wrapper_lines()
    ensures
        is_wrapper(text::uppercase("BEGIN:VCALENDAR"@)),
        is_wrapper(text::uppercase("BEGIN:VEVENT"@)),
        is_wrapper(text::uppercase("END:VEVENT"@)),
        is_wrapper(text::uppercase("END:VCALENDAR"@)),
{
    reveal_strlit("BEGIN:VCALENDAR");
    reveal_strlit("BEGIN:VEVENT");
    reveal_strlit("END:VEVENT");
    reveal_strlit("END:VCALENDAR");
    assert(text::ascii_uppercase("BEGIN:VCALENDAR"@) =~= "BEGIN:VCALENDAR"@);
    assert(text::ascii_uppercase("BEGIN:VEVENT"@) =~= "BEGIN:VEVENT"@);
    assert(text::ascii_uppercase("END:VEVENT"@) =~= "END:VEVENT"@);
    assert(text::ascii_uppercase("END:VCALENDAR"@) =~= "END:VCALENDAR"@);
    assert("BEGIN:VCALENDAR"@.take("BEGIN:VCALENDAR"@.len() as int) =~= "BEGIN:VCALENDAR"@);
    assert("BEGIN:VEVENT"@.take("BEGIN:VEVENT"@.len() as int) =~= "BEGIN:VEVENT"@);
    assert("END:VEVENT"@.take("END:VEVENT"@.len() as int) =~= "END:VEVENT"@);
    assert("END:VCALENDAR"@.take("END:VCALENDAR"@.len() as int) =~= "END:VCALENDAR"@);
}

/// A card that a patch of nothing has been through is in its final form: the
/// same patch leaves it as it is. It holds for a card none of whose unfolded
/// lines starts with a space or a tab, and in which some end follows every
/// start of a nested component.
pub proof fn law_empty_patch_settles(card: Seq<char>)
    requires
        forall|i: int|
            0 <= i < lines::unfold(lines::card_lines(card)).len() ==> !lines::is_continuation(
                #[trigger] lines::unfold(lines::card_lines(card))[i],
            ),
        ends_follow(lines::unfold(lines::card_lines(card))),
    ensures
        ({
            let once = lines::card_of(patched_lines(card, seq![], seq![], seq![]));
            lines::card_of(patched_lines(once, seq![], seq![], seq![])) == once
        }),
{
    let none = Seq::<(Seq<char>, Seq<char>)>::empty();
    let all = lines::unfold(lines::card_lines(card));
    let st = sections(all);
    let first = patched_lines(card, none, seq![], seq![]);
    law_patched_card_reads_back(card, none, seq![], seq![]);
    lemma_edited_by_nothing(st.props);
    assert(missing(st.props, none, seq![]) =~= seq![]);
    assert(st.props + Seq::<Seq<char>>::empty() =~= st.props);
    let head = seq!["BEGIN:VCALENDAR"@, "BEGIN:VEVENT"@];
    let n = st.props.len() as int;
    assert(first == head + st.props + st.blocks + closing());
    lemma_wrapper_lines();
    assert(first[0] == head[0] && first[1] == head[1]);
    assert(sections(first) == sections_from(first, 2)) by {
        assert(sections_from(first, 0) == sections_from(first, 1));
    }
    lemma_props_are_properties(all, 0);
    assert forall|k: int| 2 <= k < 2 + n implies is_property(#[trigger] first[k]) by {
        assert(first[k] == st.props[k - 2]);
    }
    lemma_properties_again(first, 2, n);
    assert(first.subrange(2, 2 + n) =~= st.props);
    assert(first.skip(2 + n) =~= st.blocks + closing());
    lemma_blocks_again(all, 0, first, 2 + n);
    assert(sections(first).props =~= st.props);
    assert(sections(first) == st);
    lemma_edited_by_nothing(st.props);
}

// ---------------------------------------------------------------------
// Colors
// ---------------------------------------------------------------------

/// The accent colors, by name and upper-case hex. The server takes no other.
pub const ACCENT_PALETTE: [(&'static str, &'static str); 20] = [
    ("purple", "#8080FF"),
    ("pink", "#DB60D6"),
    ("strawberry", "#EC3E7C"),
    ("carrot", "#F78400"),
    ("sahara", "#936D58"),
    ("enzian", "#5252CC"),
    ("plum", "#A839A4"),
    ("cerise", "#BA1E55"),
    ("copper", "#C44800"),
    ("soil", "#54473F"),
    ("slateblue", "#415DF0"),
    ("pacific", "#179FD9"),
    ("reef", "#1DA583"),
    ("fern", "#3CBB3A"),
    ("olive", "#B4A40E"),
    ("cobalt", "#273EB2"),
    ("ocean", "#0A77A6"),
    ("pine", "#0F735A"),
    ("forest", "#258723"),
    ("pickle", "#807304"),
];

/// The word that stands for the color of the calendar itself.
pub const COLOR_DEFAULT_SENTINEL: &'static str = "default";

/// Place of the first palette color with this hex, from `from` on.
pub open spec fn hex_at(hex: Seq<char>, from: int) -> Option<int>
    decreases ACCENT_PALETTE@.len() - from,
{
    if from < 0 || from >= ACCENT_PALETTE@.len() {
        None
    } else if ACCENT_PALETTE@[from].1@ == hex {
        Some(from)
    } else {
        hex_at(hex, from + 1)
    }
}

/// Place of the first palette color with this name, in any case, from `from`
/// on.
pub open spec fn color_at(name: Seq<char>, from: int) -> Option<int>
    decreases ACCENT_PALETTE@.len() - from,
{
    if from < 0 || from >= ACCENT_PALETTE@.len() {
        None
    } else if text::same_ignoring_case(ACCENT_PALETTE@[from].0@, name) {
        Some(from)
    } else {
        color_at(name, from + 1)
    }
}

fn find_hex(hex: &str) -> (r: Option<usize>)
    ensures
        match r {
            Some(i) => i < 20 && hex_at(hex@, 0) == Some(i as int),
            None => hex_at(hex@, 0) is None,
        },
{
    let mut i: usize = 0;
    while i < 20
        invariant
            i <= 20,
            hex_at(hex@, 0) == hex_at(hex@, i as int),
        decreases 20 - i,
    {
        if text_eq(ACCENT_PALETTE[i].1, hex) {
            return Some(i);
        }
        i = i + 1;
    }
    None
}

fn find_color(name: &str) -> (r: Option<usize>)
    ensures
        match r {
            Some(i) => i < 20 && color_at(name@, 0) == Some(i as int),
            None => color_at(name@, 0) is None,
        },
{
    let mut i: usize = 0;
    while i < 20
        invariant
            i <= 20,
            color_at(name@, 0) == color_at(name@, i as int),
        decreases 20 - i,
    {
        if eq_ignoring_case(ACCENT_PALETTE[i].0, name) {
            return Some(i);
        }
        i = i + 1;
    }
    None
}

/// Whether a hex (`#RRGGBB`, in any case) is a palette color.
pub fn valid_color(hex: &str) -> (r: bool)
    ensures
        r == (hex_at(text::uppercase(hex@), 0) is Some),
{
    let upper: String = to_upper(hex);
    find_hex(upper.as_str()).is_some()
}

/// The name of a palette color.
pub fn color_name(hex: &str) -> (r: Option<&'static str>)
    ensures
        match (r, hex_at(text::uppercase(hex@), 0)) {
            (Some(n), Some(i)) => n@ == ACCENT_PALETTE@[i].0@,
            (None, None) => true,
            _ => false,
        },
{
    let upper: String = to_upper(hex);
    match find_hex(upper.as_str()) {
        Some(i) => Some(ACCENT_PALETTE[i].0),
        None => None,
    }
}

/// What `{:?}` prints for a string.
pub uninterp spec fn quoted_form(s: Seq<char>) -> Seq<char>;

/// The `Debug` form of a string, quoted and escaped by `std`. What it prints
/// is only named here.
#[verifier::external_body]
fn quoted(s: &str) -> (r: String)
    ensures
        r@ == quoted_form(s@),
{
    format!("{:?}", s)
}

/// The hex that a name or a hex, with or without its `#`, stands for; the
/// error text for anything else. The word for the calendar color is no
/// palette color.
pub open spec fn resolved_color(spec: Seq<char>) -> Result<Seq<char>, Seq<char>> {
    let s = text::trim(spec);
    let up = text::uppercase(s);
    let hex = if up.len() > 0 && up[0] == '#' {
        up
    } else {
        seq!['#'] + up
    };
    if s.len() == 0 {
        Err("invalid color: empty color"@)
    } else if text::same_ignoring_case(s, COLOR_DEFAULT_SENTINEL@) {
        Err("invalid color: \"default\" means the calendar color, not a palette entry"@)
    } else if color_at(s, 0) is Some {
        Ok(ACCENT_PALETTE@[color_at(s, 0)->Some_0].1@)
    } else {
        match hex_at(text::uppercase(hex), 0) {
            Some(i) => Ok(ACCENT_PALETTE@[i].1@),
            None => Err("invalid color "@ + quoted_form(spec) + "; use a palette hex or name"@),
        }
    }
}

/// Resolves a color name or hex to the upper-case hex.
pub fn resolve_color(spec: &str) -> (r: Result<String, String>)
    ensures
        match r {
            Ok(h) => resolved_color(spec@) == Ok::<Seq<char>, Seq<char>>(h@),
            Err(e) => resolved_color(spec@) == Err::<Seq<char>, Seq<char>>(e@),
        },
{
    let s: String = trimmed(spec);
    if text::is_empty(s.as_str()) {
        return Err(copy_text("invalid color: empty color"));
    }
    if eq_ignoring_case(s.as_str(), COLOR_DEFAULT_SENTINEL) {
        return Err(
            copy_text("invalid color: \"default\" means the calendar color, not a palette entry"),
        );
    }
    match find_color(s.as_str()) {
        Some(i) => {
            return Ok(copy_text(ACCENT_PALETTE[i].1));
        },
        None => {},
    }
    let up: String = to_upper(s.as_str());
    let v: Vec<char> = chars_of(up.as_str());
    let hex: String = if v.len() > 0 && v[0] == '#' {
        up
    } else {
        proof {
            reveal_strlit("#");
            assert("#"@ =~= seq!['#']);
        }
        concat2("#", up.as_str())
    };
    let hex: String = to_upper(hex.as_str());
    match find_hex(hex.as_str()) {
        Some(i) => Ok(copy_text(ACCENT_PALETTE[i].1)),
        None => Err(
            concat3("invalid color ", quoted(spec).as_str(), "; use a palette hex or name"),
        ),
    }
}

proof fn lemma_palette_names()
    ensures
        ACCENT_PALETTE@[0] == ("purple", "#8080FF"),
        ACCENT_PALETTE@[1] == ("pink", "#DB60D6"),
        ACCENT_PALETTE@[2] == ("strawberry", "#EC3E7C"),
        ACCENT_PALETTE@[3] == ("carrot", "#F78400"),
        ACCENT_PALETTE@[4] == ("sahara", "#936D58"),
        ACCENT_PALETTE@[5] == ("enzian", "#5252CC"),
        ACCENT_PALETTE@[6] == ("plum", "#A839A4"),
        ACCENT_PALETTE@[7] == ("cerise", "#BA1E55"),
        ACCENT_PALETTE@[8] == ("copper", "#C44800"),
        ACCENT_PALETTE@[9] == ("soil", "#54473F"),
        ACCENT_PALETTE@[10] == ("slateblue", "#415DF0"),
        ACCENT_PALETTE@[11] == ("pacific", "#179FD9"),
        ACCENT_PALETTE@[12] == ("reef", "#1DA583"),
        ACCENT_PALETTE@[13] == ("fern", "#3CBB3A"),
        ACCENT_PALETTE@[14] == ("olive", "#B4A40E"),
        ACCENT_PALETTE@[15] == ("cobalt", "#273EB2"),
        ACCENT_PALETTE@[16] == ("ocean", "#0A77A6"),
        ACCENT_PALETTE@[17] == ("pine", "#0F735A"),
        ACCENT_PALETTE@[18] == ("forest", "#258723"),
        ACCENT_PALETTE@[19] == ("pickle", "#807304"),
        ACCENT_PALETTE@.len() == 20,
{
}

/// A digit of a hex.
spec fn hex_digit(c: char) -> bool {
    '0' <= c <= '9' || 'A' <= c <= 'F'
}

/// Names are letters, one of the first three of which is no digit of a hex;
/// hexes are a `#` and six such digits.
proof fn lemma_palette_letters(i: int)
    requires
        0 <= i < 20,
    ensures
        ({
            let n = ACCENT_PALETTE@[i].0@;
            &&& n.len() >= 4
            &&& forall|k: int| 0 <= k < n.len() ==> 'a' <= #[trigger] n[k] <= 'z'
            &&& n[0] != 'd'
            &&& n[0] > 'f' || n[1] > 'f' || n[2] > 'f'
        }),
        ({
            let h = ACCENT_PALETTE@[i].1@;
            &&& h.len() == 7
            &&& h[0] == '#'
            &&& text::uppercase(h) == h
            &&& forall|k: int| 1 <= k < 7 ==> hex_digit(#[trigger] h[k])
        }),
{
    lemma_palette_names();
    reveal_strlit("purple");
    reveal_strlit("#8080FF");
    reveal_strlit("pink");
    reveal_strlit("#DB60D6");
    reveal_strlit("strawberry");
    reveal_strlit("#EC3E7C");
    reveal_strlit("carrot");
    reveal_strlit("#F78400");
    reveal_strlit("sahara");
    reveal_strlit("#936D58");
    reveal_strlit("enzian");
    reveal_strlit("#5252CC");
    reveal_strlit("plum");
    reveal_strlit("#A839A4");
    reveal_strlit("cerise");
    reveal_strlit("#BA1E55");
    reveal_strlit("copper");
    reveal_strlit("#C44800");
    reveal_strlit("soil");
    reveal_strlit("#54473F");
    reveal_strlit("slateblue");
    reveal_strlit("#415DF0");
    reveal_strlit("pacific");
    reveal_strlit("#179FD9");
    reveal_strlit("reef");
    reveal_strlit("#1DA583");
    reveal_strlit("fern");
    reveal_strlit("#3CBB3A");
    reveal_strlit("olive");
    reveal_strlit("#B4A40E");
    reveal_strlit("cobalt");
    reveal_strlit("#273EB2");
    reveal_strlit("ocean");
    reveal_strlit("#0A77A6");
    reveal_strlit("pine");
    reveal_strlit("#0F735A");
    reveal_strlit("forest");
    reveal_strlit("#258723");
    reveal_strlit("pickle");
    reveal_strlit("#807304");
    let h = ACCENT_PALETTE@[i].1@;
    assert(text::is_ascii_text(h));
    assert(text::ascii_uppercase(h) =~= h);
}

proof fn lemma_names_differ(i: int, j: int)
    requires
        0 <= i < j < 20,
    ensures
        !text::same_ignoring_case(ACCENT_PALETTE@[i].0@, ACCENT_PALETTE@[j].0@),
{
    lemma_palette_names();
    reveal_strlit("purple");
    reveal_strlit("pink");
    reveal_strlit("strawberry");
    reveal_strlit("carrot");
    reveal_strlit("sahara");
    reveal_strlit("enzian");
    reveal_strlit("plum");
    reveal_strlit("cerise");
    reveal_strlit("copper");
    reveal_strlit("soil");
    reveal_strlit("slateblue");
    reveal_strlit("pacific");
    reveal_strlit("reef");
    reveal_strlit("fern");
    reveal_strlit("olive");
    reveal_strlit("cobalt");
    reveal_strlit("ocean");
    reveal_strlit("pine");
    reveal_strlit("forest");
    reveal_strlit("pickle");
    let a = ACCENT_PALETTE@[i].0@;
    let b = ACCENT_PALETTE@[j].0@;
    let ua = text::ascii_uppercase(a);
    let ub = text::ascii_uppercase(b);
    lemma_palette_letters(i);
    lemma_palette_letters(j);
    assert(a.len() != b.len() || a[0] != b[0] || a[1] != b[1] || a[2] != b[2] || a[3] != b[3]);
    if ua == ub {
        assert(ua.len() == a.len() && ub.len() == b.len());
        assert(ua[0] == ub[0] && ua[1] == ub[1] && ua[2] == ub[2] && ua[3] == ub[3]);
        assert(false);
    }
}

pub proof fn lemma_color_at(i: int, from: int)
    requires
        0 <= from <= i < 20,
    ensures
        color_at(ACCENT_PALETTE@[i].0@, from) == Some(i),
    decreases i - from,
{
    lemma_palette_names();
    if from < i {
        lemma_names_differ(from, i);
        lemma_color_at(i, from + 1);
    }
}

proof fn lemma_hex_at(hex: Seq<char>, from: int)
    requires
        0 <= from,
    ensures
        hex_at(hex, from) matches Some(i) ==> from <= i < 20 && ACCENT_PALETTE@[i].1@ == hex,
    decreases 20 - from,
{
    lemma_palette_names();
    if from < 20 {
        lemma_hex_at(hex, from + 1);
    }
}

proof fn lemma_palette_hex(i: int, from: int)
    requires
        0 <= from <= i < 20,
    ensures
        hex_at(ACCENT_PALETTE@[i].1@, from) is Some,
    decreases i - from,
{
    lemma_palette_names();
    if from < i {
        lemma_palette_hex(i, from + 1);
    }
}

/// The name of a palette color resolves to its upper-case hex.
pub proof fn law_color_name_resolves(hex: Seq<char>)
    requires
        hex_at(text::uppercase(hex), 0) is Some,
    ensures
        resolved_color(ACCENT_PALETTE@[hex_at(text::uppercase(hex), 0)->Some_0].0@) == Ok::<
            Seq<char>,
            Seq<char>,
        >(text::uppercase(hex)),
{
    lemma_hex_at(text::uppercase(hex), 0);
    let i = hex_at(text::uppercase(hex), 0)->Some_0;
    let n = ACCENT_PALETTE@[i].0@;
    lemma_palette_letters(i);
    lemma_color_at(i, 0);
    reveal_with_fuel(text::trim_start, 2);
    reveal_with_fuel(text::trim_end, 2);
    assert(text::trim(n) == n);
    reveal_strlit("default");
    let d = COLOR_DEFAULT_SENTINEL@;
    assert(d == "default"@);
    if text::same_ignoring_case(n, d) {
        assert(text::ascii_uppercase(n)[0] == text::ascii_uppercase(d)[0]);
        assert(false);
    }
}

/// Digits of a hex, with or without a `#` before them, are no name.
proof fn lemma_digits_no_name(s: Seq<char>, from: int)
    requires
        0 <= from,
        s.len() > 3,
        s[0] == '#' || hex_digit(s[0]) && hex_digit(s[1]) && hex_digit(s[2]),
    ensures
        color_at(s, from) is None,
    decreases 20 - from,
{
    lemma_palette_names();
    if from < 20 {
        let n = ACCENT_PALETTE@[from].0@;
        lemma_palette_letters(from);
        if text::same_ignoring_case(n, s) {
            let (a, b) = (text::ascii_uppercase(n), text::ascii_uppercase(s));
            assert(a.len() == n.len() && b.len() == s.len());
            assert(a[0] == b[0] && a[1] == b[1] && a[2] == b[2]);
            assert(false);
        }
        lemma_digits_no_name(s, from + 1);
    }
}

/// Whatever resolves is the hex of a palette color as the palette has it, so
/// in upper case and one that the server takes. It resolves to itself, with
/// or without its `#`, and so does its name.
pub proof fn law_resolved_color_is_valid(spec: Seq<char>)
    requires
        resolved_color(spec) is Ok,
    ensures
        ({
            let hex = resolved_color(spec)->Ok_0;
            &&& exists|i: int| 0 <= i < 20 && #[trigger] ACCENT_PALETTE@[i].1@ == hex
            &&& text::uppercase(hex) == hex
            &&& hex_at(hex, 0) is Some
            &&& resolved_color(hex) == Ok::<Seq<char>, Seq<char>>(hex)
            &&& resolved_color(hex.skip(1)) == Ok::<Seq<char>, Seq<char>>(hex)
            &&& resolved_color(ACCENT_PALETTE@[hex_at(hex, 0)->Some_0].0@) == Ok::<
                Seq<char>,
                Seq<char>,
            >(hex)
        }),
{
    let s = text::trim(spec);
    let up = text::uppercase(s);
    let full = if up.len() > 0 && up[0] == '#' {
        up
    } else {
        seq!['#'] + up
    };
    let hex = resolved_color(spec)->Ok_0;
    lemma_color_range(s, 0);
    lemma_hex_at(text::uppercase(full), 0);
    let i = if color_at(s, 0) is Some {
        color_at(s, 0)->Some_0
    } else {
        hex_at(text::uppercase(full), 0)->Some_0
    };
    assert(ACCENT_PALETTE@[i].1@ == hex);
    lemma_palette_letters(i);
    lemma_palette_hex(i, 0);
    lemma_hex_at(hex, 0);
    law_color_name_resolves(hex);
    reveal_strlit("default");
    let d = COLOR_DEFAULT_SENTINEL@;
    assert(d == "default"@);
    let du = text::ascii_uppercase(d);
    assert(du.len() == 7 && du[0] == 'D');
    lemma_plain_ends(hex);
    lemma_digits_no_name(hex, 0);
    if text::same_ignoring_case(hex, d) {
        assert(text::ascii_uppercase(hex)[0] == du[0]);
        assert(false);
    }
    let bare = hex.skip(1);
    assert(hex_digit(hex[1]) && hex_digit(hex[2]) && hex_digit(hex[3]) && hex_digit(hex[6]));
    assert(bare[0] == hex[1] && bare[1] == hex[2] && bare[2] == hex[3] && bare[5] == hex[6]);
    lemma_plain_ends(bare);
    lemma_digits_no_name(bare, 0);
    if text::same_ignoring_case(bare, d) {
        assert(text::ascii_uppercase(bare).len() == 6);
        assert(false);
    }
    assert(text::uppercase(bare) == bare) by {
        assert(text::is_ascii_text(bare)) by {
            assert forall|k: int| 0 <= k < bare.len() implies (#[trigger] bare[k] as u32) < 128 by {
                assert(hex_digit(hex[k + 1]));
            }
        }
        assert(text::ascii_uppercase(bare) =~= bare) by {
            assert forall|k: int| 0 <= k < bare.len() implies text::ascii_upper_char(bare[k])
                == bare[k] by {
                assert(hex_digit(hex[k + 1]));
            }
        }
    }
    assert(seq!['#'] + bare =~= hex);
}

proof fn lemma_plain_ends(s: Seq<char>)
    requires
        s.len() > 1,
        s[0] == '#' || hex_digit(s[0]),
        hex_digit(s[s.len() - 1]),
    ensures
        text::trim(s) == s,
{
    reveal_with_fuel(text::trim_start, 2);
    reveal_with_fuel(text::trim_end, 2);
}

proof fn lemma_color_range(name: Seq<char>, from: int)
    requires
        0 <= from,
    ensures
        color_at(name, from) matches Some(i) ==> from <= i < 20,
    decreases 20 - from,
{
    lemma_palette_names();
    if from < 20 {
        lemma_color_range(name, from + 1);
    }
}

// ---------------------------------------------------------------------
// Row values
// ---------------------------------------------------------------------

/// The reminders of a row: null to inherit those of the calendar, an empty
/// list for none, or the list.
pub fn marshal_notifications(set: bool, list: &Vec<Json>) -> (r: Json)
    ensures
        r@ == (if set {
            JsonModel::Array(json::models(list@))
        } else {
            JsonModel::Null
        }),
{
    if !set {
        Json::Null
    } else {
        let a: Vec<Json> = copy_jsons(list);
        proof {
            json::lemma_array_model(a);
        }
        Json::Array(a)
    }
}

/// The color of a row: null to inherit that of the calendar.
pub fn marshal_color(color: &str) -> (r: Json)
    ensures
        r@ == (if color@.len() == 0 {
            JsonModel::Null
        } else {
            JsonModel::Text(color@)
        }),
{
    if text::is_empty(color) {
        Json::Null
    } else {
        json_text(color)
    }
}

/// One clear attendee row of an update: token and answer, with the comment
/// as it was.
#[derive(Debug, Clone, PartialEq, Eq)]
#[allow(non_snake_case)]
pub struct AttendeeClear {
    pub Token: String,
    pub Status: i64,
    pub Comment: Json,
}

/// The attendee row of a token and an answer.
pub open spec fn attendee_row(token: Seq<char>, status: int) -> JsonModel {
    JsonModel::Object(
        seq![
            ("Comment"@, JsonModel::Null),
            ("Status"@, JsonModel::Number(json::number_of(status))),
            ("Token"@, JsonModel::Text(token)),
        ],
    )
}

/// The clear attendee rows of an update, an empty list without attendees.
pub fn marshal_attendees(tokens: &[(String, i64)]) -> (r: Json)
    ensures
        r@ == JsonModel::Array(
            Seq::new(
                tokens@.len(),
                |i: int| attendee_row(tokens@[i].0@, tokens@[i].1 as int),
            ),
        ),
{
    let mut rows: Vec<Json> = Vec::new();
    let mut i: usize = 0;
    while i < tokens.len()
        invariant
            i <= tokens@.len(),
            json::models(rows@) =~= Seq::new(
                i as nat,
                |k: int| attendee_row(tokens@[k].0@, tokens@[k].1 as int),
            ),
        decreases tokens@.len() - i,
    {
        let ghost done = json::models(rows@);
        let mut o: Vec<(String, Json)> = Vec::new();
        o.push((copy_text("Comment"), Json::Null));
        o.push((copy_text("Status"), json_int(tokens[i].1)));
        o.push((copy_text("Token"), json_text(tokens[i].0.as_str())));
        let ghost ov = o;
        proof {
            json::lemma_object_model(o);
            assert(json::member_models(o@) =~= attendee_row(
                tokens@[i as int].0@,
                tokens@[i as int].1 as int,
            )->Object_0);
        }
        let row: Json = Json::Object(o);
        rows.push(row);
        assert(json::models(rows@) =~= done.push(
            attendee_row(tokens@[i as int].0@, tokens@[i as int].1 as int),
        ));
        i = i + 1;
    }
    proof {
        json::lemma_array_model(rows);
    }
    Json::Array(rows)
}

// ---------------------------------------------------------------------
// Sync payloads
// ---------------------------------------------------------------------

/// Top-level code of a single accepted operation.
pub const SYNC_CODE_SUCCESS: i64 = 1000;

/// Top-level code of an accepted batch.
pub const SYNC_CODE_SUCCESS_MULTI: i64 = 1001;

/// One card in a payload.
#[derive(Debug, Clone, PartialEq, Eq)]
#[allow(non_snake_case)]
pub struct SyncContentPart {
    pub Type: i64,
    pub Data: String,
    pub Signature: String,
}

/// What a [`SyncContentPart`] holds.
#[verifier::ext_equal]
pub struct ContentModel {
    pub kind: int,
    pub data: Seq<char>,
    pub signature: Seq<char>,
}

impl View for SyncContentPart {
    type V = ContentModel;

    open spec fn view(&self) -> ContentModel {
        ContentModel { kind: self.Type as int, data: self.Data@, signature: self.Signature@ }
    }
}

pub open spec fn contents_view(v: Seq<SyncContentPart>) -> Seq<ContentModel> {
    Seq::new(v.len(), |i: int| v[i]@)
}

/// The event of a payload. Key packets are there on creation only; an update
/// replaces the whole row, so reminders and color carry what the row had.
#[derive(Debug, Clone, PartialEq, Eq)]
#[allow(non_snake_case)]
pub struct SyncEventBody {
    pub Permissions: i64,
    pub SharedKeyPacket: Option<String>,
    pub CalendarKeyPacket: Option<String>,
    pub SharedEventContent: Vec<SyncContentPart>,
    pub CalendarEventContent: Vec<SyncContentPart>,
    pub AttendeesEventContent: Vec<SyncContentPart>,
    pub Attendees: Json,
    pub Notifications: Json,
    pub Color: Json,
}

/// One operation of a batch: creation (`Overwrite` and `Event`), update
/// (`ID` and `Event`) or deletion (`ID` alone).
#[derive(Debug, Clone, PartialEq, Eq)]
#[allow(non_snake_case)]
pub struct SyncEventOp {
    pub ID: Option<String>,
    pub Overwrite: Option<i32>,
    pub Event: Option<SyncEventBody>,
}

impl SyncEventOp {
    /// Deletion of a row.
    pub fn delete(event_id: &str) -> (r: SyncEventOp)
        ensures
            text::option_text(r.ID) == Some(event_id@),
            r.Overwrite is None,
            r.Event is None,
    {
        SyncEventOp { ID: Some(copy_text(event_id)), Overwrite: None, Event: None }
    }

    /// Update of a row. The body carries no key packets.
    pub fn update(event_id: &str, body: SyncEventBody) -> (r: SyncEventOp)
        ensures
            text::option_text(r.ID) == Some(event_id@),
            r.Overwrite is None,
            r.Event == Some(body),
    {
        SyncEventOp { ID: Some(copy_text(event_id)), Overwrite: None, Event: Some(body) }
    }

    /// Creation of a row. The body carries fresh key packets.
    pub fn create(body: SyncEventBody) -> (r: SyncEventOp)
        ensures
            r.ID is None,
            r.Overwrite == Some(0i32),
            r.Event == Some(body),
    {
        SyncEventOp { ID: None, Overwrite: Some(0), Event: Some(body) }
    }
}

/// The payload of the sync endpoint. `IsImport` is there on creations only.
#[derive(Debug, Clone, PartialEq, Eq)]
#[allow(non_snake_case)]
pub struct SyncBatchRequest {
    pub MemberID: String,
    pub IsImport: Option<i32>,
    pub Events: Vec<SyncEventOp>,
}

impl SyncBatchRequest {
    /// Deletion of several rows at once: a row and its exceptions go
    /// together, as the server leaves exceptions behind.
    pub fn delete_batch(member_id: &str, event_ids: &[String]) -> (r: SyncBatchRequest)
        ensures
            r.MemberID@ == member_id@,
            r.IsImport is None,
            r.Events@.len() == event_ids@.len(),
            forall|i: int|
                0 <= i < event_ids@.len() ==> text::option_text((#[trigger] r.Events@[i]).ID)
                    == Some(event_ids@[i]@) && r.Events@[i].Overwrite is None
                    && r.Events@[i].Event is None,
    {
        let mut ops: Vec<SyncEventOp> = Vec::new();
        let mut i: usize = 0;
        while i < event_ids.len()
            invariant
                i <= event_ids@.len(),
                ops@.len() == i,
                forall|k: int|
                    0 <= k < i ==> text::option_text((#[trigger] ops@[k]).ID) == Some(
                        event_ids@[k]@,
                    ) && ops@[k].Overwrite is None && ops@[k].Event is None,
            decreases event_ids@.len() - i,
        {
            ops.push(SyncEventOp::delete(event_ids[i].as_str()));
            i = i + 1;
        }
        SyncBatchRequest { MemberID: copy_text(member_id), IsImport: None, Events: ops }
    }
}

/// The answer of the sync endpoint. Deletions bring the top-level code alone;
/// creations bring the stored row; updates may leave it out.
#[derive(Debug, Clone, PartialEq, Eq)]
#[allow(non_snake_case)]
pub struct SyncBatchResponse {
    pub Code: i64,
    pub Responses: Vec<SyncOpResponse>,
}

#[derive(Debug, Clone, PartialEq, Eq)]
#[allow(non_snake_case)]
pub struct SyncOpResponse {
    pub Index: i64,
    pub Response: SyncOpResult,
}

#[derive(Debug, Clone, PartialEq, Eq)]
#[allow(non_snake_case)]
pub struct SyncOpResult {
    pub Code: i64,
    pub Error: String,
    pub Event: Option<Json>,
}

impl Default for SyncOpResult {
    fn default() -> (r: SyncOpResult)
        ensures
            r.Code == 0,
            r.Error@ == Seq::<char>::empty(),
            r.Event is None,
    {
        SyncOpResult { Code: 0, Error: String::new(), Event: None }
    }
}

impl Default for SyncOpResponse {
    fn default() -> (r: SyncOpResponse)
        ensures
            r.Index == 0,
            r.Response.Code == 0,
            r.Response.Error@ == Seq::<char>::empty(),
            r.Response.Event is None,
    {
        SyncOpResponse { Index: 0, Response: SyncOpResult::default() }
    }
}

impl Default for SyncBatchResponse {
    fn default() -> (r: SyncBatchResponse)
        ensures
            r.Code == 0,
            r.Responses@.len() == 0,
    {
        SyncBatchResponse { Code: 0, Responses: Vec::new() }
    }
}

/// What an operation failed with; none on success.
pub open spec fn op_error(op: SyncOpResult) -> Option<Seq<char>> {
    let head = "sync failed: code "@ + numbers::signed_decimal(op.Code as int);
    if op.Code == SYNC_CODE_SUCCESS {
        None
    } else if op.Error@.len() == 0 {
        Some(head)
    } else {
        Some(head + ": "@ + op.Error@)
    }
}

/// What the first failing operation of a list failed with.
pub open spec fn first_op_error(ops: Seq<SyncOpResponse>) -> Option<Seq<char>>
    decreases ops.len(),
{
    if ops.len() == 0 {
        None
    } else {
        match op_error(ops[0].Response) {
            Some(m) => Some(m),
            None => first_op_error(ops.skip(1)),
        }
    }
}

/// What went wrong with a batch: the first failing operation, or the
/// top-level code when no operation is listed.
pub open spec fn sync_error(r: SyncBatchResponse) -> Option<Seq<char>> {
    if r.Responses@.len() > 0 {
        first_op_error(r.Responses@)
    } else if r.Code == SYNC_CODE_SUCCESS || r.Code == SYNC_CODE_SUCCESS_MULTI {
        None
    } else {
        Some("sync failed: code "@ + numbers::signed_decimal(r.Code as int))
    }
}

/// What an operation failed with.
fn error_of_op(op: &SyncOpResult) -> (r: Option<String>)
    ensures
        text::option_text(r) == op_error(*op),
{
    if op.Code == SYNC_CODE_SUCCESS {
        return None;
    }
    let head: String = concat2(
        "sync failed: code ",
        numbers::signed_decimal_text(op.Code).as_str(),
    );
    if text::is_empty(op.Error.as_str()) {
        Some(head)
    } else {
        Some(concat3(head.as_str(), ": ", op.Error.as_str()))
    }
}

impl SyncBatchResponse {
    /// What went wrong with the batch; none on success.
    pub fn first_error(&self) -> (r: Option<String>)
        ensures
            text::option_text(r) == sync_error(*self),
    {
        if self.Responses.len() == 0 {
            if self.Code == SYNC_CODE_SUCCESS || self.Code == SYNC_CODE_SUCCESS_MULTI {
                return None;
            }
            return Some(
                concat2(
                    "sync failed: code ",
                    numbers::signed_decimal_text(self.Code).as_str(),
                ),
            );
        }
        let ghost all = self.Responses@;
        let mut i: usize = 0;
        assert(all.skip(0) =~= all);
        while i < self.Responses.len()
            invariant
                i <= self.Responses@.len(),
                all == self.Responses@,
                all.len() > 0,
                first_op_error(all) == first_op_error(all.skip(i as int)),
            decreases self.Responses@.len() - i,
        {
            assert(all.skip(i as int)[0] == all[i as int]);
            assert(all.skip(i as int).skip(1) =~= all.skip(i + 1));
            if let Some(e) = error_of_op(&self.Responses[i].Response) {
                return Some(e);
            }
            i = i + 1;
        }
        None
    }

    /// The row that the first operation brought, none when the server left it
    /// out; or what went wrong.
    pub fn first_event(&self) -> (r: Result<Option<Json>, String>)
        ensures
            match r {
                Ok(e) => sync_error(*self) is None && json::option_model(e) == (
                if self.Responses@.len() == 0 {
                    None
                } else {
                    json::option_model(self.Responses@[0].Response.Event)
                }),
                Err(m) => sync_error(*self) == Some(m@),
            },
    {
        match self.first_error() {
            Some(e) => {
                return Err(e);
            },
            None => {},
        }
        if self.Responses.len() == 0 {
            return Ok(None);
        }
        match &self.Responses[0].Response.Event {
            Some(e) => Ok(Some(copy_json(e))),
            None => Ok(None),
        }
    }
}

// ---------------------------------------------------------------------
// Local edits
// ---------------------------------------------------------------------

/// The fields of a row as the device has them. A field that is none has not
/// been touched. Times are unix seconds; the end of an all-day event is its
/// last second or day, not the one behind it.
#[derive(Debug, Clone, PartialEq, Eq)]
pub struct LocalFields {
    pub summary: Option<String>,
    pub description: Option<String>,
    pub location: Option<String>,
    pub start_unix: Option<i64>,
    pub end_unix: Option<i64>,
    pub all_day: Option<bool>,
    /// The recurrence rule: none keeps what the server has, `Some(Some(r))`
    /// sets it, `Some(None)` deletes it unless `has_recurrence` says that the
    /// device has a rule that could not be written down.
    pub rrule: Option<Option<String>>,
    pub has_recurrence: bool,
    /// The reminders: none keeps those of the row, an empty list clears them.
    pub notifications: Option<Vec<Json>>,
    /// The color, empty when the device has none.
    pub color: Option<String>,
}

/// What [`LocalFields`] holds.
#[verifier::ext_equal]
pub struct FieldsModel {
    pub summary: Option<Seq<char>>,
    pub description: Option<Seq<char>>,
    pub location: Option<Seq<char>>,
    pub start: Option<i64>,
    pub end: Option<i64>,
    pub all_day: Option<bool>,
    pub rrule: Option<Option<Seq<char>>>,
    pub has_recurrence: bool,
}

impl View for LocalFields {
    type V = FieldsModel;

    open spec fn view(&self) -> FieldsModel {
        FieldsModel {
            summary: text::option_text(self.summary),
            description: text::option_text(self.description),
            location: text::option_text(self.location),
            start: self.start_unix,
            end: self.end_unix,
            all_day: self.all_day,
            rrule: match self.rrule {
                Some(r) => Some(text::option_text(r)),
                None => None,
            },
            has_recurrence: self.has_recurrence,
        }
    }
}

impl Default for LocalFields {
    fn default() -> (r: LocalFields)
        ensures
            r == (LocalFields {
                summary: None,
                description: None,
                location: None,
                start_unix: None,
                end_unix: None,
                all_day: None,
                rrule: None,
                has_recurrence: false,
                notifications: None,
                color: None,
            }),
    {
        LocalFields {
            summary: None,
            description: None,
            location: None,
            start_unix: None,
            end_unix: None,
            all_day: None,
            rrule: None,
            has_recurrence: false,
            notifications: None,
            color: None,
        }
    }
}

/// Values that replace those of the row in an update.
#[derive(Debug, Clone, PartialEq, Eq)]
pub struct UpdateOverrides {
    /// None sends those of the row again, `Some(None)` inherits those of the
    /// calendar, `Some(Some(list))` sends the list.
    pub notifications: Option<Option<Vec<Json>>>,
    /// The palette hex; none sends that of the row again.
    pub color: Option<String>,
}

impl Default for UpdateOverrides {
    fn default() -> (r: UpdateOverrides)
        ensures
            r.notifications is None,
            r.color is None,
    {
        UpdateOverrides { notifications: None, color: None }
    }
}

// ---------------------------------------------------------------------
// Sequence numbers
// ---------------------------------------------------------------------

pub open spec fn next_sequence_of(current: int, significant_change: bool) -> int {
    if significant_change {
        if current < 0 {
            1
        } else if current < i64::MAX {
            current + 1
        } else {
            current
        }
    } else if current < 0 {
        0
    } else {
        current
    }
}

/// The sequence number after an edit: one more when times or recurrence
/// changed, else the same.
pub fn next_sequence(current: i64, significant_change: bool) -> (r: i64)
    ensures
        r == next_sequence_of(current as int, significant_change),
{
    if significant_change {
        if current < 0 {
            1
        } else if current < i64::MAX {
            current + 1
        } else {
            current
        }
    } else if current < 0 {
        0
    } else {
        current
    }
}

/// Whether the server takes an exception with this number: it may not fall
/// behind that of its series.
pub fn exception_sequence_ok(master_sequence: i64, exception_sequence: i64) -> (r: bool)
    ensures
        r == (exception_sequence >= master_sequence),
{
    exception_sequence >= master_sequence
}

/// A sequence number never goes down; an edit that changes no times keeps a
/// valid one, so exceptions of the series stay acceptable.
pub proof fn law_sequence_never_decreases(current: i64, significant_change: bool)
    ensures
        next_sequence_of(current as int, significant_change) >= current,
        next_sequence_of(current as int, significant_change) >= 0,
        !significant_change && current >= 0 ==> next_sequence_of(
            current as int,
            significant_change,
        ) == current,
        significant_change && 0 <= current < i64::MAX ==> next_sequence_of(
            current as int,
            significant_change,
        ) == current + 1,
{
}

} // verus!
