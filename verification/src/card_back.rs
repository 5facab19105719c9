//! How the components of a card stand apart, how colors are spelled, and how
//! texts are ordered.
use vstd::prelude::*;

use crate::calendar_write;
use crate::calendar_write::{Sections, ACCENT_PALETTE};
use crate::lines;
use crate::ordered;
use crate::text;
use crate::text_back;

verus! {

// ---------------------------------------------------------------------
// Components
// ---------------------------------------------------------------------

/// A line that starts, or one that ends, a component of a name.
pub open spec fn is_start(line: Seq<char>, name: Seq<char>) -> bool {
    text::uppercase(line) == "BEGIN:"@ + name
}

pub open spec fn is_stop(line: Seq<char>, name: Seq<char>) -> bool {
    text::uppercase(line) == "END:"@ + name
}

proof fn lemma_start(line: Seq<char>, name: Seq<char>)
    ensures
        calendar_write::begins_as(line, name) == is_start(line, name),
        calendar_write::ends_as(line, name) == is_stop(line, name),
{
    let up = text::uppercase(line);
    reveal_strlit("BEGIN:");
    reveal_strlit("END:");
    if is_start(line, name) {
        assert(up.take(6) =~= "BEGIN:"@);
        assert(up.skip(6) =~= name);
    }
    if calendar_write::begins_as(line, name) {
        assert(up =~= up.take(6) + up.skip(6));
    }
    if is_stop(line, name) {
        assert(up.take(4) =~= "END:"@);
        assert(up.skip(4) =~= name);
    }
    if calendar_write::ends_as(line, name) {
        assert(up =~= up.take(4) + up.skip(4));
    }
}

/// A component in an event: from its start to its end, whatever stands
/// between, other components with it.
pub open spec fn is_component(block: Seq<Seq<char>>, name: Seq<char>) -> bool {
    &&& block.len() >= 2
    &&& is_start(block[0], name)
    &&& !calendar_write::is_wrapper(text::uppercase(block[0]))
    &&& is_stop(block[block.len() - 1], name)
    &&& forall|k: int|
        0 < k < block.len() - 1 ==> !is_start(#[trigger] block[k], name) && !is_stop(block[k], name)
}

proof fn lemma_closes(l: Seq<Seq<char>>, i: int, j: int, name: Seq<char>)
    requires
        0 <= i <= j < l.len(),
        is_stop(l[j], name),
        forall|k: int| i <= k < j ==> !is_start(#[trigger] l[k], name) && !is_stop(l[k], name),
    ensures
        calendar_write::close_at(l, i, name, 1) == Some(j + 1),
    decreases j - i,
{
    lemma_start(l[i], name);
    if i < j {
        lemma_closes(l, i + 1, j, name);
    } else {
        assert(text::uppercase(l[i])[0] == 'E') by {
            reveal_strlit("END:");
            assert(text::uppercase(l[i])[0] == "END:"@[0]);
        }
        assert(!is_start(l[i], name)) by {
            reveal_strlit("BEGIN:");
            if is_start(l[i], name) {
                assert(text::uppercase(l[i])[0] == "BEGIN:"@[0]);
            }
        }
    }
}

proof fn lemma_close_shift(x: Seq<Seq<char>>, c: Seq<Seq<char>>, i: int, name: Seq<char>, open: int)
    requires
        0 <= i,
    ensures
        calendar_write::close_at(x + c, x.len() + i, name, open) == (match calendar_write::close_at(
            c,
            i,
            name,
            open,
        ) {
            Some(j) => Some(x.len() + j),
            None => None,
        }),
    decreases c.len() - i,
{
    if i < c.len() {
        assert((x + c)[x.len() + i] == c[i]);
        lemma_close_shift(x, c, i + 1, name, open + 1);
        lemma_close_shift(x, c, i + 1, name, open - 1);
        lemma_close_shift(x, c, i + 1, name, open);
    }
}

proof fn lemma_end_shift(x: Seq<Seq<char>>, c: Seq<Seq<char>>, i: int)
    requires
        0 <= i <= c.len(),
    ensures
        calendar_write::next_end(x + c, x.len() + i) == x.len() + calendar_write::next_end(c, i),
    decreases c.len() - i,
{
    if i < c.len() {
        assert((x + c)[x.len() + i] == c[i]);
        lemma_end_shift(x, c, i + 1);
    }
}

/// What stands before a line has no part in the sections from that line on.
proof fn lemma_sections_shift(x: Seq<Seq<char>>, c: Seq<Seq<char>>, i: int)
    requires
        0 <= i <= c.len(),
    ensures
        calendar_write::sections_from(x + c, x.len() + i) == calendar_write::sections_from(c, i),
    decreases c.len() - i,
{
    if i < c.len() {
        let l = x + c;
        let k = x.len() + i;
        assert(l[k] == c[i]);
        if !calendar_write::is_wrapper(text::uppercase(c[i])) && calendar_write::begins(c[i]) {
            let name = text::uppercase(c[i]).skip(6);
            lemma_close_shift(x, c, i + 1, name, 1);
            lemma_end_shift(x, c, i + 1);
            let j = calendar_write::block_end(c, i);
            calendar_write::lemma_block_end(c, i);
            assert(calendar_write::block_end(l, k) == x.len() + j);
            lemma_sections_shift(x, c, j);
            assert(l.subrange(k, x.len() + j) =~= c.subrange(i, j));
        } else {
            lemma_sections_shift(x, c, i + 1);
        }
    }
}

/// The properties of an event and the components in it stand apart: lines
/// behind a component count as if it were not there, and the component is
/// kept line by line.
pub proof fn law_components_stand_apart(
    front: Seq<Seq<char>>,
    block: Seq<Seq<char>>,
    back: Seq<Seq<char>>,
    name: Seq<char>,
)
    requires
        is_component(block, name),
        forall|k: int|
            0 <= k < front.len() ==> calendar_write::is_wrapper(
                text::uppercase(#[trigger] front[k]),
            ) || !calendar_write::begins(front[k]),
    ensures
        ({
            let s = calendar_write::sections(front + block + back);
            &&& s.props == calendar_write::sections(front + back).props
            &&& s.blocks == block + calendar_write::sections(front + back).blocks
        }),
    decreases front.len(),
{
    let l = front + block + back;
    let none = Seq::<Seq<char>>::empty();
    if front.len() == 0 {
        assert(l =~= block + back);
        assert(front + back =~= back);
        lemma_start(block[0], name);
        let n = block.len() - 1;
        assert forall|k: int| 1 <= k < n implies !is_start(#[trigger] l[k], name) && !is_stop(
            l[k],
            name,
        ) by {
            assert(l[k] == block[k]);
        }
        assert(l[n] == block[n]);
        assert(l[0] == block[0]);
        lemma_closes(l, 1, n, name);
        assert(text::uppercase(l[0]).skip(6) == name);
        assert(calendar_write::block_end(l, 0) == block.len());
        lemma_sections_shift(block, back, 0);
        assert(l.subrange(0, block.len() as int) =~= block);
    } else {
        let f = front.skip(1);
        assert forall|k: int| 0 <= k < f.len() implies calendar_write::is_wrapper(
            text::uppercase(#[trigger] f[k]),
        ) || !calendar_write::begins(f[k]) by {
            assert(f[k] == front[k + 1]);
        }
        law_components_stand_apart(f, block, back, name);
        let one = seq![front[0]];
        assert(l =~= one + (f + block + back));
        assert(front + back =~= one + (f + back));
        lemma_sections_shift(one, f + block + back, 0);
        lemma_sections_shift(one, f + back, 0);
        assert(l[0] == front[0]);
        assert((front + back)[0] == front[0]);
    }
}

/// The properties of an event are its lines but for those of the wrapper and
/// blank ones, in their order.
pub proof fn law_properties_keep_their_order(line: Seq<char>, rest: Seq<Seq<char>>)
    requires
        !calendar_write::begins(line),
        !calendar_write::is_wrapper(text::uppercase(line)),
    ensures
        ({
            let s = calendar_write::sections(rest);
            let t = calendar_write::sections(seq![line] + rest);
            &&& text::trim(line).len() > 0 ==> t == (Sections {
                props: seq![line] + s.props,
                blocks: s.blocks,
            })
            &&& text::trim(line).len() == 0 ==> t == s
        }),
{
    lemma_sections_shift(seq![line], rest, 0);
}

// ---------------------------------------------------------------------
// Colors
// ---------------------------------------------------------------------

/// A color of the palette is found by its name in any case, with white space
/// round it.
pub proof fn law_color_spelling(front: Seq<char>, spelled: Seq<char>, back: Seq<char>, i: int)
    requires
        0 <= i < 20,
        text::same_ignoring_case(spelled, ACCENT_PALETTE@[i].0@),
        spelled.len() > 0,
        !text::is_white(spelled[0]),
        !text::is_white(spelled[spelled.len() - 1]),
        !text::same_ignoring_case(spelled, "default"@),
        forall|k: int| 0 <= k < front.len() ==> text::is_white(#[trigger] front[k]),
        forall|k: int| 0 <= k < back.len() ==> text::is_white(#[trigger] back[k]),
    ensures
        calendar_write::resolved_color(front + spelled + back) == Ok::<Seq<char>, Seq<char>>(
            ACCENT_PALETTE@[i].1@,
        ),
{
    text_back::law_trimmed(front, spelled, back);
    calendar_write::lemma_color_at(i, 0);
    lemma_same_color(spelled, ACCENT_PALETTE@[i].0@, 0);
}

proof fn lemma_same_color(a: Seq<char>, b: Seq<char>, from: int)
    requires
        text::same_ignoring_case(a, b),
        0 <= from,
    ensures
        calendar_write::color_at(a, from) == calendar_write::color_at(b, from),
    decreases ACCENT_PALETTE@.len() - from,
{
    if from < ACCENT_PALETTE@.len() {
        lemma_same_color(a, b, from + 1);
    }
}

/// The palette.
pub proof fn law_palette()
    ensures
        ({
            let p = ACCENT_PALETTE@;
            &&& p.len() == 20
            &&& p[0].0@ == "purple"@ && p[0].1@ == "#8080FF"@
            &&& p[1].0@ == "pink"@ && p[1].1@ == "#DB60D6"@
            &&& p[2].0@ == "strawberry"@ && p[2].1@ == "#EC3E7C"@
            &&& p[3].0@ == "carrot"@ && p[3].1@ == "#F78400"@
            &&& p[4].0@ == "sahara"@ && p[4].1@ == "#936D58"@
            &&& p[5].0@ == "enzian"@ && p[5].1@ == "#5252CC"@
            &&& p[6].0@ == "plum"@ && p[6].1@ == "#A839A4"@
            &&& p[7].0@ == "cerise"@ && p[7].1@ == "#BA1E55"@
            &&& p[8].0@ == "copper"@ && p[8].1@ == "#C44800"@
            &&& p[9].0@ == "soil"@ && p[9].1@ == "#54473F"@
            &&& p[10].0@ == "slateblue"@ && p[10].1@ == "#415DF0"@
            &&& p[11].0@ == "pacific"@ && p[11].1@ == "#179FD9"@
            &&& p[12].0@ == "reef"@ && p[12].1@ == "#1DA583"@
            &&& p[13].0@ == "fern"@ && p[13].1@ == "#3CBB3A"@
            &&& p[14].0@ == "olive"@ && p[14].1@ == "#B4A40E"@
            &&& p[15].0@ == "cobalt"@ && p[15].1@ == "#273EB2"@
            &&& p[16].0@ == "ocean"@ && p[16].1@ == "#0A77A6"@
            &&& p[17].0@ == "pine"@ && p[17].1@ == "#0F735A"@
            &&& p[18].0@ == "forest"@ && p[18].1@ == "#258723"@
            &&& p[19].0@ == "pickle"@ && p[19].1@ == "#807304"@
        }),
{
}

/// Nothing, and the word for the color of the calendar, is no color.
pub proof fn law_no_color(spec: Seq<char>)
    requires
        text::trim(spec).len() == 0 || text::same_ignoring_case(text::trim(spec), "default"@),
    ensures
        calendar_write::resolved_color(spec) is Err,
{
}

// ---------------------------------------------------------------------
// The order of texts
// ---------------------------------------------------------------------

/// Of two texts the one comes first that has the smaller character where they
/// first differ; a text comes before one that it starts.
pub proof fn law_text_order(p: Seq<char>, x: char, a: Seq<char>, y: char, b: Seq<char>)
    ensures
        x != y ==> ordered::before(p + seq![x] + a, p + seq![y] + b) == (x < y),
        ordered::before(p, p + seq![x] + a),
        !ordered::before(p + seq![x] + a, p),
        !ordered::before(p, p),
    decreases p.len(),
{
    let s = p + seq![x] + a;
    let t = p + seq![y] + b;
    if p.len() > 0 {
        let q = p.skip(1);
        law_text_order(q, x, a, y, b);
        assert(s.skip(1) =~= q + seq![x] + a);
        assert(t.skip(1) =~= q + seq![y] + b);
        assert(s[0] == p[0] && t[0] == p[0]);
    } else {
        assert(s[0] == x && t[0] == y);
    }
}

// ---------------------------------------------------------------------
// Patches
// ---------------------------------------------------------------------

/// A patch leaves every line in its place: a line of a deleted property goes,
/// one of a set property becomes the new one, and any other stays as it is.
pub proof fn law_lines_keep_their_place(
    props: Seq<Seq<char>>,
    line: Seq<char>,
    set: Seq<(Seq<char>, Seq<char>)>,
    delete: Seq<Seq<char>>,
)
    ensures
        ({
            let was = calendar_write::edited(props, set, delete);
            let is = calendar_write::edited(props.push(line), set, delete);
            let name = lines::property_name(line);
            let gone = exists|i: int|
                0 <= i < delete.len() && Some(#[trigger] text::uppercase(delete[i])) == name;
            &&& name is None ==> is == was.push(line)
            &&& name is Some && gone ==> is == was
            &&& name is Some && !gone ==> (match ordered::lookup(set, name->Some_0) {
                Some(value) => is == was.push(name->Some_0 + value),
                None => is == was.push(line),
            })
        }),
{
    assert(props.push(line).drop_last() =~= props);
    if let Some(name) = lines::property_name(line) {
        assert(calendar_write::deletes(delete, name) == exists|i: int|
            0 <= i < delete.len() && Some(#[trigger] text::uppercase(delete[i])) == Some(name)) by {
            if calendar_write::deletes(delete, name) {
                let i = choose|i: int|
                    0 <= i < delete.len() && #[trigger] text::uppercase(delete[i]) == name;
                assert(Some(text::uppercase(delete[i])) == Some(name));
            }
            if exists|i: int|
                0 <= i < delete.len() && Some(#[trigger] text::uppercase(delete[i])) == Some(
                    name,
                ) {
                let i = choose|i: int|
                    0 <= i < delete.len() && Some(#[trigger] text::uppercase(delete[i])) == Some(
                        name,
                    );
                assert(text::uppercase(delete[i]) == name);
            }
        }
    }
}

/// A property is set by its name in any case, and the last value that is
/// given for it counts.
pub proof fn law_names_are_set_in_any_case(
    set: Seq<(Seq<char>, Seq<char>)>,
    name: Seq<char>,
    value: Seq<char>,
    other: Seq<char>,
)
    ensures
        ({
            let was = calendar_write::upper_entries(set);
            let is = calendar_write::upper_entries(set.push((name, value)));
            &&& ordered::lookup(is, text::uppercase(name)) == Some(value)
            &&& other != text::uppercase(name) ==> ordered::lookup(is, other) == ordered::lookup(
                was,
                other,
            )
        }),
{
    assert(set.push((name, value)).drop_last() =~= set);
    ordered::law_lookup_with_entry(
        calendar_write::upper_entries(set),
        text::uppercase(name),
        value,
        other,
    );
}

/// Every line that a patch appends is in the card, behind the others, and no
/// second time where it is there already.
pub proof fn law_appended_lines_are_there(
    props: Seq<Seq<char>>,
    set: Seq<(Seq<char>, Seq<char>)>,
    delete: Seq<Seq<char>>,
    append: Seq<Seq<char>>,
    line: Seq<char>,
)
    ensures
        ({
            let was = calendar_write::patched_props(props, set, delete, append);
            let is = calendar_write::patched_props(props, set, delete, append.push(line));
            &&& is.contains(line)
            &&& was.contains(line) ==> is == was
            &&& !was.contains(line) ==> is == was.push(line)
        }),
{
    assert(append.push(line).drop_last() =~= append);
    let was = calendar_write::patched_props(props, set, delete, append);
    let is = calendar_write::patched_props(props, set, delete, append.push(line));
    if !was.contains(line) {
        assert(is[is.len() - 1] == line);
    }
}

} // verus!
