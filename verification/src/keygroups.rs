//! Properties of a contact card that a rebuild would lose, and the crypto
//! settings per address that it carries over.
use vstd::prelude::*;

use crate::lines;
use crate::lines::{fold_content_line, unfold_ical_lines};
use crate::ordered;
use crate::ordered::{sort_unique, TextMap};
use crate::text;
use crate::text::{
    chars_of, concat3, copy_list, copy_text, join_texts, list_contains, string_of, text_eq,
    to_lower, to_upper, trimmed,
};
use crate::vcard;
use crate::vcard::is_known_vcard_prop;

verus! {

broadcast use crate::text::lemma_texts_push;

/// Names of the crypto settings of an address. They stand in the group of
/// their address (`item3.EMAIL` and `item3.KEY`) in the signed card.
pub const VCARD_KEY_FIELDS: [&'static str; 7] = [
    "KEY",
    "X-PM-MIMETYPE",
    "X-PM-ENCRYPT",
    "X-PM-ENCRYPT-UNTRUSTED",
    "X-PM-SIGN",
    "X-PM-SCHEME",
    "X-PM-TLS",
];

/// The crypto settings of one address: its lines, unfolded and as they are.
#[derive(Debug, Clone, PartialEq, Eq)]
pub struct KeyGroup {
    /// The address of the group.
    pub email: String,
    /// Lines of the form `GROUP.NAME;params:value`.
    pub lines: Vec<String>,
}

impl Default for KeyGroup {
    fn default() -> (r: KeyGroup)
        ensures
            r.email@ == Seq::<char>::empty(),
            r.lines@ == Seq::<String>::empty(),
    {
        KeyGroup { email: String::new(), lines: Vec::new() }
    }
}

/// What a [`KeyGroup`] holds.
#[verifier::ext_equal]
pub struct Group {
    pub email: Seq<char>,
    pub lines: Seq<Seq<char>>,
}

impl View for KeyGroup {
    type V = Group;

    open spec fn view(&self) -> Group {
        Group { email: self.email@, lines: text::texts(self.lines@) }
    }
}

pub open spec fn groups_view(v: Seq<KeyGroup>) -> Seq<Group> {
    Seq::new(v.len(), |i: int| v[i]@)
}

// ---------------------------------------------------------------------
// Names
// ---------------------------------------------------------------------

/// Where the name of a content line ends: at the first semicolon or colon.
pub open spec fn name_end(line: Seq<char>) -> int {
    let a = text::find(line, ';');
    let b = text::find(line, ':');
    if a < b {
        a
    } else {
        b
    }
}

/// The trimmed name of a content line.
pub open spec fn line_name(line: Seq<char>) -> Seq<char> {
    text::trim(line.take(name_end(line)))
}

/// Position of the last `c` in `s`, or -1 without one.
pub open spec fn find_last(s: Seq<char>, c: char) -> int
    decreases s.len(),
{
    if s.len() == 0 {
        -1
    } else if s.last() == c {
        s.len() - 1
    } else {
        find_last(s.drop_last(), c)
    }
}

/// Group and base name, in upper case, of a content line.
#[verifier::ext_equal]
pub struct GroupedName {
    pub group: Option<Seq<char>>,
    pub base: Seq<char>,
}

/// Group and base name of a content line; none when it has no name.
pub open spec fn grouped_name(line: Seq<char>) -> Option<GroupedName> {
    let name = line_name(line);
    let d = find_last(name, '.');
    if name.len() == 0 {
        None
    } else if 0 < d < name.len() - 1 {
        Some(
            GroupedName {
                group: Some(name.take(d)),
                base: text::uppercase(name.skip(d + 1)),
            },
        )
    } else {
        Some(GroupedName { group: None, base: text::uppercase(name) })
    }
}

/// The upper-cased name of a content line without its group.
pub open spec fn base_name(line: Seq<char>) -> Seq<char> {
    let name = text::uppercase(line_name(line));
    name.skip(find_last(name, '.') + 1)
}

proof fn lemma_name_end(line: Seq<char>)
    ensures
        0 <= name_end(line) <= line.len(),
{
    text::lemma_find(line, ';');
    text::lemma_find(line, ':');
}

fn untrimmed_name(line: &str) -> (r: String)
    ensures
        r@ == line@.take(name_end(line@)),
{
    let v: Vec<char> = chars_of(line);
    assert(v@.skip(0) =~= v@);
    let a: usize = text::find_char(&v, 0, ';');
    let b: usize = text::find_char(&v, 0, ':');
    let e: usize = if a < b {
        a
    } else {
        b
    };
    let head: String = string_of(&v, 0, e);
    assert(head@ =~= line@.take(e as int));
    head
}

fn name_of_line(line: &str) -> (r: String)
    ensures
        r@ == line_name(line@),
{
    let head: String = untrimmed_name(line);
    trimmed(head.as_str())
}

/// Position behind the last `c`, 0 without one.
fn behind_last(v: &Vec<char>, c: char) -> (r: usize)
    ensures
        r <= v@.len(),
        r == find_last(v@, c) + 1,
{
    let mut i: usize = v.len();
    assert(v@.take(i as int) =~= v@);
    while i > 0 && v[i - 1] != c
        invariant
            i <= v@.len(),
            find_last(v@, c) == find_last(v@.take(i as int), c),
        decreases i,
    {
        assert(v@.take(i as int).drop_last() =~= v@.take(i - 1));
        assert(v@.take(i as int).last() == v@[i - 1]);
        i = i - 1;
    }
    assert(i > 0 ==> v@.take(i as int).last() == v@[i - 1]);
    i
}

/// Splits the name of a content line into group and base name.
pub fn split_grouped_name(line: &str) -> (r: Option<(Option<String>, String)>)
    ensures
        match r {
            Some(p) => grouped_name(line@) == Some(
                GroupedName { group: text::option_text(p.0), base: p.1@ },
            ),
            None => grouped_name(line@) is None,
        },
{
    let name: String = name_of_line(line);
    let v: Vec<char> = chars_of(name.as_str());
    if v.len() == 0 {
        return None;
    }
    let d: usize = behind_last(&v, '.');
    if d > 1 && d < v.len() {
        let group: String = string_of(&v, 0, d - 1);
        assert(group@ =~= name@.take(d - 1));
        let base: String = string_of(&v, d, v.len());
        assert(base@ =~= name@.skip(d as int));
        Some((Some(group), to_upper(base.as_str())))
    } else {
        Some((None, to_upper(name.as_str())))
    }
}

/// The base names of the lines that have one, in order.
pub open spec fn prop_names(l: Seq<Seq<char>>) -> Seq<Seq<char>>
    decreases l.len(),
{
    if l.len() == 0 {
        seq![]
    } else {
        let init = prop_names(l.drop_last());
        if base_name(l.last()).len() == 0 {
            init
        } else {
            init.push(base_name(l.last()))
        }
    }
}

/// Upper-cased property names of a card, without their groups.
pub fn card_prop_names(card: &str) -> (r: Vec<String>)
    ensures
        text::texts(r@) == prop_names(lines::unfold(lines::card_lines(card@))),
{
    let all: Vec<String> = unfold_ical_lines(card);
    let mut out: Vec<String> = Vec::new();
    let ghost t = text::texts(all@);
    let mut i: usize = 0;
    assert(text::texts(out@) =~= seq![]);
    while i < all.len()
        invariant
            i <= all@.len(),
            t == text::texts(all@),
            text::texts(out@) == prop_names(t.take(i as int)),
        decreases all@.len() - i,
    {
        assert(t.take(i + 1).drop_last() =~= t.take(i as int));
        assert(t.take(i + 1).last() == all@[i as int]@);
        let name: String = to_upper(name_of_line(all[i].as_str()).as_str());
        let v: Vec<char> = chars_of(name.as_str());
        let d: usize = behind_last(&v, '.');
        let base: String = string_of(&v, d, v.len());
        assert(base@ =~= base_name(all@[i as int]@));
        if !text::is_empty(base.as_str()) {
            out.push(base);
        }
        i = i + 1;
    }
    assert(t.take(t.len() as int) =~= t);
    out
}

/// The names that a rebuilt card would lose.
pub open spec fn unknown_of(names: Seq<Seq<char>>) -> Seq<Seq<char>> {
    names.filter(|n: Seq<char>| !vcard::known_prop(n))
}

/// The names of all cards, one card after the other.
pub open spec fn all_names(cards: Seq<Seq<char>>) -> Seq<Seq<char>>
    decreases cards.len(),
{
    if cards.len() == 0 {
        seq![]
    } else {
        all_names(cards.drop_last()) + unknown_of(
            prop_names(lines::unfold(lines::card_lines(cards.last()))),
        )
    }
}

fn add_unknown(out: &mut Vec<String>, names: &Vec<String>)
    ensures
        text::texts(final(out)@) == text::texts(old(out)@) + unknown_of(text::texts(names@)),
{
    let ghost start = text::texts(out@);
    let ghost t = text::texts(names@);
    let ghost keep = |n: Seq<char>| !vcard::known_prop(n);
    let mut i: usize = 0;
    assert(t.take(0).filter(keep) =~= seq![]) by {
        reveal(Seq::filter);
    }
    while i < names.len()
        invariant
            i <= names@.len(),
            t == text::texts(names@),
            keep == (|n: Seq<char>| !vcard::known_prop(n)),
            text::texts(out@) =~= start + t.take(i as int).filter(keep),
        decreases names@.len() - i,
    {
        assert(t.take(i + 1).filter(keep) == (if keep(t[i as int]) {
            t.take(i as int).filter(keep).push(t[i as int])
        } else {
            t.take(i as int).filter(keep)
        })) by {
            reveal(Seq::filter);
            assert(t.take(i + 1).drop_last() =~= t.take(i as int));
        }
        if !is_known_vcard_prop(names[i].as_str()) {
            out.push(copy_text(names[i].as_str()));
        }
        i = i + 1;
    }
    assert(t.take(t.len() as int) =~= t);
}

/// The property names that a rebuild of these cards would lose: in order,
/// each once, never with a value.
pub fn unknown_vcard_props(cards: &[String]) -> (r: Vec<String>)
    ensures
        text::texts(r@) == ordered::sorted_unique(all_names(text::texts(cards@))),
{
    let mut out: Vec<String> = Vec::new();
    let ghost t = text::texts(cards@);
    let mut i: usize = 0;
    assert(text::texts(out@) =~= seq![]);
    while i < cards.len()
        invariant
            i <= cards@.len(),
            t == text::texts(cards@),
            text::texts(out@) == all_names(t.take(i as int)),
        decreases cards@.len() - i,
    {
        assert(t.take(i + 1).drop_last() =~= t.take(i as int));
        assert(t.take(i + 1).last() == cards@[i as int]@);
        add_unknown(&mut out, &card_prop_names(cards[i].as_str()));
        i = i + 1;
    }
    assert(t.take(t.len() as int) =~= t);
    sort_unique(&out)
}

/// Whether any of the cards has a property that a rebuild would lose.
pub fn has_unknown_vcard_props(cards: &[String]) -> (r: bool)
    ensures
        r == (all_names(text::texts(cards@)).len() > 0),
{
    let names: Vec<String> = unknown_vcard_props(cards);
    proof {
        let all = all_names(text::texts(cards@));
        ordered::law_sorted_unique(all);
        assert(text::texts(names@).len() == names@.len());
        if all.len() > 0 {
            assert(all.contains(all[0]));
            assert(ordered::sorted_unique(all).contains(all[0]));
        } else {
            assert(ordered::sorted_unique(all) =~= seq![]);
        }
    }
    names.len() > 0
}

// ---------------------------------------------------------------------
// Key groups
// ---------------------------------------------------------------------

/// The lines of one group: its key in upper case, its addresses and its
/// settings.
#[verifier::ext_equal]
pub struct Gathered {
    pub key: Seq<char>,
    pub emails: Seq<Seq<char>>,
    pub lines: Seq<Seq<char>>,
}

pub open spec fn is_key_field(base: Seq<char>) -> bool {
    exists|i: int|
        0 <= i < VCARD_KEY_FIELDS@.len() && #[trigger] VCARD_KEY_FIELDS@[i]@ == base
}

/// Position of the group with this key, or the number of groups.
pub open spec fn group_at(gs: Seq<Gathered>, key: Seq<char>) -> int
    decreases gs.len(),
{
    if gs.len() == 0 || gs[0].key == key {
        0
    } else {
        1 + group_at(gs.skip(1), key)
    }
}

/// The trimmed value of a line, behind its first colon.
pub open spec fn line_value(line: Seq<char>) -> Option<Seq<char>> {
    let k = text::find(line, ':');
    if k < line.len() {
        Some(text::trim(line.skip(k + 1)))
    } else {
        None
    }
}

pub open spec fn gathered_with(g: Gathered, base: Seq<char>, line: Seq<char>) -> Gathered {
    if base == "EMAIL"@ {
        match line_value(line) {
            Some(v) => Gathered { emails: g.emails.push(v), ..g },
            None => g,
        }
    } else {
        Gathered { lines: g.lines.push(line), ..g }
    }
}

/// Takes in one line: an address or a setting that stands in a group.
pub open spec fn gather_step(gs: Seq<Gathered>, line: Seq<char>) -> Seq<Gathered> {
    match grouped_name(line) {
        Some(GroupedName { group: Some(group), base }) => if is_key_field(base) || base
            == "EMAIL"@ {
            let key = text::uppercase(group);
            let k = group_at(gs, key);
            if k < gs.len() {
                gs.update(k, gathered_with(gs[k], base, line))
            } else {
                gs.push(
                    gathered_with(Gathered { key, emails: seq![], lines: seq![] }, base, line),
                )
            }
        } else {
            gs
        },
        _ => gs,
    }
}

pub open spec fn gather(l: Seq<Seq<char>>) -> Seq<Gathered>
    decreases l.len(),
{
    if l.len() == 0 {
        seq![]
    } else {
        gather_step(gather(l.drop_last()), l.last())
    }
}

/// A group whose settings can be carried over: it has an address and at
/// least one setting.
pub open spec fn preservable(g: Gathered) -> bool {
    g.emails.len() > 0 && g.emails[0].len() > 0 && g.lines.len() > 0
}

pub open spec fn preserved(gs: Seq<Gathered>) -> Seq<Group>
    decreases gs.len(),
{
    if gs.len() == 0 {
        seq![]
    } else {
        let init = preserved(gs.drop_last());
        if preservable(gs.last()) {
            init.push(Group { email: gs.last().emails[0], lines: gs.last().lines })
        } else {
            init
        }
    }
}

/// The groups of a card whose settings can be carried over, in the order in
/// which they first occur.
pub open spec fn key_groups(card: Seq<char>) -> Seq<Group> {
    preserved(gather(lines::unfold(lines::card_lines(card))))
}

struct GroupLines {
    key: String,
    emails: Vec<String>,
    lines: Vec<String>,
}

impl View for GroupLines {
    type V = Gathered;

    closed spec fn view(&self) -> Gathered {
        Gathered {
            key: self.key@,
            emails: text::texts(self.emails@),
            lines: text::texts(self.lines@),
        }
    }
}

spec fn gathered_view(v: Seq<GroupLines>) -> Seq<Gathered> {
    Seq::new(v.len(), |i: int| v[i]@)
}

proof fn lemma_group_at(gs: Seq<Gathered>, key: Seq<char>, k: int)
    requires
        0 <= k <= gs.len(),
        k < gs.len() ==> gs[k].key == key,
        forall|j: int| 0 <= j < k ==> (#[trigger] gs[j]).key != key,
    ensures
        group_at(gs, key) == k,
    decreases gs.len(),
{
    if gs.len() > 0 && k > 0 {
        assert(gs[0].key != key);
        let t = gs.skip(1);
        assert forall|j: int| 0 <= j < k - 1 implies (#[trigger] t[j]).key != key by {
            assert(t[j] == gs[j + 1]);
        }
        lemma_group_at(t, key, k - 1);
    }
}

fn key_field(base: &str) -> (r: bool)
    ensures
        r == is_key_field(base@),
{
    let mut i: usize = 0;
    while i < 7
        invariant
            i <= 7,
            forall|j: int| 0 <= j < i ==> #[trigger] VCARD_KEY_FIELDS@[j]@ != base@,
        decreases 7 - i,
    {
        if text_eq(VCARD_KEY_FIELDS[i], base) {
            return true;
        }
        i = i + 1;
    }
    false
}

fn value_of_line(line: &str) -> (r: Option<String>)
    ensures
        text::option_text(r) == line_value(line@),
{
    let v: Vec<char> = chars_of(line);
    assert(v@.skip(0) =~= v@);
    let k: usize = text::find_char(&v, 0, ':');
    if k == v.len() {
        return None;
    }
    let value: String = string_of(&v, k + 1, v.len());
    assert(value@ =~= line@.skip(k + 1));
    Some(trimmed(value.as_str()))
}

/// Takes one address or setting into its group.
fn add_to_group(g: &mut GroupLines, base: &str, line: &str)
    ensures
        final(g)@ == gathered_with(old(g)@, base@, line@),
{
    if text_eq(base, "EMAIL") {
        match value_of_line(line) {
            Some(v) => {
                g.emails.push(v);
            },
            None => {},
        }
    } else {
        g.lines.push(copy_text(line));
    }
}

fn gather_line(gs: &mut Vec<GroupLines>, line: &str)
    ensures
        gathered_view(final(gs)@) == gather_step(gathered_view(old(gs)@), line@),
{
    let (group, base): (String, String) = match split_grouped_name(line) {
        Some((Some(group), base)) => (group, base),
        _ => {
            return;
        },
    };
    if !key_field(base.as_str()) && !text_eq(base.as_str(), "EMAIL") {
        return;
    }
    let key: String = to_upper(group.as_str());
    let ghost t = gathered_view(gs@);
    let mut k: usize = 0;
    while k < gs.len() && !text_eq(gs[k].key.as_str(), key.as_str())
        invariant
            k <= gs@.len(),
            *gs == *old(gs),
            t == gathered_view(gs@),
            forall|j: int| 0 <= j < k ==> (#[trigger] t[j]).key != key@,
        decreases gs@.len() - k,
    {
        assert(t[k as int].key == gs@[k as int].key@);
        k = k + 1;
    }
    proof {
        if k < gs@.len() {
            assert(t[k as int].key == gs@[k as int].key@);
        }
        lemma_group_at(t, key@, k as int);
    }
    if k < gs.len() {
        let mut g: GroupLines = gs.remove(k);
        let ghost gv = g@;
        add_to_group(&mut g, base.as_str(), line);
        gs.insert(k, g);
        assert(gathered_view(gs@) =~= t.update(k as int, gathered_with(gv, base@, line@)));
    } else {
        let mut g: GroupLines = GroupLines { key, emails: Vec::new(), lines: Vec::new() };
        assert(g@ =~= (Gathered { key: key@, emails: seq![], lines: seq![] }));
        add_to_group(&mut g, base.as_str(), line);
        let ghost gv = g@;
        gs.push(g);
        assert(gathered_view(gs@) =~= t.push(gv));
    }
}

/// The crypto settings of a card that can be carried over: lines in a group
/// that has an address. Settings without an address, or outside a group, are
/// not among them.
pub fn extract_key_groups(card: &str) -> (r: Vec<KeyGroup>)
    ensures
        groups_view(r@) == key_groups(card@),
{
    let all: Vec<String> = unfold_ical_lines(card);
    let mut gs: Vec<GroupLines> = Vec::new();
    let ghost t = text::texts(all@);
    let mut i: usize = 0;
    assert(gathered_view(gs@) =~= seq![]);
    while i < all.len()
        invariant
            i <= all@.len(),
            t == text::texts(all@),
            gathered_view(gs@) == gather(t.take(i as int)),
        decreases all@.len() - i,
    {
        assert(t.take(i + 1).drop_last() =~= t.take(i as int));
        assert(t.take(i + 1).last() == all@[i as int]@);
        gather_line(&mut gs, all[i].as_str());
        i = i + 1;
    }
    assert(t.take(t.len() as int) =~= t);
    let ghost g = gathered_view(gs@);
    let mut out: Vec<KeyGroup> = Vec::new();
    let mut k: usize = 0;
    assert(groups_view(out@) =~= seq![]);
    while k < gs.len()
        invariant
            k <= gs@.len(),
            g == gathered_view(gs@),
            groups_view(out@) == preserved(g.take(k as int)),
        decreases gs@.len() - k,
    {
        assert(g.take(k + 1).drop_last() =~= g.take(k as int));
        assert(g.take(k + 1).last() == gs@[k as int]@);
        assert(gs@[k as int]@.emails.len() == gs@[k as int].emails@.len());
        assert(gs@[k as int]@.lines.len() == gs@[k as int].lines@.len());
        if gs[k].emails.len() > 0 && !text::is_empty(gs[k].emails[0].as_str()) && gs[k].lines.len()
            > 0 {
            let kg: KeyGroup = KeyGroup {
                email: copy_text(gs[k].emails[0].as_str()),
                lines: copy_list(&gs[k].lines),
            };
            let ghost before = groups_view(out@);
            let ghost kv = kg@;
            out.push(kg);
            assert(groups_view(out@) =~= before.push(kv));
        }
        k = k + 1;
    }
    assert(g.take(g.len() as int) =~= g);
    out
}

/// Whether a line is carried over with a key group.
pub open spec fn is_carried(gs: Seq<Group>, line: Seq<char>) -> bool {
    exists|i: int| 0 <= i < gs.len() && (#[trigger] gs[i]).lines.contains(line)
}

/// The names of the lines that a rebuild would lose although it carries the
/// key groups over.
pub open spec fn uncarried_names(l: Seq<Seq<char>>, gs: Seq<Group>) -> Seq<Seq<char>>
    decreases l.len(),
{
    if l.len() == 0 {
        seq![]
    } else {
        let init = uncarried_names(l.drop_last(), gs);
        match grouped_name(l.last()) {
            Some(n) if !is_carried(gs, l.last()) && n.base.len() > 0 && !vcard::known_prop(
                n.base,
            ) => init.push(n.base),
            _ => init,
        }
    }
}

pub open spec fn all_uncarried(cards: Seq<Seq<char>>) -> Seq<Seq<char>>
    decreases cards.len(),
{
    if cards.len() == 0 {
        seq![]
    } else {
        all_uncarried(cards.drop_last()) + uncarried_names(
            lines::unfold(lines::card_lines(cards.last())),
            key_groups(cards.last()),
        )
    }
}

fn carried(gs: &Vec<KeyGroup>, line: &str) -> (r: bool)
    ensures
        r == is_carried(groups_view(gs@), line@),
{
    let ghost t = groups_view(gs@);
    let mut i: usize = 0;
    while i < gs.len()
        invariant
            i <= gs@.len(),
            t == groups_view(gs@),
            forall|j: int| 0 <= j < i ==> !(#[trigger] t[j]).lines.contains(line@),
        decreases gs@.len() - i,
    {
        assert(t[i as int].lines == text::texts(gs@[i as int].lines@));
        if list_contains(&gs[i].lines, line) {
            assert(t[i as int].lines.contains(line@));
            return true;
        }
        i = i + 1;
    }
    false
}

fn add_uncarried(out: &mut Vec<String>, card: &str)
    ensures
        text::texts(final(out)@) == text::texts(old(out)@) + uncarried_names(
            lines::unfold(lines::card_lines(card@)),
            key_groups(card@),
        ),
{
    let gs: Vec<KeyGroup> = extract_key_groups(card);
    let all: Vec<String> = unfold_ical_lines(card);
    let ghost start = text::texts(out@);
    let ghost t = text::texts(all@);
    let ghost g = key_groups(card@);
    let mut i: usize = 0;
    while i < all.len()
        invariant
            i <= all@.len(),
            t == text::texts(all@),
            g == groups_view(gs@),
            text::texts(out@) =~= start + uncarried_names(t.take(i as int), g),
        decreases all@.len() - i,
    {
        assert(t.take(i + 1).drop_last() =~= t.take(i as int));
        assert(t.take(i + 1).last() == all@[i as int]@);
        if !carried(&gs, all[i].as_str()) {
            match split_grouped_name(all[i].as_str()) {
                Some((_, base)) => {
                    if !text::is_empty(base.as_str()) && !is_known_vcard_prop(base.as_str()) {
                        out.push(base);
                    }
                },
                None => {},
            }
        }
        i = i + 1;
    }
    assert(t.take(t.len() as int) =~= t);
}

/// The property names that a rebuild would lose although it carries the key
/// groups over: in order, each once.
pub fn unknown_vcard_props_except_keys(cards: &[String]) -> (r: Vec<String>)
    ensures
        text::texts(r@) == ordered::sorted_unique(all_uncarried(text::texts(cards@))),
{
    let mut out: Vec<String> = Vec::new();
    let ghost t = text::texts(cards@);
    let mut i: usize = 0;
    assert(text::texts(out@) =~= seq![]);
    while i < cards.len()
        invariant
            i <= cards@.len(),
            t == text::texts(cards@),
            text::texts(out@) == all_uncarried(t.take(i as int)),
        decreases cards@.len() - i,
    {
        assert(t.take(i + 1).drop_last() =~= t.take(i as int));
        assert(t.take(i + 1).last() == cards@[i as int]@);
        add_uncarried(&mut out, cards[i].as_str());
        i = i + 1;
    }
    assert(t.take(t.len() as int) =~= t);
    sort_unique(&out)
}

/// The same entries under lower-cased keys.
pub open spec fn lower_entries(m: Seq<(Seq<char>, Seq<char>)>) -> Seq<(Seq<char>, Seq<char>)>
    decreases m.len(),
{
    if m.len() == 0 {
        seq![]
    } else {
        ordered::with_entry(
            lower_entries(m.drop_last()),
            text::lowercase(m.last().0),
            m.last().1,
        )
    }
}

/// A line under another group: only what stands before the last dot of its
/// name changes.
pub open spec fn regrouped(line: Seq<char>, group: Seq<char>) -> Seq<char> {
    let k = find_last(line.take(name_end(line)), '.');
    if k >= 0 {
        group + "."@ + line.skip(k + 1)
    } else {
        line
    }
}

/// The lines of the groups whose address has a new group.
pub open spec fn rendered(gs: Seq<Group>, lower: Seq<(Seq<char>, Seq<char>)>) -> Seq<Seq<char>>
    decreases gs.len(),
{
    if gs.len() == 0 {
        seq![]
    } else {
        let init = rendered(gs.drop_last(), lower);
        match ordered::lookup(lower, text::lowercase(gs.last().email)) {
            Some(group) => init + Seq::new(
                gs.last().lines.len(),
                |i: int| regrouped(gs.last().lines[i], group),
            ),
            None => init,
        }
    }
}

fn lower_map(m: &TextMap) -> (r: TextMap)
    ensures
        r@ == lower_entries(m@),
{
    let mut out: TextMap = TextMap::new();
    let mut i: usize = 0;
    while i < m.len()
        invariant
            i <= m@.len(),
            out@ == lower_entries(m@.take(i as int)),
        decreases m@.len() - i,
    {
        assert(m@.take(i + 1).drop_last() =~= m@.take(i as int));
        let (k, v): (&String, &String) = m.entry(i);
        out.insert(to_lower(k.as_str()), copy_text(v.as_str()));
        i = i + 1;
    }
    assert(m@.take(m@.len() as int) =~= m@);
    out
}

fn regroup(line: &str, group: &str) -> (r: String)
    ensures
        r@ == regrouped(line@, group@),
{
    let name: String = untrimmed_name(line);
    let n: Vec<char> = chars_of(name.as_str());
    let k: usize = behind_last(&n, '.');
    if k == 0 {
        return copy_text(line);
    }
    let v: Vec<char> = chars_of(line);
    proof {
        lemma_name_end(line@);
    }
    let rest: String = string_of(&v, k, v.len());
    assert(rest@ =~= line@.skip(k as int));
    concat3(group, ".", rest.as_str())
}

fn add_regrouped(out: &mut Vec<String>, l: &Vec<String>, group: &str)
    ensures
        text::texts(final(out)@) == text::texts(old(out)@) + Seq::new(
            l@.len(),
            |i: int| regrouped(text::texts(l@)[i], group@),
        ),
{
    let ghost start = text::texts(out@);
    let ghost t = text::texts(l@);
    let mut i: usize = 0;
    while i < l.len()
        invariant
            i <= l@.len(),
            t == text::texts(l@),
            text::texts(out@) =~= start + Seq::new(i as nat, |k: int| regrouped(t[k], group@)),
        decreases l@.len() - i,
    {
        out.push(regroup(l[i].as_str(), group));
        i = i + 1;
    }
}

/// The lines of carried groups under new group names: `email_to_group` gives
/// the new group of an address, in any case. A group whose address is gone
/// is dropped.
pub fn render_key_groups(groups: &[KeyGroup], email_to_group: &TextMap) -> (r: Vec<String>)
    ensures
        text::texts(r@) == rendered(groups_view(groups@), lower_entries(email_to_group@)),
{
    let lower: TextMap = lower_map(email_to_group);
    let mut out: Vec<String> = Vec::new();
    let ghost t = groups_view(groups@);
    let mut i: usize = 0;
    assert(text::texts(out@) =~= seq![]);
    while i < groups.len()
        invariant
            i <= groups@.len(),
            t == groups_view(groups@),
            text::texts(out@) == rendered(t.take(i as int), lower@),
        decreases groups@.len() - i,
    {
        assert(t.take(i + 1).drop_last() =~= t.take(i as int));
        assert(t.take(i + 1).last() == groups@[i as int]@);
        let key: String = to_lower(groups[i].email.as_str());
        match lower.get(key.as_str()) {
            Some(group) => {
                let ghost before = text::texts(out@);
                add_regrouped(&mut out, &groups[i].lines, group.as_str());
                assert(text::texts(out@) =~= rendered(t.take(i + 1), lower@));
            },
            None => {},
        }
        i = i + 1;
    }
    assert(t.take(t.len() as int) =~= t);
    out
}

// ---------------------------------------------------------------------
// Appending
// ---------------------------------------------------------------------

/// The pieces of `s` between occurrences of `CR LF`.
pub open spec fn split_crlf(s: Seq<char>) -> Seq<Seq<char>>
    decreases s.len(),
    via split_crlf_shrinks
{
    match text::find_text(s, "\r\n"@) {
        Some(k) => seq![s.take(k)] + split_crlf(s.skip(k + 2)),
        None => seq![s],
    }
}

#[via_fn]
proof fn split_crlf_shrinks(s: Seq<char>) {
    reveal_strlit("\r\n");
    text::lemma_find_text(s, "\r\n"@);
}

/// A card with folded lines added before its end.
pub open spec fn with_lines(card: Seq<char>, more: Seq<Seq<char>>) -> Seq<char> {
    let parts = split_crlf(card);
    let body = if parts.last() == "END:VCARD"@ {
        parts.drop_last()
    } else {
        parts
    };
    if more.len() == 0 {
        card
    } else {
        text::join(body + lines::fold_each(more) + seq!["END:VCARD"@], "\r\n"@)
    }
}

fn crlf_parts(s: &str) -> (r: Vec<String>)
    ensures
        text::texts(r@) == split_crlf(s@),
        r@.len() > 0,
{
    let v: Vec<char> = chars_of(s);
    let pat: Vec<char> = chars_of("\r\n");
    proof {
        reveal_strlit("\r\n");
    }
    let mut out: Vec<String> = Vec::new();
    let mut start: usize = 0;
    assert(v@.skip(0) =~= v@);
    loop
        invariant
            start <= v@.len(),
            v@ == s@,
            pat@ == "\r\n"@,
            pat@.len() == 2,
            text::texts(out@) + split_crlf(v@.skip(start as int)) =~= split_crlf(s@),
        decreases v@.len() - start,
    {
        let ghost rest = v@.skip(start as int);
        match text::find_pattern(&v, start, &pat) {
            Some(k) => {
                let piece: String = string_of(&v, start, k);
                assert(piece@ =~= rest.take(k - start));
                out.push(piece);
                assert(rest.skip(k - start + 2) =~= v@.skip(k + 2));
                start = k + 2;
            },
            None => {
                let piece: String = string_of(&v, start, v.len());
                assert(piece@ =~= rest);
                out.push(piece);
                assert(text::texts(out@) =~= split_crlf(s@));
                return out;
            },
        }
    }
}

/// Adds content lines to a card, folded, before its end.
pub fn append_vcard_lines(card: &str, more: &[String]) -> (r: String)
    ensures
        r@ == with_lines(card@, text::texts(more@)),
{
    assert(text::texts(more@).len() == more@.len());
    if more.len() == 0 {
        return copy_text(card);
    }
    let mut out: Vec<String> = crlf_parts(card);
    let ghost parts = text::texts(out@);
    let last: usize = out.len() - 1;
    assert(parts.last() == out@[last as int]@);
    if text_eq(out[last].as_str(), "END:VCARD") {
        out.pop();
        assert(text::texts(out@) =~= parts.drop_last());
    }
    let ghost body = text::texts(out@);
    let ghost t = text::texts(more@);
    let mut i: usize = 0;
    while i < more.len()
        invariant
            i <= more@.len(),
            t == text::texts(more@),
            text::texts(out@) =~= body + lines::fold_each(t).take(i as int),
        decreases more@.len() - i,
    {
        out.push(fold_content_line(more[i].as_str()));
        i = i + 1;
    }
    assert(lines::fold_each(t).take(i as int) =~= lines::fold_each(t));
    out.push(copy_text("END:VCARD"));
    assert(text::texts(out@) =~= body + lines::fold_each(t) + seq!["END:VCARD"@]);
    join_texts(&out, "\r\n")
}

// ---------------------------------------------------------------------
// What carrying groups over keeps
// ---------------------------------------------------------------------

/// A setting that stands in a group keeps everything from the last dot of
/// its name on: what replaces the group stands before it, and the base name
/// stays.
pub proof fn law_regrouped_keeps_body(line: Seq<char>, group: Seq<char>)
    requires
        text::has_char(line.take(name_end(line)), '.'),
    ensures
        ({
            let k = find_last(line.take(name_end(line)), '.');
            &&& 0 <= k < name_end(line)
            &&& line[k] == '.'
            &&& forall|j: int| k < j < name_end(line) ==> line[j] != '.'
            &&& regrouped(line, group) == group + line.skip(k)
        }),
{
    let head = line.take(name_end(line));
    let k = find_last(head, '.');
    lemma_name_end(line);
    lemma_find_last(head, '.');
    reveal_strlit(".");
    assert(line[k] == head[k]);
    assert forall|j: int| k < j < name_end(line) implies line[j] != '.' by {
        assert(line[j] == head[j]);
    }
    assert(line.skip(k) =~= "."@ + line.skip(k + 1));
}

proof fn lemma_find_last(s: Seq<char>, c: char)
    ensures
        -1 <= find_last(s, c) < s.len(),
        find_last(s, c) >= 0 ==> s[find_last(s, c)] == c,
        forall|j: int| find_last(s, c) < j < s.len() ==> s[j] != c,
        text::has_char(s, c) ==> find_last(s, c) >= 0,
    decreases s.len(),
{
    if s.len() > 0 && s.last() != c {
        lemma_find_last(s.drop_last(), c);
        assert forall|j: int| find_last(s, c) < j < s.len() implies s[j] != c by {
            if j < s.len() - 1 {
                assert(s.drop_last()[j] == s[j]);
            }
        }
    }
}

/// Where the first line end is, text behind it left as it is.
proof fn lemma_find_crlf(a: Seq<char>, b: Seq<char>)
    ensures
        text::find_text(a + "\r\n"@ + b, "\r\n"@) == (match text::find_text(a, "\r\n"@) {
            Some(k) => Some(k),
            None => Some(a.len() as int),
        }),
    decreases a.len(),
{
    reveal_strlit("\r\n");
    let p = "\r\n"@;
    let s = a + p + b;
    if a.len() == 0 {
        assert(s.take(2) =~= p);
        assert(text::starts_with(s, p));
        assert(!text::starts_with(a, p));
    } else {
        lemma_find_crlf(a.skip(1), b);
        assert(s.skip(1) =~= a.skip(1) + p + b);
        if a.len() >= 2 {
            assert(s.take(2) =~= a.take(2));
        } else {
            assert(s[1] == '\r');
            assert(s.take(2)[1] == '\r');
            assert(p[1] == '\n');
        }
        assert(text::starts_with(s, p) == text::starts_with(a, p));
    }
}

proof fn lemma_split_crlf_at(a: Seq<char>, b: Seq<char>)
    ensures
        split_crlf(a + "\r\n"@ + b) == split_crlf(a) + split_crlf(b),
    decreases a.len(),
{
    reveal_strlit("\r\n");
    let s = a + "\r\n"@ + b;
    lemma_find_crlf(a, b);
    text::lemma_find_text(a, "\r\n"@);
    match text::find_text(a, "\r\n"@) {
        Some(k) => {
            assert(s.take(k) =~= a.take(k));
            assert(s.skip(k + 2) =~= a.skip(k + 2) + "\r\n"@ + b);
            lemma_split_crlf_at(a.skip(k + 2), b);
            assert(split_crlf(s) =~= split_crlf(a) + split_crlf(b));
        },
        None => {
            assert(s.take(a.len() as int) =~= a);
            assert(s.skip(a.len() as int + 2) =~= b);
            assert(split_crlf(s) =~= split_crlf(a) + split_crlf(b));
        },
    }
}

/// The pieces of a text, joined again, are the text.
proof fn lemma_join_split_crlf(s: Seq<char>)
    ensures
        split_crlf(s).len() > 0,
        text::join(split_crlf(s), "\r\n"@) == s,
    decreases s.len(),
{
    reveal_strlit("\r\n");
    text::lemma_find_text(s, "\r\n"@);
    match text::find_text(s, "\r\n"@) {
        Some(k) => {
            lemma_join_split_crlf(s.skip(k + 2));
            lines::lemma_join_concat(seq![s.take(k)], split_crlf(s.skip(k + 2)), "\r\n"@);
            assert(s =~= s.take(k) + s.subrange(k, k + 2) + s.skip(k + 2));
        },
        None => {},
    }
}

/// Lines added to a card that was built give the card that is built with
/// them.
pub proof fn law_added_lines_are_built_in(body: Seq<Seq<char>>, more: Seq<Seq<char>>)
    ensures
        with_lines(lines::card_of(vcard::card_content(body)), more) == lines::card_of(
            vcard::card_content(body + more),
        ),
{
    let end = "END:VCARD"@;
    let sep = "\r\n"@;
    let head = seq!["BEGIN:VCARD"@, "VERSION:4.0"@] + body;
    let x = lines::fold_each(head);
    let m = lines::fold_each(more);
    let card = lines::card_of(vcard::card_content(body));
    reveal_strlit("END:VCARD");
    reveal_strlit("\r\n");
    assert(lines::octets(end) <= 75) by {
        lines::lemma_few_octets(end);
    }
    lines::law_short_line_unfolded(end);
    assert(lines::fold_each(vcard::card_content(body)) =~= x + seq![end]);
    lines::lemma_join_concat(x, seq![end], sep);
    assert(card == text::join(x, sep) + sep + end);
    lemma_split_crlf_at(text::join(x, sep), end);
    assert(split_crlf(end) == seq![end]) by {
        lemma_no_crlf(end);
    }
    let parts = split_crlf(card);
    assert(parts.last() == end);
    assert(parts.drop_last() =~= split_crlf(text::join(x, sep)));
    lemma_join_split_crlf(text::join(x, sep));
    if more.len() == 0 {
        assert(body + more =~= body);
    } else {
        let pieces = parts.drop_last();
        assert(pieces + m + seq![end] =~= pieces + (m + seq![end]));
        lines::lemma_join_concat(pieces, m + seq![end], sep);
        assert(lines::fold_each(vcard::card_content(body + more)) =~= x + (m + seq![end]));
        lines::lemma_join_concat(x, m + seq![end], sep);
    }
}

/// Where a text ends in the end line, lines are added right before it.
pub proof fn law_added_before_end(body: Seq<char>, more: Seq<Seq<char>>)
    requires
        more.len() > 0,
    ensures
        with_lines(body + "\r\n"@ + "END:VCARD"@, more) == body + "\r\n"@ + text::join(
            lines::fold_each(more).push("END:VCARD"@),
            "\r\n"@,
        ),
{
    let end = "END:VCARD"@;
    reveal_strlit("END:VCARD");
    lemma_split_crlf_at(body, end);
    lemma_no_crlf(end);
    lemma_join_split_crlf(body);
    let m = lines::fold_each(more);
    let parts = split_crlf(body + "\r\n"@ + end);
    let pieces = split_crlf(body);
    assert(parts.last() == end);
    assert(parts.drop_last() =~= pieces);
    assert(pieces + m + seq![end] =~= pieces + m.push(end));
    lines::lemma_join_concat(pieces, m.push(end), "\r\n"@);
}

/// Lines added in two steps are the lines added in one, whatever the text
/// that they are added to.
pub proof fn law_added_in_two_steps(card: Seq<char>, first: Seq<Seq<char>>, second: Seq<Seq<char>>)
    ensures
        with_lines(with_lines(card, first), second) == with_lines(card, first + second),
{
    let end = "END:VCARD"@;
    let sep = "\r\n"@;
    if first.len() == 0 {
        assert(first + second =~= second);
    } else if second.len() == 0 {
        assert(first + second =~= first);
    } else {
        let parts = split_crlf(card);
        let body = if parts.last() == end {
            parts.drop_last()
        } else {
            parts
        };
        let (f, s) = (lines::fold_each(first), lines::fold_each(second));
        let head = body + f;
        lines::lemma_join_concat(head, seq![end], sep);
        assert(text::join(seq![end], sep) =~= end);
        law_added_before_end(text::join(head, sep), second);
        assert(lines::fold_each(first + second) =~= f + s);
        assert(body + (f + s) + seq![end] =~= head + s.push(end));
        lines::lemma_join_concat(head, s.push(end), sep);
    }
}

proof fn lemma_no_crlf(s: Seq<char>)
    requires
        !text::has_char(s, '\r'),
    ensures
        text::find_text(s, "\r\n"@) is None,
    decreases s.len(),
{
    reveal_strlit("\r\n");
    if s.len() >= 2 {
        assert(s.take(2)[0] == s[0]);
    }
    if s.len() > 0 {
        assert(!text::has_char(s.skip(1), '\r')) by {
            assert forall|i: int| 0 <= i < s.skip(1).len() implies s.skip(1)[i] != '\r' by {
                assert(s.skip(1)[i] == s[i + 1]);
            }
        }
        lemma_no_crlf(s.skip(1));
    }
}

} // verus!
