//! What the lines of a card say of a contact, and what an update keeps.
use vstd::prelude::*;

use crate::contact_seal;
use crate::error::ProtonError;
use crate::escape;
use crate::keygroups;
use crate::keygroups::{Gathered, Group};
use crate::lines;
use crate::models::ContactCard;
use crate::numbers;
use crate::ordered;
use crate::text;
use crate::vcard;
use crate::vcard::{Address, Contact, Line, Typed};
use crate::vcard_back;

verus! {

// ---------------------------------------------------------------------
// Reading a card
// ---------------------------------------------------------------------

/// The field that a property with one value fills; none for any other name.
#[verifier::opaque]
pub open spec fn field_of(c: Contact, name: Seq<char>) -> Option<Seq<char>> {
    let n = text::uppercase(name);
    if n == "FN"@ {
        Some(c.display_name)
    } else if n == "ORG"@ {
        Some(c.organization)
    } else if n == "TITLE"@ {
        Some(c.title)
    } else if n == "ROLE"@ {
        Some(c.role)
    } else if n == "URL"@ {
        Some(c.url)
    } else if n == "BDAY"@ {
        Some(c.birthday)
    } else if n == "ANNIVERSARY"@ || n == "X-ANNIVERSARY"@ {
        Some(c.anniversary)
    } else if n == "NICKNAME"@ {
        Some(c.nickname)
    } else if n == "GENDER"@ {
        Some(c.gender)
    } else {
        None
    }
}

/// Whether two properties fill the same field.
#[verifier::opaque]
pub open spec fn same_field(a: Seq<char>, b: Seq<char>) -> bool {
    let (x, y) = (text::uppercase(a), text::uppercase(b));
    x == y || (x == "ANNIVERSARY"@ || x == "X-ANNIVERSARY"@) && (y == "ANNIVERSARY"@ || y
        == "X-ANNIVERSARY"@)
}

/// A value as the contact has it: a date of eight digits gets dashes, and a
/// gender is the word that its first letter stands for.
pub open spec fn form_of(name: Seq<char>, v: Seq<char>) -> Seq<char> {
    let n = text::uppercase(name);
    let g = text::uppercase(v);
    if n == "BDAY"@ || n == "ANNIVERSARY"@ || n == "X-ANNIVERSARY"@ {
        if v.len() == 8 && forall|i: int| 0 <= i < 8 ==> '0' <= #[trigger] v[i] <= '9' {
            seq![v[0], v[1], v[2], v[3], '-', v[4], v[5], '-', v[6], v[7]]
        } else {
            v
        }
    } else if n == "GENDER"@ && g.len() > 0 {
        if g[0] == 'M' {
            "Male"@
        } else if g[0] == 'F' {
            "Female"@
        } else if g[0] == 'O' {
            "Other"@
        } else if g[0] == 'N' {
            "N/A"@
        } else if g[0] == 'U' {
            "Unknown"@
        } else {
            v
        }
    } else {
        v
    }
}

/// What a line says of a property with one value.
#[verifier::opaque]
pub open spec fn said(line: Line) -> Seq<char> {
    form_of(line.name, escape::unescape(line.value))
}

proof fn lemma_form(name: Seq<char>, v: Seq<char>)
    ensures
        ({
            let n = text::uppercase(name);
            &&& n == "BDAY"@ || n == "ANNIVERSARY"@ || n == "X-ANNIVERSARY"@ ==> vcard::bday_form(v)
                == form_of(name, v)
            &&& n == "GENDER"@ && text::uppercase(v).len() > 0 ==> vcard::gender_name(v) == form_of(
                name,
                v,
            )
            &&& n == "GENDER"@ && text::uppercase(v).len() == 0 ==> vcard::gender_name(v) == v
        }),
{
    vcard_back::lemma_names();
    reveal_strlit("-");
    let b = vcard::bday_form(v);
    if v.len() == 8 && numbers::all_digits(v) {
        assert(b =~= seq![v[0], v[1], v[2], v[3], '-', v[4], v[5], '-', v[6], v[7]]);
    } else if v.len() == 8 {
        let i = choose|i: int| 0 <= i < v.len() && !numbers::is_digit(#[trigger] v[i]);
        assert(!('0' <= v[i] <= '9'));
    }
}

/// One more line and the field of a property: the line counts where it is of
/// the property and the field is still empty, and leaves the field alone in
/// any other case.
proof fn lemma_field_step(c: Contact, line: Line, name: Seq<char>)
    requires
        field_of(c, name) is Some,
    ensures
        ({
            let after = field_of(vcard::contact_step(c, line), name);
            &&& after is Some
            &&& !same_field(line.name, name) ==> after == field_of(c, name)
            &&& same_field(line.name, name) && field_of(c, name)->Some_0.len() > 0 ==> after
                == field_of(c, name)
            &&& same_field(line.name, name) && field_of(c, name)->Some_0.len() == 0 ==> after
                == Some(said(line))
        }),
{
    reveal(field_of);
    reveal(same_field);
    reveal(said);
    vcard_back::lemma_names();
    lemma_form(line.name, escape::unescape(line.value));
}

/// Of a property with one value the first line counts that says something:
/// whatever stands before, between and behind, the contact has the value of
/// that line.
pub proof fn law_first_value_counts(l: Seq<Line>, k: int, name: Seq<char>)
    requires
        field_of(vcard::no_contact(), name) is Some,
        0 <= k < l.len(),
        same_field(l[k].name, name),
        said(l[k]).len() > 0,
        forall|j: int| 0 <= j < k && same_field(#[trigger] l[j].name, name) ==> said(l[j]).len() == 0,
    ensures
        field_of(vcard::contact_of_lines(l), name) == Some(said(l[k])),
    decreases l.len(),
{
    let init = l.drop_last();
    let before = vcard::contact_of_lines(init);
    assert forall|j: int|
        0 <= j < k && j < init.len() && same_field(#[trigger] init[j].name, name) implies said(
        init[j],
    ).len() == 0 by {
        assert(init[j] == l[j]);
    }
    lemma_has_field(before, name);
    lemma_field_step(before, l[l.len() - 1], name);
    if k < l.len() - 1 {
        assert(init[k] == l[k]);
        law_first_value_counts(init, k, name);
    } else {
        lemma_unsaid(init, name);
    }
}

proof fn lemma_has_field(c: Contact, name: Seq<char>)
    ensures
        field_of(c, name) is Some == field_of(vcard::no_contact(), name) is Some,
        field_of(vcard::no_contact(), name) matches Some(v) ==> v.len() == 0,
{
    reveal(field_of);
}

proof fn lemma_unsaid(l: Seq<Line>, name: Seq<char>)
    requires
        field_of(vcard::no_contact(), name) is Some,
        forall|j: int|
            0 <= j < l.len() && same_field(#[trigger] l[j].name, name) ==> said(l[j]).len() == 0,
    ensures
        field_of(vcard::contact_of_lines(l), name) matches Some(v) && v.len() == 0,
    decreases l.len(),
{
    lemma_has_field(vcard::contact_of_lines(l), name);
    if l.len() > 0 {
        let init = l.drop_last();
        assert forall|j: int|
            0 <= j < init.len() && same_field(#[trigger] init[j].name, name) implies said(
            init[j],
        ).len() == 0 by {
            assert(init[j] == l[j]);
        }
        lemma_unsaid(init, name);
        assert(l.last() == l[l.len() - 1]);
        lemma_field_step(vcard::contact_of_lines(init), l.last(), name);
    }
}

/// A property that no line says anything of stays empty.
pub proof fn law_unsaid_field_is_empty(l: Seq<Line>, name: Seq<char>)
    requires
        field_of(vcard::no_contact(), name) is Some,
        forall|j: int|
            0 <= j < l.len() && same_field(#[trigger] l[j].name, name) ==> said(l[j]).len() == 0,
    ensures
        field_of(vcard::contact_of_lines(l), name) matches Some(v) && v.len() == 0,
{
    lemma_unsaid(l, name);
}

/// The values of the `TYPE` parameters of a line.
pub open spec fn types_of(line: Line) -> Seq<Seq<char>> {
    vcard::param_values(line.params, "TYPE"@)
}

/// One more line and the lists of a contact: an address for mail, a number, a
/// note and a photo go behind those that are there, and any other line leaves
/// the lists alone. A photo without a value is none.
pub proof fn law_listed_lines_go_behind(l: Seq<Line>, line: Line)
    ensures
        ({
            let n = text::uppercase(line.name);
            let v = escape::unescape(line.value);
            let was = vcard::contact_of_lines(l);
            let is = vcard::contact_of_lines(l.push(line));
            let typed = Typed { value: v, types: types_of(line) };
            &&& is.emails == if n == "EMAIL"@ {
                was.emails.push(typed)
            } else {
                was.emails
            }
            &&& is.phones == if n == "TEL"@ {
                was.phones.push(typed)
            } else {
                was.phones
            }
            &&& is.notes == if n == "NOTE"@ {
                was.notes.push(v)
            } else {
                was.notes
            }
            &&& is.photos == if (n == "PHOTO"@ || n == "LOGO"@) && v.len() > 0 {
                was.photos.push(v)
            } else {
                was.photos
            }
            &&& n == "ADR"@ ==> is.addresses.len() == was.addresses.len() + 1
                && is.addresses.drop_last() == was.addresses && is.addresses.last().types
                == types_of(line)
            &&& n != "ADR"@ ==> is.addresses == was.addresses
        }),
{
    vcard_back::lemma_names();
    assert(l.push(line).drop_last() =~= l);
    let was = vcard::contact_of_lines(l);
    let is = vcard::contact_of_lines(l.push(line));
    if text::uppercase(line.name) == "ADR"@ {
        assert(is.addresses.drop_last() =~= was.addresses);
    }
}

/// The parts of an address are, behind the box and the extension, street,
/// locality, region, postal code and country.
pub proof fn law_address_reads_back(c: Contact, line: Line, a: Address)
    requires
        text::uppercase(line.name) == "ADR"@,
        line.value == ";;"@ + escape::escape(a.street) + ";"@ + escape::escape(a.locality) + ";"@
            + escape::escape(a.region) + ";"@ + escape::escape(a.postal_code) + ";"@
            + escape::escape(a.country),
        a.types == types_of(line),
    ensures
        vcard::contact_step(c, line).addresses == c.addresses.push(a),
{
    vcard_back::lemma_names();
    reveal_strlit(";");
    reveal_strlit(";;");
    let none = Seq::<char>::empty();
    let e5 = escape::escape(a.country);
    let e4 = escape::escape(a.postal_code) + (";"@ + e5);
    let e3 = escape::escape(a.region) + (";"@ + e4);
    let e2 = escape::escape(a.locality) + (";"@ + e3);
    let e1 = escape::escape(a.street) + (";"@ + e2);
    assert(escape::escape(none) =~= none);
    escape::law_escaped_part_splits_off(a.country, none);
    escape::law_escaped_part_splits_off(a.postal_code, e5);
    escape::law_escaped_part_splits_off(a.region, e4);
    escape::law_escaped_part_splits_off(a.locality, e3);
    escape::law_escaped_part_splits_off(a.street, e2);
    escape::law_escaped_part_splits_off(none, e1);
    escape::law_escaped_part_splits_off(none, ";"@ + e1);
    assert(none + (";"@ + e1) =~= ";"@ + e1);
    assert(line.value =~= none + (";"@ + (";"@ + e1)));
    let parts = escape::value_parts(line.value);
    assert(parts =~= seq![none, none, a.street, a.locality, a.region, a.postal_code, a.country]);
}

/// The parts of a name are the family name and the given name; the last name
/// of a card counts.
pub proof fn law_name_reads_back(
    l: Seq<Line>,
    line: Line,
    last: Seq<char>,
    first: Seq<char>,
    rest: Seq<char>,
)
    requires
        text::uppercase(line.name) == "N"@,
        rest.len() == 0 || rest[0] == ';',
        line.value == escape::escape(last) + ";"@ + escape::escape(first) + rest,
    ensures
        ({
            let is = vcard::contact_of_lines(l.push(line));
            &&& is.last_name == last
            &&& is.first_name == first
        }),
{
    vcard_back::lemma_names();
    reveal_strlit(";");
    assert(l.push(line).drop_last() =~= l);
    let tail = escape::escape(first) + rest;
    assert(line.value =~= escape::escape(last) + (";"@ + tail));
    escape::law_escaped_part_splits_off(last, tail);
    if rest.len() == 0 {
        escape::law_escaped_part_splits_off(first, rest);
        assert(tail =~= escape::escape(first));
    } else {
        escape::law_escaped_part_splits_off(first, rest.skip(1));
        assert(tail =~= escape::escape(first) + (";"@ + rest.skip(1)));
    }
    let parts = escape::value_parts(line.value);
    assert(parts[0] == last);
    assert(parts[1] == first);
}

/// A line of any other property leaves the name alone.
pub proof fn law_other_lines_keep_name(c: Contact, line: Line)
    requires
        text::uppercase(line.name) != "N"@,
    ensures
        vcard::contact_step(c, line).last_name == c.last_name,
        vcard::contact_step(c, line).first_name == c.first_name,
{
    vcard_back::lemma_names();
}

/// The values of every `TYPE` parameter count, in whatever case it is
/// written, one parameter after the other; other parameters do not.
pub proof fn law_types_add_up(
    params: Seq<(Seq<char>, Seq<Seq<char>>)>,
    name: Seq<char>,
    values: Seq<Seq<char>>,
)
    ensures
        text::same_ignoring_case(name, "TYPE"@) ==> vcard::param_values(
            params.push((name, values)),
            "TYPE"@,
        ) == vcard::param_values(params, "TYPE"@) + values,
        !text::same_ignoring_case(name, "TYPE"@) ==> vcard::param_values(
            params.push((name, values)),
            "TYPE"@,
        ) == vcard::param_values(params, "TYPE"@),
        vcard::param_values(seq![], "TYPE"@) == Seq::<Seq<char>>::empty(),
{
    assert(params.push((name, values)).drop_last() =~= params);
}

/// A line that starts a card.
pub open spec fn starts_card(line: Line) -> bool {
    text::same_ignoring_case(line.name, "BEGIN"@) && text::same_ignoring_case(
        line.value,
        "VCARD"@,
    )
}

/// Of several cards in one text the last one counts.
pub proof fn law_last_card_counts(before: Seq<Line>, begin: Line, card: Seq<Line>)
    requires
        starts_card(begin),
        forall|i: int| 0 <= i < card.len() ==> !starts_card(#[trigger] card[i]),
    ensures
        vcard::contact_of(before + seq![begin] + card) == vcard::contact_of_lines(
            seq![begin] + card,
        ),
{
    let l = before + seq![begin] + card;
    assert forall|i: int| 0 <= i < card.len() implies !vcard::is_begin(#[trigger] card[i]) by {
        assert(!starts_card(card[i]));
    }
    lemma_last_begin_at(before, begin, card);
    assert(l.skip(before.len() as int) =~= seq![begin] + card);
}

proof fn lemma_last_begin_at(before: Seq<Line>, begin: Line, card: Seq<Line>)
    requires
        vcard::is_begin(begin),
        forall|i: int| 0 <= i < card.len() ==> !vcard::is_begin(#[trigger] card[i]),
    ensures
        vcard::last_begin(before + seq![begin] + card) == before.len(),
    decreases card.len(),
{
    let l = before + seq![begin] + card;
    if card.len() == 0 {
        assert(l.last() == begin);
    } else {
        let init = card.drop_last();
        assert forall|i: int| 0 <= i < init.len() implies !vcard::is_begin(#[trigger] init[i]) by {
            assert(init[i] == card[i]);
        }
        lemma_last_begin_at(before, begin, init);
        assert(l.drop_last() =~= before + seq![begin] + init);
        assert(l.last() == card[card.len() - 1]);
    }
}

// ---------------------------------------------------------------------
// Writing cards
// ---------------------------------------------------------------------

/// The name that a card shows: the given one; without it the first and the
/// last name, with a space between where there are both; without these the
/// first address for mail.
pub proof fn law_shown_name(c: Contact)
    ensures
        c.display_name.len() > 0 ==> vcard::shown_name(c) == c.display_name,
        ({
            let full = text::trim(c.first_name + seq![' '] + c.last_name);
            &&& c.display_name.len() == 0 && full.len() > 0 ==> vcard::shown_name(c) == full
            &&& c.display_name.len() == 0 && full.len() == 0 && c.emails.len() > 0
                && c.emails[0].value.len() > 0 ==> vcard::shown_name(c) == c.emails[0].value
        }),
{
    reveal_strlit(" ");
    assert(c.first_name + " "@ + c.last_name =~= c.first_name + seq![' '] + c.last_name);
}

/// The signed card holds the UID, the name that is shown and the addresses
/// for mail, each in a group of its own that counts up, and nothing else.
pub proof fn law_signed_card_lines(c: Contact, uid: Seq<char>)
    ensures
        ({
            let l = vcard::signed_body(c, uid);
            &&& l.len() == 2 + c.emails.len()
            &&& l[0] == "UID:"@ + uid
            &&& l[1] == "FN:"@ + escape::escape(vcard::shown_name(c))
            &&& forall|i: int|
                0 <= i < c.emails.len() ==> {
                    let head = "item"@ + numbers::decimal((i + 1) as nat) + ".EMAIL"@;
                    &&& text::starts_with(#[trigger] l[i + 2], head)
                    &&& text::ends_with(l[i + 2], ":"@ + escape::escape(c.emails[i].value))
                    &&& c.emails[i].types.len() == 0 ==> l[i + 2] == head + ":"@ + escape::escape(
                        c.emails[i].value,
                    )
                }
        }),
{
    let l = vcard::signed_body(c, uid);
    assert forall|i: int| 0 <= i < c.emails.len() implies {
        let head = "item"@ + numbers::decimal((i + 1) as nat) + ".EMAIL"@;
        &&& text::starts_with(#[trigger] l[i + 2], head)
        &&& text::ends_with(l[i + 2], ":"@ + escape::escape(c.emails[i].value))
        &&& c.emails[i].types.len() == 0 ==> l[i + 2] == head + ":"@ + escape::escape(
            c.emails[i].value,
        )
    } by {
        let head = "item"@ + numbers::decimal((i + 1) as nat) + ".EMAIL"@;
        let e = escape::escape(c.emails[i].value);
        let types = vcard::type_suffix(c.emails[i].types);
        assert(l[i + 2] == vcard::email_line(c.emails[i], i));
        assert(l[i + 2] =~= head + types + ":"@ + e);
        assert(l[i + 2].take(head.len() as int) =~= head);
        let t = ":"@ + e;
        assert(l[i + 2].skip(l[i + 2].len() - t.len()) =~= t);
        if c.emails[i].types.len() == 0 {
            assert(l[i + 2] =~= head + ":"@ + e);
        }
    }
}

// ---------------------------------------------------------------------
// Crypto settings
// ---------------------------------------------------------------------

/// The name of a crypto setting of an address.
pub open spec fn is_setting(base: Seq<char>) -> bool {
    ||| base == "KEY"@
    ||| base == "X-PM-MIMETYPE"@
    ||| base == "X-PM-ENCRYPT"@
    ||| base == "X-PM-ENCRYPT-UNTRUSTED"@
    ||| base == "X-PM-SIGN"@
    ||| base == "X-PM-SCHEME"@
    ||| base == "X-PM-TLS"@
}

proof fn lemma_settings(base: Seq<char>)
    ensures
        keygroups::is_key_field(base) == is_setting(base),
{
    let fields = keygroups::VCARD_KEY_FIELDS@;
    assert(fields.len() == 7);
    assert(fields[0]@ == "KEY"@);
    assert(fields[1]@ == "X-PM-MIMETYPE"@);
    assert(fields[2]@ == "X-PM-ENCRYPT"@);
    assert(fields[3]@ == "X-PM-ENCRYPT-UNTRUSTED"@);
    assert(fields[4]@ == "X-PM-SIGN"@);
    assert(fields[5]@ == "X-PM-SCHEME"@);
    assert(fields[6]@ == "X-PM-TLS"@);
}

/// Whether a line stands in a group, whose name is given in upper case.
pub open spec fn is_in(line: Seq<char>, group: Seq<char>) -> bool {
    keygroups::grouped_name(line) matches Some(n) && n.group matches Some(g) && text::uppercase(g)
        == group
}

/// The base name of a line.
pub open spec fn base_of(line: Seq<char>) -> Seq<char> {
    keygroups::grouped_name(line)->Some_0.base
}

/// The settings of a group, in their order.
pub open spec fn settings_in(l: Seq<Seq<char>>, group: Seq<char>) -> Seq<Seq<char>>
    decreases l.len(),
{
    if l.len() == 0 {
        seq![]
    } else {
        let init = settings_in(l.drop_last(), group);
        if is_in(l.last(), group) && is_setting(base_of(l.last())) {
            init.push(l.last())
        } else {
            init
        }
    }
}

/// The addresses for mail of a group, in their order.
pub open spec fn emails_in(l: Seq<Seq<char>>, group: Seq<char>) -> Seq<Seq<char>>
    decreases l.len(),
{
    if l.len() == 0 {
        seq![]
    } else {
        let init = emails_in(l.drop_last(), group);
        if is_in(l.last(), group) && base_of(l.last()) == "EMAIL"@ && text::has_char(
            l.last(),
            ':',
        ) {
            init.push(text::trim(l.last().skip(text::find(l.last(), ':') + 1)))
        } else {
            init
        }
    }
}

proof fn lemma_group_at(gs: Seq<Gathered>, key: Seq<char>)
    ensures
        0 <= keygroups::group_at(gs, key) <= gs.len(),
        keygroups::group_at(gs, key) < gs.len() ==> gs[keygroups::group_at(gs, key)].key == key,
        forall|i: int| 0 <= i < keygroups::group_at(gs, key) ==> (#[trigger] gs[i]).key != key,
    decreases gs.len(),
{
    if gs.len() > 0 && gs[0].key != key {
        let rest = gs.skip(1);
        lemma_group_at(rest, key);
        assert forall|i: int| 0 <= i < keygroups::group_at(gs, key) implies (#[trigger] gs[i]).key
            != key by {
            if i > 0 {
                assert(rest[i - 1] == gs[i]);
            }
        }
        let k = keygroups::group_at(rest, key);
        if k < rest.len() {
            assert(gs[k + 1] == rest[k]);
        }
    }
}

/// Every key of the gathered groups occurs once, and under it stand the
/// addresses and the settings of the group.
spec fn gathers(gs: Seq<Gathered>, l: Seq<Seq<char>>) -> bool {
    &&& forall|i: int, j: int|
        0 <= i < j < gs.len() ==> (#[trigger] gs[i]).key != (#[trigger] gs[j]).key
    &&& forall|i: int|
        0 <= i < gs.len() ==> {
            &&& (#[trigger] gs[i]).emails == emails_in(l, gs[i].key)
            &&& gs[i].lines == settings_in(l, gs[i].key)
        }
    &&& forall|key: Seq<char>|
        !#[trigger] has_key(gs, key) ==> emails_in(l, key).len() == 0 && settings_in(l, key).len()
            == 0
}

spec fn has_key(gs: Seq<Gathered>, key: Seq<char>) -> bool {
    exists|i: int| 0 <= i < gs.len() && (#[trigger] gs[i]).key == key
}

proof fn lemma_gathers(l: Seq<Seq<char>>)
    ensures
        gathers(keygroups::gather(l), l),
    decreases l.len(),
{
    if l.len() > 0 {
        let init = l.drop_last();
        let line = l.last();
        lemma_gathers(init);
        lemma_gather_step(keygroups::gather(init), init, line);
        assert(init.push(line) =~= l);
    }
}

#[verifier::rlimit(60)]
proof fn lemma_gather_step(gs: Seq<Gathered>, l: Seq<Seq<char>>, line: Seq<char>)
    requires
        gathers(gs, l),
    ensures
        gathers(keygroups::gather_step(gs, line), l.push(line)),
{
    let after = keygroups::gather_step(gs, line);
    let all = l.push(line);
    assert(all.drop_last() =~= l);
    assert(all.last() == line);
    lemma_setting_names();
    text::lemma_find(line, ':');
    let named = keygroups::grouped_name(line);
    let in_group = named is Some && named->Some_0.group is Some;
    let key = text::uppercase(named->Some_0.group->Some_0);
    let base = named->Some_0.base;
    lemma_settings(base);
    assert forall|k: Seq<char>| !(in_group && k == key && (is_setting(base) || base == "EMAIL"@)) implies #[trigger] emails_in(
        all,
        k,
    ) == emails_in(l, k) && settings_in(all, k) == settings_in(l, k) by {}
    if in_group && (is_setting(base) || base == "EMAIL"@) {
        assert(text::has_char(line, ':') == (text::find(line, ':') < line.len())) by {
            if text::find(line, ':') < line.len() {
                assert(line[text::find(line, ':')] == ':');
            }
        }
        lemma_group_at(gs, key);
        let k = keygroups::group_at(gs, key);
        if k < gs.len() {
            assert(after =~= gs.update(k, keygroups::gathered_with(gs[k], base, line)));
            assert forall|i: int| 0 <= i < after.len() implies (#[trigger] after[i]).key
                == gs[i].key by {}
            assert forall|i: int, j: int| 0 <= i < j < after.len() implies (
            #[trigger] after[i]).key != (#[trigger] after[j]).key by {
                assert(gs[i].key != gs[j].key);
            }
            assert forall|i: int| 0 <= i < after.len() implies {
                &&& (#[trigger] after[i]).emails == emails_in(all, after[i].key)
                &&& after[i].lines == settings_in(all, after[i].key)
            } by {
                if i != k {
                    assert(gs[i].key != key) by {
                        if i < k {
                            assert(gs[i].key != gs[k].key);
                        } else {
                            assert(gs[k].key != gs[i].key);
                        }
                    }
                    assert(emails_in(all, gs[i].key) == emails_in(l, gs[i].key));
                }
            }
            assert forall|other: Seq<char>| !#[trigger] has_key(after, other) implies emails_in(
                all,
                other,
            ).len() == 0 && settings_in(all, other).len() == 0 by {
                assert(after[k].key == key);
                assert(!has_key(gs, other)) by {
                    assert forall|i: int| 0 <= i < gs.len() implies (#[trigger] gs[i]).key
                        != other by {
                        assert(after[i].key == gs[i].key);
                    }
                }
                assert(emails_in(all, other) == emails_in(l, other));
            }
        } else {
            let first = Gathered { key, emails: seq![], lines: seq![] };
            let new = keygroups::gathered_with(first, base, line);
            assert(after =~= gs.push(new));
            assert(new.key == key);
            assert(!has_key(gs, key));
            assert(emails_in(l, key) =~= seq![]);
            assert(settings_in(l, key) =~= seq![]);
            assert forall|i: int| 0 <= i < after.len() implies {
                &&& (#[trigger] after[i]).emails == emails_in(all, after[i].key)
                &&& after[i].lines == settings_in(all, after[i].key)
            } by {
                if i < gs.len() {
                    assert(after[i] == gs[i]);
                    assert(emails_in(all, gs[i].key) == emails_in(l, gs[i].key));
                } else {
                    assert(after[i].emails =~= emails_in(all, key));
                    assert(after[i].lines =~= settings_in(all, key));
                }
            }
            assert forall|other: Seq<char>| !#[trigger] has_key(after, other) implies emails_in(
                all,
                other,
            ).len() == 0 && settings_in(all, other).len() == 0 by {
                assert(after[gs.len() as int].key == key);
                assert(!has_key(gs, other)) by {
                    assert forall|i: int| 0 <= i < gs.len() implies (#[trigger] gs[i]).key
                        != other by {
                        assert(after[i].key == gs[i].key);
                    }
                }
                assert(emails_in(all, other) == emails_in(l, other));
            }
        }
    } else {
        assert(after == gs);
        assert forall|i: int| 0 <= i < after.len() implies {
            &&& (#[trigger] after[i]).emails == emails_in(all, after[i].key)
            &&& after[i].lines == settings_in(all, after[i].key)
        } by {
            assert(emails_in(all, gs[i].key) == emails_in(l, gs[i].key));
        }
        assert forall|other: Seq<char>| !#[trigger] has_key(after, other) implies emails_in(
            all,
            other,
        ).len() == 0 && settings_in(all, other).len() == 0 by {
            assert(!has_key(gs, other));
            assert(emails_in(all, other) == emails_in(l, other));
        }
    }
}

proof fn lemma_setting_names()
    ensures
        !is_setting("EMAIL"@),
{
    reveal_strlit("KEY");
    reveal_strlit("X-PM-MIMETYPE");
    reveal_strlit("X-PM-ENCRYPT");
    reveal_strlit("X-PM-ENCRYPT-UNTRUSTED");
    reveal_strlit("X-PM-SIGN");
    reveal_strlit("X-PM-SCHEME");
    reveal_strlit("X-PM-TLS");
    reveal_strlit("EMAIL");
    assert("EMAIL"@[0] == 'E');
}

proof fn lemma_preserved(gs: Seq<Gathered>)
    ensures
        forall|g: Group|
            #[trigger] keygroups::preserved(gs).contains(g) <==> exists|i: int|
                0 <= i < gs.len() && keygroups::preservable(#[trigger] gs[i]) && g == (Group {
                    email: gs[i].emails[0],
                    lines: gs[i].lines,
                }),
    decreases gs.len(),
{
    if gs.len() > 0 {
        let init = gs.drop_last();
        lemma_preserved(init);
        let before = keygroups::preserved(init);
        let after = keygroups::preserved(gs);
        assert forall|g: Group| #[trigger] after.contains(g) <==> exists|i: int|
            0 <= i < gs.len() && keygroups::preservable(#[trigger] gs[i]) && g == (Group {
                email: gs[i].emails[0],
                lines: gs[i].lines,
            }) by {
            let own = Group { email: gs.last().emails[0], lines: gs.last().lines };
            if before.contains(g) {
                let j = choose|j: int| 0 <= j < before.len() && before[j] == g;
                assert(after[j] == g);
                let i = choose|i: int|
                    0 <= i < init.len() && keygroups::preservable(#[trigger] init[i]) && g == (
                    Group { email: init[i].emails[0], lines: init[i].lines });
                assert(gs[i] == init[i]);
            }
            if keygroups::preservable(gs.last()) && g == own {
                assert(after[after.len() - 1] == g);
                assert(gs[gs.len() - 1] == gs.last());
            }
            if after.contains(g) {
                let j = choose|j: int| 0 <= j < after.len() && after[j] == g;
                if j < before.len() {
                    assert(before[j] == g);
                }
            }
            if exists|i: int|
                0 <= i < gs.len() && keygroups::preservable(#[trigger] gs[i]) && g == (Group {
                    email: gs[i].emails[0],
                    lines: gs[i].lines,
                }) {
                let i = choose|i: int|
                    0 <= i < gs.len() && keygroups::preservable(#[trigger] gs[i]) && g == (Group {
                        email: gs[i].emails[0],
                        lines: gs[i].lines,
                    });
                if i < init.len() {
                    assert(init[i] == gs[i]);
                    assert(before.contains(g));
                }
            }
        }
    }
}

/// The settings of an address are all the settings that stand in its group,
/// in their order: a group with an address and a setting is read with both.
pub proof fn law_settings_are_read(card: Seq<char>, group: Seq<char>)
    ensures
        ({
            let l = lines::unfold(lines::card_lines(card));
            let emails = emails_in(l, group);
            let settings = settings_in(l, group);
            emails.len() > 0 && emails[0].len() > 0 && settings.len() > 0
                ==> keygroups::key_groups(card).contains(
                Group { email: emails[0], lines: settings },
            )
        }),
{
    let l = lines::unfold(lines::card_lines(card));
    let gs = keygroups::gather(l);
    lemma_gathers(l);
    lemma_preserved(gs);
    let emails = emails_in(l, group);
    let settings = settings_in(l, group);
    if emails.len() > 0 && emails[0].len() > 0 && settings.len() > 0 {
        assert(has_key(gs, group));
        let i = choose|i: int| 0 <= i < gs.len() && (#[trigger] gs[i]).key == group;
        assert(gs[i].emails == emails && gs[i].lines == settings);
        assert(keygroups::preservable(gs[i]));
    }
}

/// A group of settings that is read is one that stands in the card: nothing
/// is made up.
pub proof fn law_read_settings_are_there(card: Seq<char>, g: Group)
    requires
        keygroups::key_groups(card).contains(g),
    ensures
        ({
            let l = lines::unfold(lines::card_lines(card));
            exists|group: Seq<char>|
                #![trigger settings_in(l, group)]
                g.lines == settings_in(l, group) && g.lines.len() > 0 && emails_in(l, group).len()
                    > 0 && g.email == emails_in(l, group)[0] && g.email.len() > 0
        }),
{
    let l = lines::unfold(lines::card_lines(card));
    let gs = keygroups::gather(l);
    lemma_gathers(l);
    lemma_preserved(gs);
    let i = choose|i: int|
        0 <= i < gs.len() && keygroups::preservable(#[trigger] gs[i]) && g == (Group {
            email: gs[i].emails[0],
            lines: gs[i].lines,
        });
    assert(g.lines == settings_in(l, gs[i].key));
}

/// A setting under another group: only the group changes.
pub proof fn law_setting_changes_group(
    group: Seq<char>,
    name: Seq<char>,
    rest: Seq<char>,
    new: Seq<char>,
)
    requires
        vcard::is_identifier(group),
        vcard::is_identifier(name),
        rest.len() > 0,
        rest[0] == ';' || rest[0] == ':',
    ensures
        keygroups::regrouped(group + seq!['.'] + name + rest, new) == new + seq!['.'] + name + rest,
{
    reveal_strlit(".");
    let head = group + seq!['.'] + name;
    let line = head + rest;
    assert forall|i: int| 0 <= i < head.len() implies head[i] != ';' && head[i] != ':' by {
        if i < group.len() {
            assert(head[i] == group[i]);
        } else if i > group.len() {
            assert(head[i] == name[i - group.len() - 1]);
        }
    }
    text::lemma_find(line, ';');
    text::lemma_find(line, ':');
    assert(line[head.len() as int] == rest[0]);
    assert forall|i: int| 0 <= i < head.len() implies line[i] == head[i] by {}
    assert(keygroups::name_end(line) == head.len());
    assert(line.take(head.len() as int) =~= head);
    assert(!text::has_char(name, '.')) by {
        assert forall|i: int| 0 <= i < name.len() implies name[i] != '.' by {}
    }
    vcard_back::lemma_last_dot(group, name);
    assert(line.skip(group.len() as int + 1) =~= name + rest);
    assert(new + "."@ + (name + rest) =~= new + seq!['.'] + name + rest);
}

// ---------------------------------------------------------------------
// What an update keeps
// ---------------------------------------------------------------------

spec fn grouped_emails(m: Seq<(Seq<char>, Seq<char>)>, emails: Seq<Typed>) -> bool {
    forall|k: int|
        0 <= k < m.len() ==> exists|j: int|
            0 <= j < emails.len() && emails[j].value == (#[trigger] m[k]).0 && m[k].1 == "item"@
                + #[trigger] numbers::decimal((j + 1) as nat)
}

proof fn lemma_with_entry_from(
    m: Seq<(Seq<char>, Seq<char>)>,
    k: Seq<char>,
    v: Seq<char>,
)
    ensures
        forall|i: int|
            0 <= i < ordered::with_entry(m, k, v).len() ==> {
                let e = #[trigger] ordered::with_entry(m, k, v)[i];
                e == (k, v) || m.contains(e)
            },
    decreases m.len(),
{
    let r = ordered::with_entry(m, k, v);
    if m.len() > 0 {
        let rest = m.skip(1);
        lemma_with_entry_from(rest, k, v);
        assert forall|i: int| 0 <= i < r.len() implies ({
            let e = #[trigger] r[i];
            e == (k, v) || m.contains(e)
        }) by {
            if m[0].0 == k {
                if i > 0 {
                    assert(r[i] == m[i]);
                }
            } else if ordered::before(k, m[0].0) {
                if i > 0 {
                    assert(r[i] == m[i - 1]);
                }
            } else if i > 0 {
                let w = ordered::with_entry(rest, k, v);
                assert(r[i] == w[i - 1]);
                if rest.contains(w[i - 1]) {
                    let j = choose|j: int| 0 <= j < rest.len() && rest[j] == w[i - 1];
                    assert(m[j + 1] == r[i]);
                }
            } else {
                assert(r[0] == m[0]);
            }
        }
    }
}

proof fn lemma_grouped_emails(emails: Seq<Typed>)
    ensures
        grouped_emails(contact_seal::email_groups(emails), emails),
    decreases emails.len(),
{
    if emails.len() > 0 {
        let init = emails.drop_last();
        let n = emails.len();
        let before = contact_seal::email_groups(init);
        let m = contact_seal::email_groups(emails);
        let item = "item"@ + numbers::decimal(n);
        lemma_grouped_emails(init);
        lemma_with_entry_from(before, emails.last().value, item);
        assert forall|k: int| 0 <= k < m.len() implies exists|j: int|
            0 <= j < emails.len() && emails[j].value == (#[trigger] m[k]).0 && m[k].1 == "item"@
                + #[trigger] numbers::decimal((j + 1) as nat) by {
            if m[k] == (emails.last().value, item) {
                let j = n - 1;
                assert(numbers::decimal((j + 1) as nat) == numbers::decimal(n));
                assert(emails[j].value == m[k].0);
            } else {
                let i = choose|i: int| 0 <= i < before.len() && before[i] == m[k];
                let j = choose|j: int|
                    0 <= j < init.len() && init[j].value == before[i].0 && before[i].1 == "item"@
                        + #[trigger] numbers::decimal((j + 1) as nat);
                assert(emails[j] == init[j]);
                assert(numbers::decimal((j + 1) as nat) == numbers::decimal((j + 1) as nat));
            }
        }
    }
}

proof fn lemma_email_there(emails: Seq<Typed>, i: int)
    requires
        0 <= i < emails.len(),
    ensures
        ordered::lookup(contact_seal::email_groups(emails), emails[i].value) is Some,
    decreases emails.len(),
{
    let init = emails.drop_last();
    let n = emails.len();
    let item = "item"@ + numbers::decimal(n);
    ordered::law_lookup_with_entry(
        contact_seal::email_groups(init),
        emails.last().value,
        item,
        emails[i].value,
    );
    if i < n - 1 {
        assert(init[i] == emails[i]);
        lemma_email_there(init, i);
    }
}

proof fn lemma_lookup_index(m: Seq<(Seq<char>, Seq<char>)>, k: Seq<char>)
    requires
        ordered::lookup(m, k) is Some,
    ensures
        exists|i: int|
            0 <= i < m.len() && (#[trigger] m[i]).0 == k && ordered::lookup(m, k) == Some(m[i].1),
    decreases m.len(),
{
    if m[0].0 != k {
        lemma_lookup_index(m.skip(1), k);
        let r = m.skip(1);
        let i = choose|i: int|
            0 <= i < r.len() && (#[trigger] r[i]).0 == k && ordered::lookup(r, k) == Some(r[i].1);
        assert(m[i + 1] == r[i]);
    }
}

/// What stands under a lower-cased key where all entries of that key agree.
proof fn lemma_lower(m: Seq<(Seq<char>, Seq<char>)>, k: Seq<char>, g: Seq<char>)
    requires
        forall|i: int|
            0 <= i < m.len() && text::lowercase((#[trigger] m[i]).0) == k ==> m[i].1 == g,
    ensures
        ordered::lookup(keygroups::lower_entries(m), k) == if exists|i: int|
            0 <= i < m.len() && text::lowercase((#[trigger] m[i]).0) == k {
            Some(g)
        } else {
            None
        },
    decreases m.len(),
{
    if m.len() > 0 {
        let init = m.drop_last();
        assert forall|i: int|
            0 <= i < init.len() && text::lowercase((#[trigger] init[i]).0)
                == k implies init[i].1 == g by {
            assert(init[i] == m[i]);
        }
        lemma_lower(init, k, g);
        let last = m[m.len() - 1];
        ordered::law_lookup_with_entry(
            keygroups::lower_entries(init),
            text::lowercase(last.0),
            last.1,
            k,
        );
        if exists|i: int| 0 <= i < init.len() && text::lowercase((#[trigger] init[i]).0) == k {
            let i = choose|i: int|
                0 <= i < init.len() && text::lowercase((#[trigger] init[i]).0) == k;
            assert(m[i] == init[i]);
        }
        if exists|i: int| 0 <= i < m.len() && text::lowercase((#[trigger] m[i]).0) == k {
            let i = choose|i: int| 0 <= i < m.len() && text::lowercase((#[trigger] m[i]).0) == k;
            if i < init.len() {
                assert(init[i] == m[i]);
            }
        }
    }
}

/// The group that settings of an address go to: that of the address on the
/// device, in whatever case it is written; none where it is gone.
proof fn lemma_group_of(emails: Seq<Typed>, email: Seq<char>, i: int)
    requires
        0 <= i < emails.len() ==> text::lowercase(emails[i].value) == text::lowercase(email),
        forall|j: int|
            0 <= j < emails.len() && j != i ==> text::lowercase((#[trigger] emails[j]).value)
                != text::lowercase(email),
    ensures
        ordered::lookup(
            keygroups::lower_entries(contact_seal::email_groups(emails)),
            text::lowercase(email),
        ) == if 0 <= i < emails.len() {
            Some("item"@ + numbers::decimal((i + 1) as nat))
        } else {
            None
        },
{
    let m = contact_seal::email_groups(emails);
    let k = text::lowercase(email);
    let g = "item"@ + numbers::decimal((i + 1) as nat);
    lemma_grouped_emails(emails);
    assert forall|x: int|
        0 <= x < m.len() && text::lowercase((#[trigger] m[x]).0) == k implies m[x].1 == g && 0
        <= i < emails.len() by {
        let j = choose|j: int|
            0 <= j < emails.len() && emails[j].value == m[x].0 && m[x].1 == "item"@
                + #[trigger] numbers::decimal((j + 1) as nat);
        assert(emails[j].value == m[x].0);
        assert(j == i);
    }
    lemma_lower(m, k, g);
    if 0 <= i < emails.len() {
        lemma_email_there(emails, i);
        lemma_lookup_index(m, emails[i].value);
        let x = choose|x: int|
            0 <= x < m.len() && (#[trigger] m[x]).0 == emails[i].value && ordered::lookup(
                m,
                emails[i].value,
            ) == Some(m[x].1);
        assert(text::lowercase(m[x].0) == k);
    }
}

proof fn lemma_rendered(
    gs: Seq<Group>,
    lower: Seq<(Seq<char>, Seq<char>)>,
    i: int,
    j: int,
    group: Seq<char>,
)
    requires
        0 <= i < gs.len(),
        0 <= j < gs[i].lines.len(),
        ordered::lookup(lower, text::lowercase(gs[i].email)) == Some(group),
    ensures
        keygroups::rendered(gs, lower).contains(keygroups::regrouped(gs[i].lines[j], group)),
    decreases gs.len(),
{
    let init = gs.drop_last();
    let before = keygroups::rendered(init, lower);
    let all = keygroups::rendered(gs, lower);
    let want = keygroups::regrouped(gs[i].lines[j], group);
    if i < init.len() {
        assert(init[i] == gs[i]);
        lemma_rendered(init, lower, i, j, group);
        let x = choose|x: int| 0 <= x < before.len() && before[x] == want;
        assert(all[x] == want);
    } else {
        assert(gs.last() == gs[i]);
        assert(all[before.len() + j] == want);
    }
}

/// Every setting of the server stays with its address: where the address is
/// still on the device, in whatever case, the signed card of the update holds
/// each line of its settings, under the group of the address.
pub proof fn law_update_keeps_settings(
    phone: Contact,
    contacts: Seq<Contact>,
    groups: Seq<Group>,
    uid: Seq<char>,
    i: int,
    j: int,
    k: int,
)
    requires
        0 <= i < groups.len(),
        0 <= j < groups[i].lines.len(),
        0 <= k < phone.emails.len(),
        text::lowercase(phone.emails[k].value) == text::lowercase(groups[i].email),
        forall|o: int|
            0 <= o < phone.emails.len() && o != k ==> text::lowercase(
                (#[trigger] phone.emails[o]).value,
            ) != text::lowercase(groups[i].email),
    ensures
        ({
            let c = contact_seal::updated(phone, contacts);
            let more = keygroups::rendered(
                groups,
                keygroups::lower_entries(contact_seal::email_groups(c.emails)),
            );
            &&& contact_seal::signed_card(c, uid, groups) == lines::card_of(
                vcard::card_content(vcard::signed_body(c, uid) + more),
            )
            &&& more.contains(
                keygroups::regrouped(
                    groups[i].lines[j],
                    "item"@ + numbers::decimal((k + 1) as nat),
                ),
            )
        }),
{
    let c = contact_seal::updated(phone, contacts);
    let lower = keygroups::lower_entries(contact_seal::email_groups(c.emails));
    let more = keygroups::rendered(groups, lower);
    lemma_group_of(phone.emails, groups[i].email, k);
    lemma_rendered(groups, lower, i, j, "item"@ + numbers::decimal((k + 1) as nat));
    keygroups::law_added_lines_are_built_in(vcard::signed_body(c, uid), more);
    assert(contact_seal::signed_card(c, uid, groups) == lines::card_of(
        vcard::card_content(vcard::signed_body(c, uid) + more),
    ));
}

proof fn lemma_photos(contacts: Seq<Contact>, i: int, j: int)
    requires
        0 <= i < contacts.len(),
        0 <= j < contacts[i].photos.len(),
    ensures
        contact_seal::all_photos(contacts).contains(contacts[i].photos[j]),
    decreases contacts.len(),
{
    let init = contacts.drop_last();
    let before = contact_seal::all_photos(init);
    let all = contact_seal::all_photos(contacts);
    let p = contacts[i].photos[j];
    if i < init.len() {
        assert(init[i] == contacts[i]);
        lemma_photos(init, i, j);
        let x = choose|x: int| 0 <= x < before.len() && before[x] == p;
        assert(all[x] == p);
    } else {
        assert(contacts.last() == contacts[i]);
        assert(all[before.len() + j] == p);
    }
}

proof fn lemma_no_other_photos(contacts: Seq<Contact>, p: Seq<char>)
    requires
        contact_seal::all_photos(contacts).contains(p),
    ensures
        exists|i: int| 0 <= i < contacts.len() && (#[trigger] contacts[i]).photos.contains(p),
    decreases contacts.len(),
{
    let init = contacts.drop_last();
    let before = contact_seal::all_photos(init);
    let all = contact_seal::all_photos(contacts);
    let x = choose|x: int| 0 <= x < all.len() && all[x] == p;
    if x < before.len() {
        assert(before[x] == p);
        lemma_no_other_photos(init, p);
        let i = choose|i: int| 0 <= i < init.len() && (#[trigger] init[i]).photos.contains(p);
        assert(contacts[i] == init[i]);
    } else {
        assert(contacts.last().photos[x - before.len()] == p);
        assert(contacts[contacts.len() - 1] == contacts.last());
    }
}

/// An update takes the photos from the server, all of them and no others, and
/// everything else from the device.
pub proof fn law_update_takes_photos_from_server(phone: Contact, contacts: Seq<Contact>)
    ensures
        ({
            let c = contact_seal::updated(phone, contacts);
            &&& forall|i: int, j: int|
                0 <= i < contacts.len() && 0 <= j < contacts[i].photos.len() ==> c.photos.contains(
                    #[trigger] contacts[i].photos[j],
                )
            &&& forall|p: Seq<char>|
                #[trigger] c.photos.contains(p) ==> exists|i: int|
                    0 <= i < contacts.len() && (#[trigger] contacts[i]).photos.contains(p)
            &&& c.first_name == phone.first_name
            &&& c.last_name == phone.last_name
            &&& c.display_name == phone.display_name
            &&& c.emails == phone.emails
            &&& c.phones == phone.phones
            &&& c.addresses == phone.addresses
            &&& c.organization == phone.organization
            &&& c.title == phone.title
            &&& c.role == phone.role
            &&& c.notes == phone.notes
            &&& c.url == phone.url
            &&& c.birthday == phone.birthday
            &&& c.anniversary == phone.anniversary
            &&& c.nickname == phone.nickname
            &&& c.gender == phone.gender
        }),
{
    let c = contact_seal::updated(phone, contacts);
    assert forall|i: int, j: int|
        0 <= i < contacts.len() && 0 <= j < contacts[i].photos.len() implies c.photos.contains(
        #[trigger] contacts[i].photos[j],
    ) by {
        lemma_photos(contacts, i, j);
    }
    assert forall|p: Seq<char>| #[trigger] c.photos.contains(p) implies exists|i: int|
        0 <= i < contacts.len() && (#[trigger] contacts[i]).photos.contains(p) by {
        lemma_no_other_photos(contacts, p);
    }
}

/// A new contact has the fields of the device and no photo.
pub proof fn law_created_contact_has_no_photo(phone: Contact)
    ensures
        contact_seal::created(phone) == (Contact { photos: seq![], ..phone }),
        contact_seal::created(phone).photos.len() == 0,
{
}

/// An update writes a signed card and, where the contact has anything for it,
/// an encrypted one, which stands for that contact and no other.
pub proof fn law_update_writes_cards(
    base: Option<(Seq<Contact>, Seq<Group>)>,
    phone: Contact,
    uid: Seq<char>,
    pairs: Seq<Seq<u8>>,
    at: u32,
    cards: Vec<ContactCard>,
)
    requires
        contact_seal::update_written(base, phone, uid, pairs, at, Ok(Some(cards))),
    ensures
        base is Some,
        ({
            let c = contact_seal::updated(phone, base->Some_0.0);
            let body = vcard::encrypted_body(c);
            &&& cards@.len() == if body.len() == 0 {
                1int
            } else {
                2int
            }
            &&& cards@[0].Type == 2
            &&& base->Some_0.1.len() == 0 ==> cards@[0].Data@ == lines::card_of(
                seq!["BEGIN:VCARD"@, "VERSION:4.0"@] + vcard::signed_body(c, uid) + seq![
                    "END:VCARD"@,
                ],
            )
            &&& body.len() > 0 ==> cards@[1].Type == 3 && contact_seal::sealed_by_any(
                cards@[1].Data@,
                cards@[1].Signature@,
                vstd::utf8::encode_utf8(
                    lines::card_of(
                        seq!["BEGIN:VCARD"@, "VERSION:4.0"@] + body + seq!["END:VCARD"@],
                    ),
                ),
                pairs,
                at,
            )
        }),
{
}

/// A contact with a card in the clear, or with a card that does not open, is
/// not rebuilt: the update is put off.
pub proof fn law_unread_card_puts_update_off(
    at: u32,
    cards: Seq<(int, Seq<char>)>,
    keys: Seq<Seq<Seq<u8>>>,
    phone: Contact,
    uid: Seq<char>,
    pairs: Seq<Seq<u8>>,
    r: Result<Option<Vec<ContactCard>>, ProtonError>,
    i: int,
)
    requires
        contact_seal::update_written(
            contact_seal::server_base(at, cards, keys),
            phone,
            uid,
            pairs,
            at,
            r,
        ),
        0 <= i < cards.len(),
        cards[i].0 == 0 || cards[i].0 != 2 && crate::crypto::first_opened(
            at,
            vstd::utf8::encode_utf8(cards[i].1),
            keys,
        ) is None,
    ensures
        r matches Ok(None),
{
    lemma_unread(at, cards, keys, i);
}

proof fn lemma_unread(at: u32, cards: Seq<(int, Seq<char>)>, keys: Seq<Seq<Seq<u8>>>, i: int)
    requires
        0 <= i < cards.len(),
        cards[i].0 == 0 || cards[i].0 != 2 && crate::crypto::first_opened(
            at,
            vstd::utf8::encode_utf8(cards[i].1),
            keys,
        ) is None,
    ensures
        contact_seal::server_plains(at, cards, keys) is None,
    decreases cards.len(),
{
    let init = cards.drop_last();
    if i < init.len() {
        assert(init[i] == cards[i]);
        lemma_unread(at, init, keys, i);
    } else {
        assert(cards.last() == cards[i]);
    }
}

/// One more card of the server: a signed one is read as it is, one that opens
/// as what it opens to, each behind those of its kind.
pub proof fn law_server_cards_are_sorted(
    at: u32,
    cards: Seq<(int, Seq<char>)>,
    keys: Seq<Seq<Seq<u8>>>,
    kind: int,
    data: Seq<char>,
)
    requires
        contact_seal::server_plains(at, cards, keys) is Some,
    ensures
        ({
            let was = contact_seal::server_plains(at, cards, keys)->Some_0;
            let is = contact_seal::server_plains(at, cards.push((kind, data)), keys);
            let open = crate::crypto::first_opened(at, vstd::utf8::encode_utf8(data), keys);
            &&& kind == 2 ==> is == Some((was.0.push(data), was.1))
            &&& (kind == 1 || kind == 3) && open is Some ==> is == Some(
                (was.0, was.1.push(open->Some_0)),
            )
            &&& (kind == 1 || kind == 3) && open is None ==> is is None
            &&& kind == 0 ==> is is None
        }),
{
    assert(cards.push((kind, data)).drop_last() =~= cards);
}

/// A contact whose cards all open and are cards, and in which nothing is
/// unknown, is updated: the update is not put off.
pub proof fn law_readable_contact_is_updated(
    at: u32,
    cards: Seq<(int, Seq<char>)>,
    keys: Seq<Seq<Seq<u8>>>,
    phone: Contact,
    uid: Seq<char>,
    pairs: Seq<Seq<u8>>,
    r: Result<Option<Vec<ContactCard>>, ProtonError>,
)
    requires
        contact_seal::update_written(
            contact_seal::server_base(at, cards, keys),
            phone,
            uid,
            pairs,
            at,
            r,
        ),
        contact_seal::server_plains(at, cards, keys) is Some,
        ({
            let (signed, decrypted) = contact_seal::server_plains(at, cards, keys)->Some_0;
            &&& keygroups::all_uncarried(signed).len() == 0
            &&& keygroups::all_names(decrypted).len() == 0
            &&& forall|i: int|
                0 <= i < (signed + decrypted).len() ==> vcard::content_lines_of(
                    #[trigger] (signed + decrypted)[i],
                ) is Ok
        }),
    ensures
        r matches Ok(b) ==> b is Some,
{
    let (signed, decrypted) = contact_seal::server_plains(at, cards, keys)->Some_0;
    let none = Seq::<Seq<char>>::empty();
    assert(keygroups::all_uncarried(signed) =~= none);
    assert(keygroups::all_names(decrypted) =~= none);
    assert(ordered::sorted_unique(none) =~= none);
    assert(none + none =~= none);
    lemma_all_parse(signed + decrypted);
}

proof fn lemma_all_parse(cards: Seq<Seq<char>>)
    requires
        forall|i: int|
            0 <= i < cards.len() ==> vcard::content_lines_of(#[trigger] cards[i]) is Ok,
    ensures
        contact_seal::parsed_all(cards) is Some,
    decreases cards.len(),
{
    if cards.len() > 0 {
        let init = cards.drop_last();
        assert forall|i: int| 0 <= i < init.len() implies vcard::content_lines_of(
            #[trigger] init[i],
        ) is Ok by {
            assert(init[i] == cards[i]);
        }
        lemma_all_parse(init);
        assert(vcard::content_lines_of(cards[cards.len() - 1]) is Ok);
    }
}

/// Every card is read, and every setting taken along, one card after the
/// other.
pub proof fn law_every_card_is_read(cards: Seq<Seq<char>>, card: Seq<char>)
    ensures
        contact_seal::parsed_all(cards) matches Some(was) ==> (vcard::content_lines_of(
            card,
        ) matches Ok(l) ==> contact_seal::parsed_all(cards.push(card)) == Some(
            was.push(vcard::contact_of(l)),
        )),
        vcard::content_lines_of(card) is Err ==> contact_seal::parsed_all(cards.push(card)) is None,
        contact_seal::all_groups(cards.push(card)) == contact_seal::all_groups(cards)
            + keygroups::key_groups(card),
{
    assert(cards.push(card).drop_last() =~= cards);
}

/// A new contact is written with a signed card and, where the contact has
/// anything for it, an encrypted one; no photo is among its lines.
pub proof fn law_creation_writes_cards(
    phone: Contact,
    uid: Seq<char>,
    pairs: Seq<Seq<u8>>,
    at: u32,
    cards: Vec<ContactCard>,
)
    requires
        contact_seal::create_written(phone, uid, pairs, at, Ok(Some(cards))),
    ensures
        ({
            let c = Contact { photos: seq![], ..phone };
            let body = vcard::encrypted_body(c);
            &&& cards@.len() == if body.len() == 0 {
                1int
            } else {
                2int
            }
            &&& cards@[0].Type == 2
            &&& cards@[0].Data@ == lines::card_of(
                seq!["BEGIN:VCARD"@, "VERSION:4.0"@] + vcard::signed_body(c, uid) + seq![
                    "END:VCARD"@,
                ],
            )
            &&& body.len() > 0 ==> cards@[1].Type == 3 && contact_seal::sealed_by_any(
                cards@[1].Data@,
                cards@[1].Signature@,
                vstd::utf8::encode_utf8(
                    lines::card_of(
                        seq!["BEGIN:VCARD"@, "VERSION:4.0"@] + body + seq!["END:VCARD"@],
                    ),
                ),
                pairs,
                at,
            )
        }),
{
}

/// Why an update is put off: a card in the clear before anything else, then a
/// card that does not open, then one that is no card, then what is unknown,
/// by name.
pub proof fn law_diagnosis_reasons(
    at: u32,
    cards: Seq<(int, Seq<char>)>,
    keys: Seq<Seq<Seq<u8>>>,
    i: int,
)
    ensures
        0 <= i < cards.len() && cards[i].0 == 0 ==> contact_seal::diagnosis(at, cards, keys)
            == "cleartext-card"@,
        (forall|k: int| 0 <= k < cards.len() ==> (#[trigger] cards[k]).0 != 0) && 0 <= i < cards.len()
            && cards[i].0 != 2 && crate::crypto::first_opened(
            at,
            vstd::utf8::encode_utf8(cards[i].1),
            keys,
        ) is None ==> contact_seal::diagnosis(at, cards, keys) == "undecryptable-card"@,
        contact_seal::server_plains(at, cards, keys) matches Some(p) ==> {
            let unknown = contact_seal::blocking(p.0, p.1);
            let whole = contact_seal::parsed_all(p.0 + p.1) is Some;
            &&& !whole ==> contact_seal::diagnosis(at, cards, keys) == "unparsable-card"@
            &&& whole && unknown.len() > 0 ==> contact_seal::diagnosis(at, cards, keys)
                == "unknown-props:"@ + text::join(unknown, ","@)
            &&& whole && unknown.len() == 0 ==> contact_seal::diagnosis(at, cards, keys)
                == "sealable"@
        },
{
    if 0 <= i < cards.len() && cards[i].0 == 0 {
        assert(contact_seal::has_clear_card(cards));
    }
    if (forall|k: int| 0 <= k < cards.len() ==> (#[trigger] cards[k]).0 != 0) && 0 <= i
        < cards.len() && cards[i].0 != 2 && crate::crypto::first_opened(
        at,
        vstd::utf8::encode_utf8(cards[i].1),
        keys,
    ) is None {
        lemma_unread(at, cards, keys, i);
    }
    if contact_seal::has_clear_card(cards) {
        let k = choose|k: int| 0 <= k < cards.len() && (#[trigger] cards[k]).0 == 0;
        lemma_unread(at, cards, keys, k);
    }
}

} // verus!
