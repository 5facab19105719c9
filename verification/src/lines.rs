//! Content lines: how a card's text breaks into lines, and how long lines
//! are folded and joined again (RFC 5545 / RFC 6350 line folding).
use vstd::prelude::*;

use crate::text;
use crate::text::{chars_of, copy_text, join_texts, push_text, split_text, string_of};

verus! {

broadcast use crate::text::lemma_texts_push;

// ---------------------------------------------------------------------
// Breaking text into lines
// ---------------------------------------------------------------------

/// Every line end, `CR LF` or a lone `CR`, becomes a single `LF`.
pub open spec fn normalize(s: Seq<char>) -> Seq<char>
    decreases s.len(),
{
    if s.len() == 0 {
        seq![]
    } else if s[0] == '\r' && s.len() > 1 && s[1] == '\n' {
        seq!['\n'] + normalize(s.skip(2))
    } else if s[0] == '\r' {
        seq!['\n'] + normalize(s.skip(1))
    } else {
        seq![s[0]] + normalize(s.skip(1))
    }
}

/// The lines of a card as they stand in its text.
pub open spec fn card_lines(card: Seq<char>) -> Seq<Seq<char>> {
    text::split(normalize(card), '\n')
}

pub fn normalize_text(s: &str) -> (r: String)
    ensures
        r@ == normalize(s@),
{
    let v: Vec<char> = chars_of(s);
    let mut out: String = String::new();
    let mut i: usize = 0;
    assert(v@.skip(0) =~= v@);
    while i < v.len()
        invariant
            i <= v@.len(),
            v@ == s@,
            normalize(s@) =~= out@ + normalize(v@.skip(i as int)),
        decreases v@.len() - i,
    {
        let ghost rest = v@.skip(i as int);
        assert(rest[0] == v@[i as int]);
        assert(i + 1 < v@.len() ==> rest[1] == v@[i + 1]);
        assert(rest.skip(1) =~= v@.skip(i + 1));
        assert(i + 1 < v@.len() ==> rest.skip(2) =~= v@.skip(i + 2));
        if v[i] == '\r' {
            out.push('\n');
            if i + 1 < v.len() && v[i + 1] == '\n' {
                i = i + 2;
            } else {
                i = i + 1;
            }
        } else {
            out.push(v[i]);
            i = i + 1;
        }
    }
    out
}

/// The lines of a card as they stand in its text.
pub fn lines_of(card: &str) -> (r: Vec<String>)
    ensures
        text::texts(r@) == card_lines(card@),
{
    let n: String = normalize_text(card);
    split_text(n.as_str(), '\n')
}

/// A line that goes on where the line before it stopped.
pub open spec fn is_continuation(line: Seq<char>) -> bool {
    line.len() > 0 && (line[0] == ' ' || line[0] == '\t')
}

pub open spec fn unfold_step(acc: Seq<Seq<char>>, line: Seq<char>) -> Seq<Seq<char>> {
    if is_continuation(line) && acc.len() > 0 {
        acc.drop_last().push(acc.last() + line.skip(1))
    } else {
        acc.push(line)
    }
}

/// The unfolded lines: each continuation joins the line before it, without
/// its leading space or tab. One with no line before it stands as it is.
pub open spec fn unfold(lines: Seq<Seq<char>>) -> Seq<Seq<char>>
    decreases lines.len(),
{
    if lines.len() == 0 {
        seq![]
    } else {
        unfold_step(unfold(lines.drop_last()), lines.last())
    }
}

/// Whether a line starts with a space or a tab.
pub fn continues(line: &str) -> (r: bool)
    ensures
        r == is_continuation(line@),
{
    let v: Vec<char> = chars_of(line);
    v.len() > 0 && (v[0] == ' ' || v[0] == '\t')
}

/// Joins `line`, without its first character, to the last of `out`.
pub fn join_continuation(out: &mut Vec<String>, line: &str)
    requires
        line@.len() > 0,
        old(out)@.len() > 0,
    ensures
        text::texts(final(out)@) == text::texts(old(out)@).drop_last().push(
            text::texts(old(out)@).last() + line@.skip(1),
        ),
{
    let ghost before = text::texts(out@);
    let v: Vec<char> = chars_of(line);
    let rest: String = string_of(&v, 1, v.len());
    assert(rest@ =~= line@.skip(1));
    match out.pop() {
        Some(mut last) => {
            push_text(&mut last, rest.as_str());
            assert(text::texts(out@) =~= before.drop_last());
            out.push(last);
        },
        None => {},
    }
}

/// The unfolded content lines of a card.
pub fn unfold_ical_lines(card: &str) -> (r: Vec<String>)
    ensures
        text::texts(r@) == unfold(card_lines(card@)),
{
    let lines: Vec<String> = lines_of(card);
    let mut out: Vec<String> = Vec::new();
    let mut i: usize = 0;
    let ghost all = text::texts(lines@);
    assert(text::texts(out@) =~= seq![]);
    while i < lines.len()
        invariant
            i <= lines@.len(),
            all == text::texts(lines@),
            text::texts(out@) == unfold(all.take(i as int)),
        decreases lines@.len() - i,
    {
        assert(all.take(i + 1).drop_last() =~= all.take(i as int));
        assert(all.take(i + 1).last() == lines@[i as int]@);
        assert(text::texts(out@).len() == out@.len());
        if continues(lines[i].as_str()) && out.len() > 0 {
            join_continuation(&mut out, lines[i].as_str());
        } else {
            out.push(copy_text(lines[i].as_str()));
        }
        i = i + 1;
    }
    assert(all.take(all.len() as int) =~= all);
    out
}

// ---------------------------------------------------------------------
// Names
// ---------------------------------------------------------------------

/// Position of the first colon that stands outside double quotes, or the
/// length of `s` without one. `quoted` says whether `s` starts inside quotes.
pub open spec fn unquoted_colon(s: Seq<char>, quoted: bool) -> int
    decreases s.len(),
{
    if s.len() == 0 {
        0
    } else if s[0] == '"' {
        1 + unquoted_colon(s.skip(1), !quoted)
    } else if s[0] == ':' && !quoted {
        0
    } else {
        1 + unquoted_colon(s.skip(1), quoted)
    }
}

pub proof fn lemma_unquoted_colon(s: Seq<char>, quoted: bool)
    ensures
        0 <= unquoted_colon(s, quoted) <= s.len(),
        unquoted_colon(s, quoted) < s.len() ==> s[unquoted_colon(s, quoted)] == ':',
    decreases s.len(),
{
    if s.len() > 0 {
        lemma_unquoted_colon(s.skip(1), !quoted);
        lemma_unquoted_colon(s.skip(1), quoted);
    }
}

pub fn find_unquoted_colon(v: &Vec<char>) -> (r: usize)
    ensures
        r <= v@.len(),
        r == unquoted_colon(v@, false),
{
    let mut i: usize = 0;
    let mut quoted: bool = false;
    assert(v@.skip(0) =~= v@);
    while i < v.len() && (quoted || v[i] != ':')
        invariant
            i <= v@.len(),
            unquoted_colon(v@, false) == i + unquoted_colon(v@.skip(i as int), quoted),
        decreases v@.len() - i,
    {
        assert(v@.skip(i as int).skip(1) =~= v@.skip(i + 1));
        assert(v@.skip(i as int)[0] == v@[i as int]);
        if v[i] == '"' {
            quoted = !quoted;
        }
        i = i + 1;
    }
    assert(i < v@.len() ==> v@.skip(i as int)[0] == v@[i as int]);
    i
}

/// The part of `s` before the first `c`.
pub open spec fn up_to(s: Seq<char>, c: char) -> Seq<char> {
    s.take(text::find(s, c))
}

/// The property name of a content line in upper case; none when the line
/// has no colon outside quotes or nothing before it.
pub open spec fn property_name(line: Seq<char>) -> Option<Seq<char>> {
    let k = unquoted_colon(line, false);
    let name = text::uppercase(text::trim(up_to(line.take(k), ';')));
    if k < line.len() && name.len() > 0 {
        Some(name)
    } else {
        None
    }
}

/// Upper-cased property name of an unfolded content line.
pub fn prop_name(line: &str) -> (r: Option<String>)
    ensures
        match r {
            Some(n) => property_name(line@) == Some(n@),
            None => property_name(line@) is None,
        },
{
    let v: Vec<char> = chars_of(line);
    let k: usize = find_unquoted_colon(&v);
    if k == v.len() {
        return None;
    }
    let left: String = string_of(&v, 0, k);
    assert(left@ =~= line@.take(k as int));
    let lv: Vec<char> = chars_of(left.as_str());
    assert(lv@.skip(0) =~= lv@);
    let e: usize = text::find_char(&lv, 0, ';');
    let first: String = string_of(&lv, 0, e);
    assert(first@ =~= up_to(left@, ';'));
    let name: String = text::to_upper(text::trimmed(first.as_str()).as_str());
    if text::is_empty(name.as_str()) {
        None
    } else {
        Some(name)
    }
}

// ---------------------------------------------------------------------
// Octets
// ---------------------------------------------------------------------

/// Octets that one character takes in UTF-8.
pub open spec fn width(c: char) -> int {
    let n = c as u32;
    if n < 0x80 {
        1
    } else if n < 0x800 {
        2
    } else if n < 0x10000 {
        3
    } else {
        4
    }
}

/// Octets that a text takes in UTF-8.
pub open spec fn octets(s: Seq<char>) -> int
    decreases s.len(),
{
    if s.len() == 0 {
        0
    } else {
        width(s[0]) + octets(s.skip(1))
    }
}

/// How many leading characters of `s` fit in `budget` octets.
pub open spec fn fit(s: Seq<char>, budget: int) -> int
    decreases s.len(),
{
    if s.len() > 0 && width(s[0]) <= budget {
        1 + fit(s.skip(1), budget - width(s[0]))
    } else {
        0
    }
}

pub proof fn lemma_octets_nonneg(s: Seq<char>)
    ensures
        octets(s) >= s.len(),
    decreases s.len(),
{
    if s.len() > 0 {
        lemma_octets_nonneg(s.skip(1));
    }
}

/// A character takes four octets at most.
pub proof fn lemma_few_octets(s: Seq<char>)
    ensures
        octets(s) <= 4 * s.len(),
    decreases s.len(),
{
    if s.len() > 0 {
        lemma_few_octets(s.skip(1));
    }
}

pub proof fn lemma_octets_concat(a: Seq<char>, b: Seq<char>)
    ensures
        octets(a + b) == octets(a) + octets(b),
    decreases a.len(),
{
    if a.len() == 0 {
        assert(a + b =~= b);
    } else {
        lemma_octets_concat(a.skip(1), b);
        assert((a + b).skip(1) =~= a.skip(1) + b);
    }
}

pub proof fn lemma_fit(s: Seq<char>, budget: int)
    requires
        budget >= 0,
    ensures
        0 <= fit(s, budget) <= s.len(),
        octets(s.take(fit(s, budget))) <= budget,
        (fit(s, budget) == s.len()) == (octets(s) <= budget),
        s.len() > 0 && budget >= 4 ==> fit(s, budget) >= 1,
    decreases s.len(),
{
    if s.len() > 0 && width(s[0]) <= budget {
        let k = fit(s, budget);
        lemma_fit(s.skip(1), budget - width(s[0]));
        assert(s.take(k).skip(1) =~= s.skip(1).take(k - 1));
        assert(s.take(k)[0] == s[0]);
        lemma_octets_nonneg(s.skip(1));
    } else if s.len() > 0 {
        lemma_octets_nonneg(s.skip(1));
        assert(s.take(0).len() == 0);
    } else {
        assert(s.take(0).len() == 0);
    }
}

proof fn lemma_scalar_width(c: char)
    ensures
        vstd::utf8::encode_scalar(c as u32).len() == width(c),
{
}

/// The octets of a text are the length of its UTF-8 encoding.
pub proof fn law_octets_are_utf8_length(s: Seq<char>)
    ensures
        octets(s) == vstd::utf8::encode_utf8(s).len(),
    decreases s.len(),
{
    if s.len() > 0 {
        law_octets_are_utf8_length(s.skip(1));
        lemma_scalar_width(s[0]);
        assert(s.drop_first() =~= s.skip(1));
    }
}

pub fn width_of(c: char) -> (r: usize)
    ensures
        r == width(c),
        1 <= r <= 4,
{
    let n: u32 = c as u32;
    if n < 0x80 {
        1
    } else if n < 0x800 {
        2
    } else if n < 0x10000 {
        3
    } else {
        4
    }
}

/// How many characters of `v` from `from` on fit in `budget` octets.
pub fn fitting(v: &Vec<char>, from: usize, budget: usize) -> (r: usize)
    requires
        from <= v@.len(),
    ensures
        r == fit(v@.skip(from as int), budget as int),
        from + r <= v.len(),
{
    let mut i: usize = from;
    let mut left: usize = budget;
    let ghost rest = v@.skip(from as int);
    while i < v.len() && width_of(v[i]) <= left
        invariant
            from <= i <= v@.len(),
            rest == v@.skip(from as int),
            fit(rest, budget as int) == (i - from) + fit(v@.skip(i as int), left as int),
        decreases v@.len() - i,
    {
        assert(v@.skip(i as int).skip(1) =~= v@.skip(i + 1));
        assert(v@.skip(i as int)[0] == v@[i as int]);
        left = left - width_of(v[i]);
        i = i + 1;
    }
    assert(i < v@.len() ==> v@.skip(i as int)[0] == v@[i as int]);
    i - from
}

// ---------------------------------------------------------------------
// Folding
// ---------------------------------------------------------------------

/// The pieces of a line whose first piece may take `budget` octets and
/// every later one 74.
pub open spec fn pieces_from(s: Seq<char>, budget: int) -> Seq<Seq<char>>
    decreases s.len(),
{
    let k = fit(s, budget);
    if octets(s) <= budget || !(0 < k <= s.len()) {
        seq![s]
    } else {
        seq![s.take(k)] + pieces_from(s.skip(k), 74)
    }
}

/// The pieces of a folded line.
pub open spec fn pieces(line: Seq<char>) -> Seq<Seq<char>> {
    pieces_from(line, 75)
}

/// A line folded to 75 octets: each piece after the first stands on a line
/// of its own behind one space.
pub open spec fn fold(line: Seq<char>) -> Seq<char> {
    text::join(pieces(line), "\r\n "@)
}

/// Folds one content line to at most 75 octets per line, never inside a
/// character.
pub fn fold_content_line(line: &str) -> (r: String)
    ensures
        r@ == fold(line@),
{
    let v: Vec<char> = chars_of(line);
    let mut out: Vec<String> = Vec::new();
    let mut from: usize = 0;
    let mut budget: usize = 75;
    assert(v@.skip(0) =~= v@);
    loop
        invariant
            from <= v@.len(),
            v@ == line@,
            budget == 75 || budget == 74,
            text::texts(out@) + pieces_from(v@.skip(from as int), budget as int) =~= pieces(line@),
        decreases v@.len() - from,
    {
        let ghost rest = v@.skip(from as int);
        let k: usize = fitting(&v, from, budget);
        proof {
            lemma_fit(rest, budget as int);
        }
        let piece: String = string_of(&v, from, from + k);
        assert(piece@ =~= rest.take(k as int));
        out.push(piece);
        if from + k == v.len() {
            assert(rest.take(k as int) =~= rest);
            assert(text::texts(out@) =~= pieces(line@));
            return join_texts(&out, "\r\n ");
        }
        assert(rest.skip(k as int) =~= v@.skip(from + k));
        from = from + k;
        budget = 74;
    }
}

// ---------------------------------------------------------------------
// What folding keeps
// ---------------------------------------------------------------------

/// All the pieces, one after the other.
pub open spec fn concat(parts: Seq<Seq<char>>) -> Seq<char>
    decreases parts.len(),
{
    if parts.len() == 0 {
        seq![]
    } else {
        concat(parts.drop_last()) + parts.last()
    }
}

proof fn lemma_concat_prepend(first: Seq<char>, rest: Seq<Seq<char>>)
    ensures
        concat(seq![first] + rest) == first + concat(rest),
    decreases rest.len(),
{
    let all = seq![first] + rest;
    if rest.len() == 0 {
        assert(all.drop_last() =~= rest);
        assert(concat(rest) =~= seq![]);
        assert(concat(all) =~= first + concat(rest));
    } else {
        lemma_concat_prepend(first, rest.drop_last());
        assert(all.drop_last() =~= seq![first] + rest.drop_last());
        assert(concat(all) =~= first + concat(rest));
    }
}

proof fn lemma_pieces_from(s: Seq<char>, budget: int)
    requires
        budget >= 4,
    ensures
        pieces_from(s, budget).len() >= 1,
        octets(pieces_from(s, budget)[0]) <= budget,
        forall|i: int|
            1 <= i < pieces_from(s, budget).len() ==> octets(#[trigger] pieces_from(s, budget)[i])
                <= 74,
        concat(pieces_from(s, budget)) == s,
        s.len() > 0 ==> pieces_from(s, budget)[0].len() > 0 && pieces_from(s, budget)[0][0] == s[0],
    decreases s.len(),
{
    let k = fit(s, budget);
    lemma_fit(s, budget);
    if octets(s) <= budget || !(0 < k <= s.len()) {
        lemma_concat_prepend(s, seq![]);
        assert(seq![s] + seq![] =~= seq![s]);
        assert(concat(seq![s]) =~= s);
    } else {
        let rest = pieces_from(s.skip(k), 74);
        lemma_pieces_from(s.skip(k), 74);
        lemma_concat_prepend(s.take(k), rest);
        assert(s.take(k) + s.skip(k) =~= s);
        assert forall|i: int| 1 <= i < pieces_from(s, budget).len() implies octets(
            #[trigger] pieces_from(s, budget)[i],
        ) <= 74 by {
            assert(pieces_from(s, budget)[i] == rest[i - 1]);
        }
    }
}

/// The lines that a folded line takes: its first piece, then each later
/// piece behind one space.
pub open spec fn folded_lines(line: Seq<char>) -> Seq<Seq<char>> {
    Seq::new(
        pieces(line).len(),
        |i: int|
            if i == 0 {
                pieces(line)[0]
            } else {
                seq![' '] + pieces(line)[i]
            },
    )
}

proof fn lemma_join_spaced(p: Seq<Seq<char>>, q: Seq<Seq<char>>)
    requires
        p.len() == q.len(),
        p.len() > 0 ==> q[0] == p[0],
        forall|i: int| 1 <= i < p.len() ==> #[trigger] q[i] == seq![' '] + p[i],
    ensures
        text::join(p, "\r\n "@) == text::join(q, "\r\n"@),
    decreases p.len(),
{
    reveal_strlit("\r\n ");
    reveal_strlit("\r\n");
    if p.len() > 1 {
        lemma_join_spaced(p.drop_last(), q.drop_last());
        assert("\r\n "@ =~= "\r\n"@ + seq![' ']);
        assert(text::join(p, "\r\n "@) =~= text::join(q, "\r\n"@));
    }
}

/// Every line of a folded line takes at most 75 octets, the folded line is
/// those lines joined by `CR LF`, and its pieces put together are the line.
pub proof fn law_folded_lines_fit(line: Seq<char>)
    ensures
        fold(line) == text::join(folded_lines(line), "\r\n"@),
        forall|i: int|
            0 <= i < folded_lines(line).len() ==> octets(#[trigger] folded_lines(line)[i]) <= 75,
        concat(pieces(line)) == line,
{
    lemma_pieces_from(line, 75);
    lemma_join_spaced(pieces(line), folded_lines(line));
    assert forall|i: int| 0 <= i < folded_lines(line).len() implies octets(
        #[trigger] folded_lines(line)[i],
    ) <= 75 by {
        if i > 0 {
            lemma_octets_concat(seq![' '], pieces(line)[i]);
            reveal_with_fuel(octets, 2);
        }
    }
}

/// A line that is no longer than 75 octets is not folded.
pub proof fn law_short_line_unfolded(line: Seq<char>)
    requires
        octets(line) <= 75,
    ensures
        fold(line) == line,
{
}

/// Text without a line end.
pub open spec fn one_line(s: Seq<char>) -> bool {
    !text::has_char(s, '\r') && !text::has_char(s, '\n')
}

proof fn lemma_normalize_concat(x: Seq<char>, y: Seq<char>)
    requires
        y.len() > 0 ==> y[0] != '\n',
    ensures
        normalize(x + y) == normalize(x) + normalize(y),
    decreases x.len(),
{
    let s = x + y;
    if x.len() == 0 {
        assert(s =~= y);
        assert(normalize(x) + normalize(y) =~= normalize(y));
    } else if x.len() > 1 && x[0] == '\r' && x[1] == '\n' {
        lemma_normalize_concat(x.skip(2), y);
        assert(s.skip(2) =~= x.skip(2) + y);
        assert(normalize(s) =~= normalize(x) + normalize(y));
    } else {
        lemma_normalize_concat(x.skip(1), y);
        assert(s.skip(1) =~= x.skip(1) + y);
        assert(x.len() == 1 && y.len() > 0 ==> s[1] == y[0]);
        assert(normalize(s) =~= normalize(x) + normalize(y));
    }
}

proof fn lemma_normalize_one_line(s: Seq<char>)
    requires
        !text::has_char(s, '\r'),
    ensures
        normalize(s) == s,
    decreases s.len(),
{
    if s.len() > 0 {
        assert forall|i: int| 0 <= i < s.skip(1).len() implies s.skip(1)[i] != '\r' by {
            assert(s.skip(1)[i] == s[i + 1]);
        }
        lemma_normalize_one_line(s.skip(1));
        assert(s[0] != '\r');
        assert(normalize(s) =~= s);
    }
}

pub proof fn lemma_split_at(a: Seq<char>, c: char, b: Seq<char>)
    ensures
        text::split(a + seq![c] + b, c) == text::split(a, c) + text::split(b, c),
    decreases a.len(),
{
    let s = a + seq![c] + b;
    let k = text::find(a, c);
    text::lemma_find(a, c);
    if k < a.len() {
        text::lemma_find_is(s, c, k);
        assert(s.skip(k + 1) =~= a.skip(k + 1) + seq![c] + b);
        lemma_split_at(a.skip(k + 1), c, b);
        assert(s.take(k) =~= a.take(k));
        assert(text::split(s, c) =~= text::split(a, c) + text::split(b, c));
    } else {
        text::lemma_find_is(s, c, k);
        assert(s.take(k) =~= a);
        assert(s.skip(k + 1) =~= b);
        assert(text::split(s, c) =~= text::split(a, c) + text::split(b, c));
    }
}

/// Lines joined by `CR LF` are the lines of the text they make.
pub proof fn lemma_card_lines_join(lines: Seq<Seq<char>>)
    requires
        lines.len() >= 1,
        forall|i: int| 0 <= i < lines.len() ==> one_line(#[trigger] lines[i]),
    ensures
        card_lines(text::join(lines, "\r\n"@)) == lines,
    decreases lines.len(),
{
    reveal_strlit("\r\n");
    let last = lines.last();
    assert(one_line(last));
    lemma_normalize_one_line(last);
    text::lemma_find(last, '\n');
    assert(text::split(last, '\n') =~= seq![last]);
    if lines.len() == 1 {
        assert(lines =~= seq![last]);
    } else {
        let x = text::join(lines.drop_last(), "\r\n"@);
        lemma_card_lines_join(lines.drop_last());
        let y = "\r\n"@ + last;
        assert(text::join(lines, "\r\n"@) =~= x + y);
        lemma_normalize_concat(x, y);
        assert(y.skip(2) =~= last);
        assert(normalize(y) =~= seq!['\n'] + last);
        assert(normalize(x + y) =~= normalize(x) + seq!['\n'] + last);
        lemma_split_at(normalize(x), '\n', last);
        assert(lines =~= lines.drop_last() + seq![last]);
    }
}

proof fn lemma_lf_join(lines: Seq<Seq<char>>)
    requires
        lines.len() >= 1,
        forall|i: int| 0 <= i < lines.len() ==> one_line(#[trigger] lines[i]),
    ensures
        !text::has_char(text::join(lines, "\n"@), '\r'),
        text::split(text::join(lines, "\n"@), '\n') == lines,
    decreases lines.len(),
{
    reveal_strlit("\n");
    let last = lines.last();
    assert(one_line(lines[lines.len() - 1]));
    text::lemma_find(last, '\n');
    assert(text::split(last, '\n') =~= seq![last]);
    if lines.len() == 1 {
        assert(lines =~= seq![last]);
    } else {
        let init = lines.drop_last();
        assert forall|i: int| 0 <= i < init.len() implies one_line(#[trigger] init[i]) by {
            assert(one_line(lines[i]));
        }
        lemma_lf_join(init);
        let x = text::join(init, "\n"@);
        let t = text::join(lines, "\n"@);
        assert(t =~= x + seq!['\n'] + last);
        assert forall|i: int| 0 <= i < t.len() implies t[i] != '\r' by {
            if i < x.len() {
                assert(t[i] == x[i]);
            } else if i > x.len() {
                assert(t[i] == last[i - x.len() - 1]);
            }
        }
        lemma_split_at(x, '\n', last);
        assert(lines =~= init + seq![last]);
    }
}

/// Lines joined by `LF` are the lines of the text they make.
pub proof fn lemma_card_lines_lf(lines: Seq<Seq<char>>)
    requires
        lines.len() >= 1,
        forall|i: int| 0 <= i < lines.len() ==> one_line(#[trigger] lines[i]),
    ensures
        card_lines(text::join(lines, "\n"@)) == lines,
{
    lemma_lf_join(lines);
    lemma_normalize_one_line(text::join(lines, "\n"@));
}

/// Lines none of which goes on where another stopped are unfolded.
pub proof fn lemma_unfold_plain(lines: Seq<Seq<char>>)
    requires
        forall|i: int| 0 <= i < lines.len() ==> !is_continuation(#[trigger] lines[i]),
    ensures
        unfold(lines) == lines,
    decreases lines.len(),
{
    if lines.len() > 0 {
        let init = lines.drop_last();
        assert forall|i: int| 0 <= i < init.len() implies !is_continuation(#[trigger] init[i]) by {
            assert(!is_continuation(lines[i]));
        }
        lemma_unfold_plain(init);
        assert(!is_continuation(lines[lines.len() - 1]));
        assert(lines =~= init.push(lines.last()));
    } else {
        assert(unfold(lines) =~= lines);
    }
}

proof fn lemma_unfold_folded(before: Seq<Seq<char>>, line: Seq<char>, n: int)
    requires
        before.len() == 0 || !is_continuation(line),
        before.len() == 0 ==> !is_continuation(line),
        1 <= n <= pieces(line).len(),
    ensures
        unfold(before + folded_lines(line).take(n)) == unfold(before).push(
            concat(pieces(line).take(n)),
        ),
    decreases n,
{
    lemma_pieces_from(line, 75);
    let f = folded_lines(line);
    let p = pieces(line);
    let all = before + f.take(n);
    assert(all.last() == f[n - 1]);
    assert(p.take(n).drop_last() =~= p.take(n - 1));
    assert(p.take(n).last() == p[n - 1]);
    if n == 1 {
        assert(all.drop_last() =~= before);
        assert(concat(p.take(0)) =~= seq![]);
        assert(concat(p.take(1)) =~= p[0]);
        assert(line.len() == 0 ==> p[0].len() == 0) by {
            if line.len() == 0 {
                assert(octets(line) == 0);
            }
        }
        assert(!is_continuation(p[0]));
    } else {
        lemma_unfold_folded(before, line, n - 1);
        assert(all.drop_last() =~= before + f.take(n - 1));
        let u = unfold(before + f.take(n - 1));
        assert(f[n - 1].skip(1) =~= p[n - 1]);
        assert(u.drop_last() =~= unfold(before));
        assert(unfold(all) =~= unfold(before).push(concat(p.take(n))));
    }
}

/// The lines of a card whose content lines are `lines`.
pub open spec fn all_folded_lines(lines: Seq<Seq<char>>) -> Seq<Seq<char>>
    decreases lines.len(),
{
    if lines.len() == 0 {
        seq![]
    } else {
        all_folded_lines(lines.drop_last()) + folded_lines(lines.last())
    }
}

/// Content lines, each folded.
pub open spec fn fold_each(lines: Seq<Seq<char>>) -> Seq<Seq<char>> {
    Seq::new(lines.len(), |i: int| fold(lines[i]))
}

/// A card: its content lines folded and joined by `CR LF`.
pub open spec fn card_of(lines: Seq<Seq<char>>) -> Seq<char> {
    text::join(fold_each(lines), "\r\n"@)
}

/// Folds each content line and joins them into a card, without a line end
/// behind the last.
pub fn fold_card(lines: &Vec<String>) -> (r: String)
    ensures
        r@ == card_of(text::texts(lines@)),
{
    let mut out: Vec<String> = Vec::new();
    let ghost t = text::texts(lines@);
    let mut i: usize = 0;
    while i < lines.len()
        invariant
            i <= lines@.len(),
            t == text::texts(lines@),
            text::texts(out@) =~= fold_each(t).take(i as int),
        decreases lines@.len() - i,
    {
        out.push(fold_content_line(lines[i].as_str()));
        i = i + 1;
    }
    assert(text::texts(out@) =~= fold_each(t));
    join_texts(&out, "\r\n")
}

pub proof fn lemma_join_concat(a: Seq<Seq<char>>, b: Seq<Seq<char>>, sep: Seq<char>)
    requires
        a.len() > 0,
        b.len() > 0,
    ensures
        text::join(a + b, sep) == text::join(a, sep) + sep + text::join(b, sep),
    decreases b.len(),
{
    let s = a + b;
    if b.len() == 1 {
        assert(s.drop_last() =~= a);
    } else {
        assert(s.drop_last() =~= a + b.drop_last());
        lemma_join_concat(a, b.drop_last(), sep);
        assert(text::join(s, sep) =~= text::join(a, sep) + sep + text::join(b, sep));
    }
}

proof fn lemma_one_line_part(a: Seq<char>, b: Seq<char>)
    requires
        one_line(a + b),
    ensures
        one_line(a),
        one_line(b),
{
    let s = a + b;
    assert forall|i: int| 0 <= i < a.len() implies a[i] != '\r' && a[i] != '\n' by {
        assert(s[i] == a[i]);
    }
    assert forall|i: int| 0 <= i < b.len() implies b[i] != '\r' && b[i] != '\n' by {
        assert(s[i + a.len()] == b[i]);
    }
}

proof fn lemma_pieces_one_line(parts: Seq<Seq<char>>)
    requires
        one_line(concat(parts)),
    ensures
        forall|i: int| 0 <= i < parts.len() ==> one_line(#[trigger] parts[i]),
    decreases parts.len(),
{
    if parts.len() > 0 {
        lemma_one_line_part(concat(parts.drop_last()), parts.last());
        lemma_pieces_one_line(parts.drop_last());
        assert forall|i: int| 0 <= i < parts.len() implies one_line(#[trigger] parts[i]) by {
            if i < parts.len() - 1 {
                assert(parts.drop_last()[i] == parts[i]);
            }
        }
    }
}

proof fn lemma_card_of(lines: Seq<Seq<char>>)
    requires
        lines.len() >= 1,
        forall|i: int|
            0 <= i < lines.len() ==> one_line(#[trigger] lines[i]) && !is_continuation(lines[i]),
    ensures
        card_of(lines) == text::join(all_folded_lines(lines), "\r\n"@),
        all_folded_lines(lines).len() >= 1,
        forall|i: int|
            0 <= i < all_folded_lines(lines).len() ==> one_line(
                #[trigger] all_folded_lines(lines)[i],
            ),
        unfold(all_folded_lines(lines)) == lines,
    decreases lines.len(),
{
    let last = lines.last();
    let init = lines.drop_last();
    let f = folded_lines(last);
    assert(one_line(lines[lines.len() - 1]));
    law_folded_lines_fit(last);
    lemma_pieces_from(last, 75);
    lemma_pieces_one_line(pieces(last));
    assert forall|i: int| 0 <= i < f.len() implies one_line(#[trigger] f[i]) by {
        assert(one_line(pieces(last)[i]));
        if i > 0 {
            assert forall|j: int| 0 <= j < f[i].len() implies f[i][j] != '\r' && f[i][j] != '\n' by {
                assert(j > 0 ==> f[i][j] == pieces(last)[i][j - 1]);
            }
        }
    }
    assert(fold_each(lines).drop_last() =~= fold_each(init));
    assert(f.take(f.len() as int) =~= f);
    assert(pieces(last).take(f.len() as int) =~= pieces(last));
    if init.len() == 0 {
        assert(all_folded_lines(init) =~= seq![]);
        assert(all_folded_lines(lines) =~= f);
        lemma_unfold_folded(seq![], last, f.len() as int);
        assert(seq![] + f =~= f);
        assert(unfold(Seq::<Seq<char>>::empty()) =~= seq![]);
        assert(lines =~= seq![last]);
    } else {
        assert forall|i: int| 0 <= i < init.len() implies one_line(#[trigger] init[i])
            && !is_continuation(init[i]) by {
            assert(init[i] == lines[i]);
        }
        lemma_card_of(init);
        lemma_join_concat(all_folded_lines(init), f, "\r\n"@);
        lemma_unfold_folded(all_folded_lines(init), last, f.len() as int);
        assert(lines =~= init.push(last));
    }
}

proof fn lemma_normalize_no_cr(s: Seq<char>)
    ensures
        !text::has_char(normalize(s), '\r'),
    decreases s.len(),
{
    if s.len() > 0 {
        let n = normalize(s);
        let rest = if s[0] == '\r' && s.len() > 1 && s[1] == '\n' {
            normalize(s.skip(2))
        } else {
            normalize(s.skip(1))
        };
        if s.len() > 1 {
            lemma_normalize_no_cr(s.skip(2));
        }
        lemma_normalize_no_cr(s.skip(1));
        assert forall|i: int| 0 <= i < n.len() implies n[i] != '\r' by {
            if i > 0 {
                assert(n[i] == rest[i - 1]);
            }
        }
    }
}

proof fn lemma_split_parts(s: Seq<char>, c: char)
    requires
        !text::has_char(s, '\r'),
    ensures
        forall|i: int|
            0 <= i < text::split(s, c).len() ==> !text::has_char(#[trigger] text::split(s, c)[i], c)
                && !text::has_char(text::split(s, c)[i], '\r'),
    decreases s.len(),
{
    let k = text::find(s, c);
    text::lemma_find(s, c);
    let parts = text::split(s, c);
    if k < s.len() {
        let rest = s.skip(k + 1);
        assert forall|i: int| 0 <= i < rest.len() implies rest[i] != '\r' by {
            assert(rest[i] == s[i + k + 1]);
        }
        lemma_split_parts(rest, c);
        assert forall|i: int| 0 <= i < parts.len() implies !text::has_char(#[trigger] parts[i], c)
            && !text::has_char(parts[i], '\r') by {
            if i > 0 {
                assert(parts[i] == text::split(rest, c)[i - 1]);
            }
        }
    }
}

/// The unfolded lines of a card hold no line end.
pub proof fn lemma_unfolded_lines(card: Seq<char>)
    ensures
        forall|i: int|
            0 <= i < unfold(card_lines(card)).len() ==> one_line(
                #[trigger] unfold(card_lines(card))[i],
            ),
{
    lemma_normalize_no_cr(card);
    lemma_split_parts(normalize(card), '\n');
    lemma_unfold_one_line(card_lines(card));
}

proof fn lemma_unfold_one_line(l: Seq<Seq<char>>)
    requires
        forall|i: int| 0 <= i < l.len() ==> one_line(#[trigger] l[i]),
    ensures
        forall|i: int| 0 <= i < unfold(l).len() ==> one_line(#[trigger] unfold(l)[i]),
    decreases l.len(),
{
    if l.len() > 0 {
        let init = l.drop_last();
        assert forall|i: int| 0 <= i < init.len() implies one_line(#[trigger] init[i]) by {
            assert(one_line(l[i]));
        }
        lemma_unfold_one_line(init);
        let line = l[l.len() - 1];
        let acc = unfold(init);
        let r = unfold(l);
        assert(one_line(line));
        assert forall|i: int| 0 <= i < r.len() implies one_line(#[trigger] r[i]) by {
            if i < r.len() - 1 {
                assert(r[i] == acc[i]);
            } else if is_continuation(line) && acc.len() > 0 {
                let a = acc[acc.len() - 1];
                assert(one_line(a));
                assert(r[i] == a + line.skip(1));
                assert forall|j: int| 0 <= j < r[i].len() implies r[i][j] != '\r' && r[i][j]
                    != '\n' by {
                    if j >= a.len() {
                        assert(r[i][j] == line[j - a.len() + 1]);
                    } else {
                        assert(r[i][j] == a[j]);
                    }
                }
            }
        }
    }
}

/// Unfolding a card gives back the content lines it was folded from, as
/// long as none of them holds a line end or starts with a space or a tab.
pub proof fn law_unfold_inverts_fold(lines: Seq<Seq<char>>)
    requires
        lines.len() >= 1,
        forall|i: int|
            0 <= i < lines.len() ==> one_line(#[trigger] lines[i]) && !is_continuation(lines[i]),
    ensures
        unfold(card_lines(card_of(lines))) == lines,
{
    lemma_card_of(lines);
    lemma_card_lines_join(all_folded_lines(lines));
}

/// Every line of a folded card takes at most 75 octets.
pub proof fn law_card_lines_fit(lines: Seq<Seq<char>>)
    ensures
        forall|i: int|
            0 <= i < all_folded_lines(lines).len() ==> octets(#[trigger] all_folded_lines(lines)[i])
                <= 75,
    decreases lines.len(),
{
    if lines.len() > 0 {
        law_card_lines_fit(lines.drop_last());
        law_folded_lines_fit(lines.last());
        let a = all_folded_lines(lines.drop_last());
        let b = folded_lines(lines.last());
        assert forall|i: int| 0 <= i < all_folded_lines(lines).len() implies octets(
            #[trigger] all_folded_lines(lines)[i],
        ) <= 75 by {
            if i < a.len() {
                assert((a + b)[i] == a[i]);
            } else {
                assert((a + b)[i] == b[i - a.len()]);
            }
        }
    }
}

/// A continuation, marked by a space or a tab, joins the line before it
/// without its mark and with everything else; any other line stands for
/// itself.
pub proof fn law_continuations_join(l: Seq<Seq<char>>, mark: char, rest: Seq<char>, line: Seq<char>)
    requires
        unfold(l).len() > 0,
        mark == ' ' || mark == '\t',
        line.len() == 0 || line[0] != ' ' && line[0] != '\t',
    ensures
        ({
            let was = unfold(l);
            let is = unfold(l.push(seq![mark] + rest));
            &&& is.len() == was.len()
            &&& is.drop_last() == was.drop_last()
            &&& is.last() == was.last() + rest
        }),
        unfold(l.push(line)) == unfold(l).push(line),
{
    let c = seq![mark] + rest;
    assert(l.push(c).drop_last() =~= l);
    assert(l.push(line).drop_last() =~= l);
    assert(c.skip(1) =~= rest);
    let is = unfold(l.push(c));
    assert(is.drop_last() =~= unfold(l).drop_last());
}

/// Text in which carriage return and line feed come together only.
pub open spec fn is_ended(s: Seq<char>) -> bool {
    &&& s.len() > 0 ==> s[0] != '\n' && s[s.len() - 1] != '\r'
    &&& forall|i: int, j: int|
        0 <= i && j == i + 1 && j < s.len() ==> (#[trigger] s[i] == '\r' <==> #[trigger] s[j]
            == '\n')
}

proof fn lemma_ended_concat(a: Seq<char>, b: Seq<char>)
    requires
        is_ended(a),
        is_ended(b),
    ensures
        is_ended(a + b),
{
    let s = a + b;
    let n = a.len() as int;
    assert forall|i: int, j: int| 0 <= i && j == i + 1 && j < s.len() implies (#[trigger] s[i]
        == '\r' <==> #[trigger] s[j] == '\n') by {
        if j < n {
            assert(s[i] == a[i] && s[j] == a[j]);
        } else if i >= n {
            assert(s[i] == b[i - n] && s[j] == b[j - n]);
        } else {
            assert(s[i] == a[n - 1] && s[j] == b[0]);
        }
    }
}

proof fn lemma_ended_join(parts: Seq<Seq<char>>, sep: Seq<char>)
    requires
        is_ended(sep),
        forall|i: int| 0 <= i < parts.len() ==> is_ended(#[trigger] parts[i]),
    ensures
        is_ended(text::join(parts, sep)),
    decreases parts.len(),
{
    if parts.len() > 1 {
        let init = parts.drop_last();
        assert forall|i: int| 0 <= i < init.len() implies is_ended(#[trigger] init[i]) by {
            assert(init[i] == parts[i]);
        }
        lemma_ended_join(init, sep);
        assert(is_ended(parts[parts.len() - 1]));
        lemma_ended_concat(text::join(init, sep), sep);
        lemma_ended_concat(text::join(init, sep) + sep, parts.last());
    } else if parts.len() == 1 {
        assert(is_ended(parts[0]));
    }
}

proof fn lemma_pieces_stay_one_line(s: Seq<char>, budget: int)
    requires
        one_line(s),
    ensures
        forall|i: int|
            0 <= i < pieces_from(s, budget).len() ==> one_line(#[trigger] pieces_from(s, budget)[i]),
    decreases s.len(),
{
    let k = fit(s, budget);
    if !(octets(s) <= budget || !(0 < k <= s.len())) {
        assert(s =~= s.take(k) + s.skip(k));
        lemma_one_line_part(s.take(k), s.skip(k));
        lemma_pieces_stay_one_line(s.skip(k), 74);
        let p = pieces_from(s, budget);
        assert forall|i: int| 0 <= i < p.len() implies one_line(#[trigger] p[i]) by {
            if i > 0 {
                assert(p[i] == pieces_from(s.skip(k), 74)[i - 1]);
            }
        }
    }
}

/// Every line of a card, folded or not, ends in carriage return and line
/// feed, and neither occurs without the other.
pub proof fn law_lines_end_in_crlf(lines: Seq<Seq<char>>)
    requires
        forall|i: int| 0 <= i < lines.len() ==> one_line(#[trigger] lines[i]),
    ensures
        is_ended(card_of(lines)),
{
    reveal_strlit("\r\n");
    reveal_strlit("\r\n ");
    assert(is_ended("\r\n"@));
    assert(is_ended("\r\n "@));
    let f = fold_each(lines);
    assert forall|i: int| 0 <= i < f.len() implies is_ended(#[trigger] f[i]) by {
        assert(one_line(lines[i]));
        lemma_pieces_stay_one_line(lines[i], 75);
        let p = pieces(lines[i]);
        assert forall|j: int| 0 <= j < p.len() implies is_ended(#[trigger] p[j]) by {
            assert(one_line(p[j]));
        }
        lemma_ended_join(p, "\r\n "@);
    }
    lemma_ended_join(f, "\r\n"@);
}

} // verus!
