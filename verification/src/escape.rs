//! Escaping of text values in cards.
use vstd::prelude::*;

use crate::lines;
use crate::text;
use crate::text::chars_of;

verus! {

/// A text value with its backslash escapes resolved. A backslash before any
/// other character, or at the end, stands for itself.
pub open spec fn unescape(s: Seq<char>) -> Seq<char>
    decreases s.len(),
{
    if s.len() == 0 {
        seq![]
    } else if s[0] != '\\' {
        seq![s[0]] + unescape(s.skip(1))
    } else if s.len() == 1 {
        seq!['\\']
    } else if s[1] == 'n' || s[1] == 'N' {
        seq!['\n'] + unescape(s.skip(2))
    } else if s[1] == ',' || s[1] == ';' || s[1] == '\\' {
        seq![s[1]] + unescape(s.skip(2))
    } else {
        seq!['\\', s[1]] + unescape(s.skip(2))
    }
}

/// How one character is written in a text value.
pub open spec fn escaped_char(c: char) -> Seq<char> {
    if c == '\\' {
        seq!['\\', '\\']
    } else if c == '\n' {
        seq!['\\', 'n']
    } else if c == ',' {
        seq!['\\', ',']
    } else if c == ';' {
        seq!['\\', ';']
    } else {
        seq![c]
    }
}

/// A vCard text value.
pub open spec fn escape(s: Seq<char>) -> Seq<char>
    decreases s.len(),
{
    if s.len() == 0 {
        seq![]
    } else {
        escaped_char(s[0]) + escape(s.skip(1))
    }
}

/// Text without its carriage returns.
pub open spec fn without_cr(s: Seq<char>) -> Seq<char>
    decreases s.len(),
{
    if s.len() == 0 {
        seq![]
    } else if s[0] == '\r' {
        without_cr(s.skip(1))
    } else {
        seq![s[0]] + without_cr(s.skip(1))
    }
}

/// Unescapes a text value.
pub fn unescape_text(s: &str) -> (r: String)
    ensures
        r@ == unescape(s@),
{
    let v: Vec<char> = chars_of(s);
    let mut out: String = String::new();
    let mut i: usize = 0;
    assert(v@.skip(0) =~= v@);
    while i < v.len()
        invariant
            i <= v@.len(),
            v@ == s@,
            unescape(s@) =~= out@ + unescape(v@.skip(i as int)),
        decreases v@.len() - i,
    {
        let ghost rest = v@.skip(i as int);
        assert(rest[0] == v@[i as int]);
        assert(rest.skip(1) =~= v@.skip(i + 1));
        assert(i + 1 < v@.len() ==> rest[1] == v@[i + 1]);
        assert(i + 1 < v@.len() ==> rest.skip(2) =~= v@.skip(i + 2));
        if v[i] != '\\' {
            out.push(v[i]);
            i = i + 1;
        } else if i + 1 == v.len() {
            out.push('\\');
            i = i + 1;
            assert(unescape(v@.skip(i as int)) =~= seq![]);
        } else {
            let c: char = v[i + 1];
            if c == 'n' || c == 'N' {
                out.push('\n');
            } else if c == ',' || c == ';' || c == '\\' {
                out.push(c);
            } else {
                out.push('\\');
                out.push(c);
            }
            i = i + 2;
        }
    }
    out
}

fn push_escaped(out: &mut String, c: char)
    ensures
        final(out)@ == old(out)@ + escaped_char(c),
{
    if c == '\\' {
        out.push('\\');
        out.push('\\');
    } else if c == '\n' {
        out.push('\\');
        out.push('n');
    } else if c == ',' {
        out.push('\\');
        out.push(',');
    } else if c == ';' {
        out.push('\\');
        out.push(';');
    } else {
        out.push(c);
    }
    assert(out@ =~= old(out)@ + escaped_char(c));
}

/// Escapes a vCard text value.
pub fn escape_vcard(s: &str) -> (r: String)
    ensures
        r@ == escape(s@),
{
    let v: Vec<char> = chars_of(s);
    let mut out: String = String::new();
    let mut i: usize = 0;
    assert(v@.skip(0) =~= v@);
    while i < v.len()
        invariant
            i <= v@.len(),
            v@ == s@,
            escape(s@) =~= out@ + escape(v@.skip(i as int)),
        decreases v@.len() - i,
    {
        assert(v@.skip(i as int)[0] == v@[i as int]);
        assert(v@.skip(i as int).skip(1) =~= v@.skip(i + 1));
        push_escaped(&mut out, v[i]);
        i = i + 1;
    }
    out
}

/// Escapes an iCalendar text value. Carriage returns are dropped, so the
/// value holds no line end.
pub fn escape_ical_text(s: &str) -> (r: String)
    ensures
        r@ == escape(without_cr(s@)),
{
    let v: Vec<char> = chars_of(s);
    let mut out: String = String::new();
    let mut i: usize = 0;
    assert(v@.skip(0) =~= v@);
    while i < v.len()
        invariant
            i <= v@.len(),
            v@ == s@,
            escape(without_cr(s@)) =~= out@ + escape(without_cr(v@.skip(i as int))),
        decreases v@.len() - i,
    {
        let ghost rest = v@.skip(i as int);
        assert(rest[0] == v@[i as int]);
        assert(rest.skip(1) =~= v@.skip(i + 1));
        if v[i] != '\r' {
            assert(without_cr(rest).skip(1) =~= without_cr(v@.skip(i + 1)));
            push_escaped(&mut out, v[i]);
        }
        i = i + 1;
    }
    assert(escape(without_cr(v@.skip(i as int))) =~= seq![]);
    out
}

/// Unescaping gives back what was escaped.
pub proof fn law_unescape_inverts_escape(s: Seq<char>)
    ensures
        unescape(escape(s)) == s,
    decreases s.len(),
{
    if s.len() > 0 {
        let rest = s.skip(1);
        law_unescape_inverts_escape(rest);
        let e = escape(s);
        let head = escaped_char(s[0]);
        assert(e.skip(head.len() as int) =~= escape(rest));
        assert(e[0] == head[0]);
        assert(head.len() == 2 ==> e[1] == head[1]);
        assert(s =~= seq![s[0]] + rest);
    } else {
        assert(escape(s) =~= seq![]);
        assert(unescape(escape(s)) =~= s);
    }
}

/// Text without a carriage return keeps every character through
/// `without_cr`.
pub proof fn lemma_without_cr(s: Seq<char>)
    ensures
        !text::has_char(without_cr(s), '\r'),
        !text::has_char(s, '\r') ==> without_cr(s) == s,
    decreases s.len(),
{
    if s.len() > 0 {
        let rest = s.skip(1);
        lemma_without_cr(rest);
        let w = without_cr(s);
        assert forall|i: int| 0 <= i < w.len() implies w[i] != '\r' by {
            if s[0] != '\r' && i > 0 {
                assert(w[i] == without_cr(rest)[i - 1]);
            } else if s[0] == '\r' {
                assert(w[i] == without_cr(rest)[i]);
            }
        }
        if !text::has_char(s, '\r') {
            assert(s[0] != '\r');
            assert forall|i: int| 0 <= i < rest.len() implies rest[i] != '\r' by {
                assert(rest[i] == s[i + 1]);
            }
            assert(w =~= s);
        }
    }
}

/// An escaped iCalendar value holds no line end and unescapes to the text
/// without its carriage returns; so text that has none comes back whole.
pub proof fn law_ical_text_round_trip(s: Seq<char>)
    ensures
        lines::one_line(escape(without_cr(s))),
        unescape(escape(without_cr(s))) == without_cr(s),
        !text::has_char(s, '\r') ==> unescape(escape(without_cr(s))) == s,
{
    lemma_without_cr(s);
    law_unescape_inverts_escape(without_cr(s));
    lemma_escape_one_line(without_cr(s));
}

/// Escaped text holds no line feed, and no carriage return but those of the
/// text.
pub proof fn lemma_escape_one_line(s: Seq<char>)
    ensures
        !text::has_char(escape(s), '\n'),
        !text::has_char(s, '\r') ==> !text::has_char(escape(s), '\r'),
    decreases s.len(),
{
    if s.len() > 0 {
        let rest = s.skip(1);
        let e = escape(s);
        let head = escaped_char(s[0]);
        lemma_escape_one_line(rest);
        assert forall|i: int| 0 <= i < e.len() implies e[i] != '\n' by {
            if i >= head.len() {
                assert(e[i] == escape(rest)[i - head.len()]);
            }
        }
        if !text::has_char(s, '\r') {
            assert(s[0] != '\r');
            assert forall|i: int| 0 <= i < rest.len() implies rest[i] != '\r' by {
                assert(rest[i] == s[i + 1]);
            }
            assert forall|i: int| 0 <= i < e.len() implies e[i] != '\r' by {
                if i >= head.len() {
                    assert(e[i] == escape(rest)[i - head.len()]);
                }
            }
        }
    }
}

/// Where the first part of a structured value ends: at the first semicolon
/// that no backslash escapes, or at the end.
pub open spec fn part_end(s: Seq<char>) -> int
    decreases s.len(),
{
    if s.len() == 0 || s[0] == ';' {
        0
    } else if s[0] == '\\' && s.len() > 1 {
        2 + part_end(s.skip(2))
    } else {
        1 + part_end(s.skip(1))
    }
}

pub proof fn lemma_part_end(s: Seq<char>)
    ensures
        0 <= part_end(s) <= s.len(),
    decreases s.len(),
{
    if s.len() > 0 && s[0] != ';' {
        if s[0] == '\\' && s.len() > 1 {
            lemma_part_end(s.skip(2));
        } else {
            lemma_part_end(s.skip(1));
        }
    }
}

/// The parts of a structured value, each with its escapes resolved.
pub open spec fn value_parts(s: Seq<char>) -> Seq<Seq<char>>
    decreases s.len(),
    via value_parts_shrink
{
    let k = part_end(s);
    if k < s.len() {
        seq![unescape(s.take(k))] + value_parts(s.skip(k + 1))
    } else {
        seq![unescape(s)]
    }
}

#[via_fn]
proof fn value_parts_shrink(s: Seq<char>) {
    lemma_part_end(s);
}

pub proof fn lemma_value_parts(s: Seq<char>)
    ensures
        value_parts(s).len() > 0,
{
}

fn end_of_part(v: &Vec<char>, from: usize) -> (r: usize)
    requires
        from <= v@.len(),
    ensures
        from <= r <= v@.len(),
        r == from + part_end(v@.skip(from as int)),
{
    let mut i: usize = from;
    while i < v.len() && v[i] != ';'
        invariant
            from <= i <= v@.len(),
            from + part_end(v@.skip(from as int)) == i + part_end(v@.skip(i as int)),
        decreases v@.len() - i,
    {
        let ghost rest = v@.skip(i as int);
        assert(rest[0] == v@[i as int]);
        assert(rest.skip(1) =~= v@.skip(i + 1));
        if v[i] == '\\' && i + 1 < v.len() {
            assert(rest.skip(2) =~= v@.skip(i + 2));
            i = i + 2;
        } else {
            i = i + 1;
        }
    }
    assert(i < v@.len() ==> v@.skip(i as int)[0] == v@[i as int]);
    i
}

/// Splits a structured value at the semicolons that are not escaped.
pub fn split_value(s: &str) -> (r: Vec<String>)
    ensures
        text::texts(r@) == value_parts(s@),
        r@.len() > 0,
{
    let v: Vec<char> = chars_of(s);
    let mut out: Vec<String> = Vec::new();
    let mut start: usize = 0;
    assert(v@.skip(0) =~= v@);
    loop
        invariant
            start <= v@.len(),
            v@ == s@,
            text::texts(out@) + value_parts(v@.skip(start as int)) =~= value_parts(s@),
        decreases v@.len() - start,
    {
        let ghost rest = v@.skip(start as int);
        let ghost before = out@;
        let k: usize = end_of_part(&v, start);
        let raw: String = text::string_of(&v, start, k);
        let piece: String = unescape_text(raw.as_str());
        assert(raw@ =~= rest.take(k - start));
        out.push(piece);
        assert(text::texts(out@) =~= text::texts(before).push(piece@));
        if k == v.len() {
            assert(rest.take(k - start) =~= rest);
            assert(text::texts(out@) =~= value_parts(s@));
            return out;
        }
        assert(rest.skip(k - start + 1) =~= v@.skip(k + 1));
        start = k + 1;
    }
}

proof fn lemma_escaped_part_end(p: Seq<char>, rest: Seq<char>)
    requires
        rest.len() == 0 || rest[0] == ';',
    ensures
        part_end(escape(p) + rest) == escape(p).len(),
    decreases p.len(),
{
    let s = escape(p) + rest;
    if p.len() == 0 {
        assert(s =~= rest);
    } else {
        let head = escaped_char(p[0]);
        lemma_escaped_part_end(p.skip(1), rest);
        assert(s[0] == head[0]);
        assert(s.skip(head.len() as int) =~= escape(p.skip(1)) + rest);
    }
}

/// Parts that were escaped and joined with semicolons come back: the first
/// one is what was escaped, and the others are those of the rest.
pub proof fn law_escaped_part_splits_off(p: Seq<char>, rest: Seq<char>)
    ensures
        value_parts(escape(p) + (";"@ + rest)) == seq![p] + value_parts(rest),
        value_parts(escape(p)) == seq![p],
{
    reveal_strlit(";");
    let tail = ";"@ + rest;
    let none = Seq::<char>::empty();
    let e = escape(p);
    lemma_escaped_part_end(p, tail);
    lemma_escaped_part_end(p, none);
    law_unescape_inverts_escape(p);
    assert(e + none =~= e);
    assert((e + tail).take(e.len() as int) =~= e);
    assert((e + tail).skip(e.len() as int + 1) =~= rest);
}

} // verus!
