//! Contacts on the server: UIDs, pages and answers.
use vstd::prelude::*;

use crate::error::ProtonError;
use crate::fields;
use crate::json;
use crate::json::{parse_json, Json, JsonModel};
use crate::naturals;
use crate::numbers;
use crate::numbers::signed_decimal_text;
use crate::srp::random_bytes;
use crate::text::{chars_of, concat3, copy_text, push_text, string_of};

verus! {

// ---------------------------------------------------------------------
// UIDs
// ---------------------------------------------------------------------

pub open spec fn hex_char(n: int) -> char {
    if n < 10 {
        (n + 48) as char
    } else {
        (n + 87) as char
    }
}

/// Bytes in lower-case hexadecimal.
pub open spec fn hex(b: Seq<u8>) -> Seq<char>
    decreases b.len(),
{
    if b.len() == 0 {
        seq![]
    } else {
        hex(b.drop_last()) + seq![hex_char(b.last() as int / 16), hex_char(b.last() as int % 16)]
    }
}

/// The UID that 16 bytes make.
pub open spec fn uid_of(b: Seq<u8>) -> Seq<char> {
    "proton-web-"@ + hex(b.subrange(0, 4)) + "-"@ + hex(b.subrange(4, 6)) + "-"@ + hex(
        b.subrange(6, 8),
    ) + "-"@ + hex(b.subrange(8, 10)) + "-"@ + hex(b.subrange(10, 16))
}

fn hex_digit(n: u8) -> (r: char)
    requires
        n < 16,
    ensures
        r == hex_char(n as int),
{
    if n < 10 {
        (n + 48) as char
    } else {
        (n + 87) as char
    }
}

fn push_hex(out: &mut String, b: &Vec<u8>, from: usize, to: usize)
    requires
        from <= to <= b@.len(),
    ensures
        final(out)@ == old(out)@ + hex(b@.subrange(from as int, to as int)),
{
    let ghost start = out@;
    let mut i: usize = from;
    assert(b@.subrange(from as int, from as int) =~= seq![]);
    assert(start + Seq::<char>::empty() =~= start);
    while i < to
        invariant
            from <= i <= to <= b@.len(),
            out@ == start + hex(b@.subrange(from as int, i as int)),
        decreases to - i,
    {
        let ghost part = b@.subrange(from as int, i + 1);
        assert(part.drop_last() =~= b@.subrange(from as int, i as int));
        assert(part.last() == b@[i as int]);
        out.push(hex_digit(b[i] / 16));
        out.push(hex_digit(b[i] % 16));
        assert(out@ =~= start + hex(part));
        i = i + 1;
    }
}

/// The UID that 16 bytes make.
pub fn contact_uid(b: &Vec<u8>) -> (r: String)
    requires
        b@.len() == 16,
    ensures
        r@ == uid_of(b@),
{
    let mut out: String = copy_text("proton-web-");
    push_hex(&mut out, b, 0, 4);
    push_text(&mut out, "-");
    push_hex(&mut out, b, 4, 6);
    push_text(&mut out, "-");
    push_hex(&mut out, b, 6, 8);
    push_text(&mut out, "-");
    push_hex(&mut out, b, 8, 10);
    push_text(&mut out, "-");
    push_hex(&mut out, b, 10, 16);
    out
}

/// Bytes for a UID where the system gives no random ones: those of the time
/// and of the process, added up.
pub open spec fn fallback(nanos: nat, pid: nat) -> Seq<u8> {
    Seq::new(
        16,
        |i: int|
            ((naturals::le_bytes(nanos, 8)[i % 8] + naturals::le_bytes(pid, 4)[i % 4]) % 256) as u8,
    )
}

fn low_bytes(n: u128, len: usize) -> (r: Vec<u8>)
    ensures
        r@ == naturals::le_bytes(n as nat, len as nat),
        r@.len() == len,
{
    let mut out: Vec<u8> = Vec::new();
    let mut rest: u128 = n;
    let ghost whole = naturals::le_bytes(n as nat, len as nat);
    assert(out@ + whole =~= whole);
    while out.len() < len
        invariant
            out@.len() <= len,
            whole == naturals::le_bytes(n as nat, len as nat),
            whole == out@ + naturals::le_bytes(rest as nat, (len - out@.len()) as nat),
        decreases len - out@.len(),
    {
        let ghost before = out@;
        let ghost left = (len - out@.len()) as nat;
        out.push((rest % 256) as u8);
        assert(out@ + naturals::le_bytes((rest / 256) as nat, (left - 1) as nat) =~= before
            + naturals::le_bytes(rest as nat, left));
        rest = rest / 256;
    }
    assert(whole =~= out@);
    out
}

/// Bytes for a UID from the time and the process.
pub fn fallback_bytes(nanos: u128, pid: u32) -> (r: Vec<u8>)
    ensures
        r@ == fallback(nanos as nat, pid as nat),
{
    let time: Vec<u8> = low_bytes(nanos, 8);
    let process: Vec<u8> = low_bytes(pid as u128, 4);
    let mut out: Vec<u8> = Vec::new();
    let mut i: usize = 0;
    while i < 16
        invariant
            i <= 16,
            time@ == naturals::le_bytes(nanos as nat, 8),
            process@ == naturals::le_bytes(pid as nat, 4),
            time@.len() == 8,
            process@.len() == 4,
            out@ =~= fallback(nanos as nat, pid as nat).take(i as int),
        decreases 16 - i,
    {
        let sum: u16 = time[i % 8] as u16 + process[i % 4] as u16;
        out.push((sum % 256) as u8);
        i = i + 1;
    }
    out
}

/// The UID that a draw leads to: that of the bytes that were drawn, and that
/// of the time and the process only where the system gave none.
pub fn uid_of_draw(drawn: Option<Vec<u8>>, nanos: u128, pid: u32) -> (r: String)
    requires
        drawn matches Some(b) ==> b@.len() == 16,
    ensures
        r@ == uid_of(
            match drawn {
                Some(b) => b@,
                None => fallback(nanos as nat, pid as nat),
            },
        ),
{
    let b: Vec<u8> = match drawn {
        Some(b) => b,
        None => fallback_bytes(nanos, pid),
    };
    contact_uid(&b)
}

/// A fresh UID for a contact: that of 16 random bytes, as [`uid_of_draw`]
/// makes it.
pub fn generate_contact_uid(nanos: u128, pid: u32) -> (r: String)
    ensures
        exists|b: Seq<u8>| b.len() == 16 && r@ == #[trigger] uid_of(b),
{
    let drawn: Option<Vec<u8>> = random_bytes(16);
    uid_of_draw(drawn, nanos, pid)
}

proof fn lemma_hex(a: Seq<u8>)
    ensures
        hex(a).len() == 2 * a.len(),
        forall|i: int|
            0 <= i < a.len() ==> hex(a)[2 * i] == hex_char(#[trigger] a[i] as int / 16) && hex(
                a,
            )[2 * i + 1] == hex_char(a[i] as int % 16),
    decreases a.len(),
{
    if a.len() > 0 {
        let init = a.drop_last();
        lemma_hex(init);
        assert forall|i: int| 0 <= i < a.len() implies hex(a)[2 * i] == hex_char(
            #[trigger] a[i] as int / 16,
        ) && hex(a)[2 * i + 1] == hex_char(a[i] as int % 16) by {
            if i < a.len() - 1 {
                assert(init[i] == a[i]);
            }
        }
    }
}

proof fn lemma_hex_char(m: int, n: int)
    requires
        0 <= m < 16,
        0 <= n < 16,
        hex_char(m) == hex_char(n),
    ensures
        m == n,
{
}

proof fn lemma_hex_injective(a: Seq<u8>, b: Seq<u8>)
    requires
        a.len() == b.len(),
        hex(a) == hex(b),
    ensures
        a == b,
{
    lemma_hex(a);
    lemma_hex(b);
    assert forall|i: int| 0 <= i < a.len() implies a[i] == b[i] by {
        assert(hex(a)[2 * i] == hex_char(a[i] as int / 16));
        assert(hex(b)[2 * i] == hex_char(b[i] as int / 16));
        assert(hex(a)[2 * i + 1] == hex_char(a[i] as int % 16));
        assert(hex(b)[2 * i + 1] == hex_char(b[i] as int % 16));
        lemma_hex_char(a[i] as int / 16, b[i] as int / 16);
        lemma_hex_char(a[i] as int % 16, b[i] as int % 16);
    }
    assert(a =~= b);
}

/// UIDs have 47 characters, and different bytes make different UIDs.
pub proof fn law_uids_differ(a: Seq<u8>, b: Seq<u8>)
    requires
        a.len() == 16,
        b.len() == 16,
    ensures
        uid_of(a).len() == 47,
        uid_of(a) == uid_of(b) ==> a == b,
{
    reveal_strlit("proton-web-");
    reveal_strlit("-");
    let x = uid_of(a);
    let y = uid_of(b);
    lemma_hex(a.subrange(0, 4));
    lemma_hex(a.subrange(4, 6));
    lemma_hex(a.subrange(6, 8));
    lemma_hex(a.subrange(8, 10));
    lemma_hex(a.subrange(10, 16));
    lemma_hex(b.subrange(0, 4));
    lemma_hex(b.subrange(4, 6));
    lemma_hex(b.subrange(6, 8));
    lemma_hex(b.subrange(8, 10));
    lemma_hex(b.subrange(10, 16));
    if x == y {
        assert(x.subrange(11, 19) =~= hex(a.subrange(0, 4)));
        assert(y.subrange(11, 19) =~= hex(b.subrange(0, 4)));
        lemma_hex_injective(a.subrange(0, 4), b.subrange(0, 4));
        assert(x.subrange(20, 24) =~= hex(a.subrange(4, 6)));
        assert(y.subrange(20, 24) =~= hex(b.subrange(4, 6)));
        lemma_hex_injective(a.subrange(4, 6), b.subrange(4, 6));
        assert(x.subrange(25, 29) =~= hex(a.subrange(6, 8)));
        assert(y.subrange(25, 29) =~= hex(b.subrange(6, 8)));
        lemma_hex_injective(a.subrange(6, 8), b.subrange(6, 8));
        assert(x.subrange(30, 34) =~= hex(a.subrange(8, 10)));
        assert(y.subrange(30, 34) =~= hex(b.subrange(8, 10)));
        lemma_hex_injective(a.subrange(8, 10), b.subrange(8, 10));
        assert(x.subrange(35, 47) =~= hex(a.subrange(10, 16)));
        assert(y.subrange(35, 47) =~= hex(b.subrange(10, 16)));
        lemma_hex_injective(a.subrange(10, 16), b.subrange(10, 16));
        assert forall|i: int| 0 <= i < 16 implies a[i] == b[i] by {
            if i < 4 {
                assert(a.subrange(0, 4)[i] == b.subrange(0, 4)[i]);
            } else if i < 6 {
                assert(a.subrange(4, 6)[i - 4] == b.subrange(4, 6)[i - 4]);
            } else if i < 8 {
                assert(a.subrange(6, 8)[i - 6] == b.subrange(6, 8)[i - 6]);
            } else if i < 10 {
                assert(a.subrange(8, 10)[i - 8] == b.subrange(8, 10)[i - 8]);
            } else {
                assert(a.subrange(10, 16)[i - 10] == b.subrange(10, 16)[i - 10]);
            }
        }
        assert(a =~= b);
    }
}

// ---------------------------------------------------------------------
// Answers
// ---------------------------------------------------------------------

/// Contacts of one page.
pub const CONTACTS_PAGE_SIZE: u32 = 100;

/// Whether another page of contacts follows: there are fewer than the total,
/// and the last page was full. A total below zero is never reached.
pub fn more_contacts(so_far: usize, total: i32, last_page: usize) -> (r: bool)
    ensures
        r == ((total < 0 || so_far < total) && last_page >= CONTACTS_PAGE_SIZE),
{
    (total < 0 || so_far < total as usize) && last_page >= CONTACTS_PAGE_SIZE as usize
}

/// The first characters of a body.
pub open spec fn shortened(body: Seq<char>) -> Seq<char> {
    if body.len() > 1000 {
        body.take(1000)
    } else {
        body
    }
}

fn shorten(body: &str) -> (r: String)
    ensures
        r@ == shortened(body@),
{
    let v: Vec<char> = chars_of(body);
    let end: usize = if v.len() > 1000 {
        1000
    } else {
        v.len()
    };
    let s: String = string_of(&v, 0, end);
    assert(s@ =~= shortened(body@));
    s
}

/// The error of a refused request: status and the start of the body.
pub fn contacts_failure(what: &str, status: &str, body: &str) -> (r: ProtonError)
    ensures
        r matches ProtonError::Api { code, message } && code == 0 && message@ == "contacts "@
            + what@ + " failed "@ + status@ + ": "@ + shortened(body@),
{
    let short: String = shorten(body);
    let mut m: String = concat3("contacts ", what, " failed ");
    push_text(&mut m, status);
    push_text(&mut m, ": ");
    push_text(&mut m, short.as_str());
    ProtonError::Api { code: 0, message: m }
}

/// The code of an answer to a deletion, where it has one.
pub open spec fn delete_code(j: JsonModel) -> Option<int> {
    match json::get(j, "Code"@) {
        Some(v) => fields::as_int(v),
        None => None,
    }
}

/// The error text of an answer, empty without one.
pub open spec fn answer_error(j: JsonModel) -> Seq<char> {
    match json::get(j, "Error"@) {
        Some(JsonModel::Text(s)) => s,
        _ => seq![],
    }
}

/// Whether a body reports that a deletion failed: only an explicit code other
/// than 1000 and 1001 does.
pub open spec fn delete_failure(body: Seq<char>) -> Option<Seq<char>> {
    match json::json_of_text(body) {
        Err(_) => None,
        Ok(j) => match delete_code(j) {
            Some(code) => if code == 1000 || code == 1001 {
                None
            } else {
                Some(
                    "contacts delete failed "@ + numbers::signed_decimal(code) + ": "@
                        + answer_error(j) + " "@ + shortened(body),
                )
            },
            None => None,
        },
    }
}

fn error_in(j: &Json) -> (r: String)
    ensures
        r@ == answer_error(j@),
{
    match j.get("Error") {
        Some(Json::Text(s)) => copy_text(s.as_str()),
        _ => String::new(),
    }
}

/// What the body of an answer to a deletion comes to.
pub fn delete_answer(body: &str) -> (r: Result<(), ProtonError>)
    ensures
        match delete_failure(body@) {
            None => r is Ok,
            Some(m) => r matches Err(ProtonError::Api { code, message }) && code == 0 && message@
                == m,
        },
{
    let j: Json = match parse_json(body) {
        Ok(j) => j,
        Err(_) => return Ok(()),
    };
    let code: i64 = match j.get("Code") {
        Some(Json::Number(n)) => match n.int {
            Some(c) => c,
            None => return Ok(()),
        },
        _ => return Ok(()),
    };
    if code == 1000 || code == 1001 {
        return Ok(());
    }
    let number: String = signed_decimal_text(code);
    let error: String = error_in(&j);
    let short: String = shorten(body);
    let mut m: String = concat3("contacts delete failed ", number.as_str(), ": ");
    push_text(&mut m, error.as_str());
    push_text(&mut m, " ");
    push_text(&mut m, short.as_str());
    Err(ProtonError::Api { code: 0, message: m })
}

/// The number of contacts of an answer, 0 when it names none; above 32 bits
/// the lower ones.
pub open spec fn count_in(j: JsonModel) -> int {
    match json::get(j, "Total"@) {
        Some(JsonModel::Number(n)) => match n.uint {
            Some(v) => v % 0x1_0000_0000,
            None => 0,
        },
        _ => 0,
    }
}

/// The number of contacts of an answer.
pub fn contact_count(j: &Json) -> (r: u32)
    ensures
        r == count_in(j@),
{
    match j.get("Total") {
        Some(Json::Number(n)) => match n.uint {
            Some(v) => (v % 0x1_0000_0000) as u32,
            None => 0,
        },
        _ => 0,
    }
}

/// A deletion failed only where its answer has a code, and one other than
/// those for success; the error then names the code and the words of the
/// answer.
pub proof fn law_deletion_answers(body: Seq<char>, j: JsonModel, code: int)
    requires
        json::json_of_text(body) == Ok::<JsonModel, Seq<char>>(j),
    ensures
        json::get(j, "Code"@) is None ==> delete_failure(body) is None,
        (json::get(j, "Code"@) matches Some(JsonModel::Number(n)) && n.int == Some(code)) ==> {
            &&& code == 1000 || code == 1001 ==> delete_failure(body) is None
            &&& code != 1000 && code != 1001 ==> {
                let said = json::get(j, "Error"@);
                let short = if body.len() > 1000 {
                    body.take(1000)
                } else {
                    body
                };
                &&& said matches Some(JsonModel::Text(words)) ==> delete_failure(body) == Some(
                    "contacts delete failed "@ + numbers::signed_decimal(code) + ": "@ + words
                        + " "@ + short,
                )
                &&& delete_failure(body) is Some
            }
        },
{
}

/// The number of contacts is the total that the answer names, and 0 without
/// one.
pub proof fn law_contact_total(j: JsonModel, total: int)
    requires
        0 <= total < 0x1_0000_0000,
    ensures
        (json::get(j, "Total"@) matches Some(JsonModel::Number(n)) && n.uint == Some(total))
            ==> count_in(j) == total,
        json::get(j, "Total"@) is None ==> count_in(j) == 0,
{
}

} // verus!
