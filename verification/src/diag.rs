//! Diagnostic text: response bodies without secrets, and log rotation.
use vstd::prelude::*;

use crate::json;
use crate::json::{copy_json, to_pretty, Json, JsonModel};
use crate::numbers;
use crate::numbers::decimal_text;
use crate::text;
use crate::text::{
    chars_of, concat2, concat3, copy_text, string_of, text_contains, to_lower, trimmed,
};

verus! {

/// Characters of a body that are kept.
pub const MAX_BODY_CHARS: usize = 8000;

/// Characters of a string value that are kept.
pub const MAX_STRING_CHARS: usize = 500;

/// Parts of a name, in lower case, that mark a value as secret.
pub const SENSITIVE_SUBSTRINGS: [&'static str; 9] = [
    "privatekey",
    "passphrase",
    "accesstoken",
    "refreshtoken",
    "twofactorcode",
    "password",
    "secret",
    "signature",
    "token",
];

/// Whether a name marks its value as secret.
pub open spec fn sensitive(key: Seq<char>) -> bool {
    exists|i: int|
        0 <= i < SENSITIVE_SUBSTRINGS@.len() && text::contains_text(
            text::lowercase(key),
            #[trigger] SENSITIVE_SUBSTRINGS@[i]@,
        )
}

/// A string cut to the first characters, with the number of those left out.
pub open spec fn shortened(s: Seq<char>) -> Seq<char> {
    if s.len() > MAX_STRING_CHARS {
        s.take(MAX_STRING_CHARS as int) + "…[+"@ + numbers::decimal(
            (s.len() - MAX_STRING_CHARS) as nat,
        ) + " chars]"@
    } else {
        s
    }
}

/// A value with secrets replaced and long strings cut.
pub open spec fn scrubbed(j: JsonModel) -> JsonModel
    decreases j,
{
    match j {
        JsonModel::Text(s) => JsonModel::Text(shortened(s)),
        JsonModel::Array(a) => JsonModel::Array(
            Seq::new(
                a.len(),
                |i: int|
                    if 0 <= i < a.len() {
                        scrubbed(a[i])
                    } else {
                        JsonModel::Null
                    },
            ),
        ),
        JsonModel::Object(o) => JsonModel::Object(
            Seq::new(
                o.len(),
                |i: int|
                    if 0 <= i < o.len() {
                        (
                            o[i].0,
                            if sensitive(o[i].0) {
                                JsonModel::Text("***"@)
                            } else {
                                scrubbed(o[i].1)
                            },
                        )
                    } else {
                        (seq![], JsonModel::Null)
                    },
            ),
        ),
        _ => j,
    }
}

/// Whether a name marks its value as secret.
pub fn is_sensitive(key: &str) -> (r: bool)
    ensures
        r == sensitive(key@),
{
    let lower: String = to_lower(key);
    let mut i: usize = 0;
    while i < 9
        invariant
            i <= 9,
            lower@ == text::lowercase(key@),
            forall|j: int|
                0 <= j < i ==> !text::contains_text(
                    lower@,
                    #[trigger] SENSITIVE_SUBSTRINGS@[j]@,
                ),
        decreases 9 - i,
    {
        if text_contains(lower.as_str(), SENSITIVE_SUBSTRINGS[i]) {
            return true;
        }
        i = i + 1;
    }
    false
}

fn shorten(s: &str) -> (r: String)
    ensures
        r@ == shortened(s@),
{
    let v: Vec<char> = chars_of(s);
    if v.len() > MAX_STRING_CHARS {
        let head: String = string_of(&v, 0, MAX_STRING_CHARS);
        assert(head@ =~= s@.take(MAX_STRING_CHARS as int));
        let n: String = decimal_text((v.len() - MAX_STRING_CHARS) as u64);
        let tail: String = concat2(n.as_str(), " chars]");
        let r: String = concat3(head.as_str(), "…[+", tail.as_str());
        assert(r@ =~= shortened(s@));
        r
    } else {
        copy_text(s)
    }
}

/// A copy with secrets replaced and long strings cut.
pub fn scrub(value: &Json) -> (r: Json)
    ensures
        r@ == scrubbed(value@),
    decreases value,
{
    match value {
        Json::Text(s) => Json::Text(shorten(s.as_str())),
        Json::Array(a) => {
            let mut out: Vec<Json> = Vec::new();
            let mut i: usize = 0;
            while i < a.len()
                invariant
                    i <= a@.len(),
                    *value == Json::Array(*a),
                    json::models(out@).len() == i,
                    forall|k: int|
                        0 <= k < i ==> #[trigger] json::models(out@)[k] == scrubbed(
                            json::models(a@)[k],
                        ),
                decreases a@.len() - i,
            {
                let ghost done = json::models(out@);
                assert(decreases_to!(*value => value->Array_0));
                assert(decreases_to!(a@ => a@[i as int]));
                let c: Json = scrub(&a[i]);
                out.push(c);
                assert(json::models(out@) =~= done.push(c@));
                i = i + 1;
            }
            proof {
                json::lemma_array_model(out);
                json::lemma_array_model(*a);
                assert(scrubbed(value@)->Array_0 =~= json::models(out@));
            }
            Json::Array(out)
        },
        Json::Object(o) => {
            let mut out: Vec<(String, Json)> = Vec::new();
            let mut i: usize = 0;
            while i < o.len()
                invariant
                    i <= o@.len(),
                    *value == Json::Object(*o),
                    json::member_models(out@).len() == i,
                    forall|k: int|
                        0 <= k < i ==> #[trigger] json::member_models(out@)[k] == (
                            json::member_models(o@)[k].0,
                            if sensitive(json::member_models(o@)[k].0) {
                                JsonModel::Text("***"@)
                            } else {
                                scrubbed(json::member_models(o@)[k].1)
                            },
                        ),
                decreases o@.len() - i,
            {
                let ghost done = json::member_models(out@);
                let k: String = copy_text(o[i].0.as_str());
                assert(decreases_to!(*value => value->Object_0));
                assert(decreases_to!(o@ => o@[i as int]));
                let c: Json = if is_sensitive(k.as_str()) {
                    Json::Text(copy_text("***"))
                } else {
                    scrub(&o[i].1)
                };
                let ghost kv = k@;
                out.push((k, c));
                assert(json::member_models(out@) =~= done.push((kv, c@)));
                i = i + 1;
            }
            proof {
                json::lemma_object_model(out);
                json::lemma_object_model(*o);
                assert(scrubbed(value@)->Object_0 =~= json::member_models(out@));
            }
            Json::Object(out)
        },
        _ => copy_json(value),
    }
}

/// A body cut to the first characters, with its full length named.
pub open spec fn capped(s: Seq<char>) -> Seq<char> {
    if s.len() <= MAX_BODY_CHARS {
        s
    } else {
        s.take(MAX_BODY_CHARS as int) + "…[truncated, "@ + numbers::decimal(s.len() as nat)
            + " chars total]"@
    }
}

/// Cuts a body to the first characters.
pub fn cap_body(pretty: &str) -> (r: String)
    ensures
        r@ == capped(pretty@),
{
    let v: Vec<char> = chars_of(pretty);
    if v.len() <= MAX_BODY_CHARS {
        return copy_text(pretty);
    }
    let head: String = string_of(&v, 0, MAX_BODY_CHARS);
    assert(head@ =~= pretty@.take(MAX_BODY_CHARS as int));
    let n: String = decimal_text(v.len() as u64);
    let tail: String = concat2(n.as_str(), " chars total]");
    let r: String = concat3(head.as_str(), "…[truncated, ", tail.as_str());
    assert(r@ =~= capped(pretty@));
    r
}

/// A body without secrets as indented JSON, cut to the first characters.
pub fn diag_body(value: &Json) -> (r: String)
    ensures
        r@ == capped(json::pretty_text(json::stored(scrubbed(value@)))),
{
    let clean: Json = scrub(value);
    cap_body(to_pretty(&clean).as_str())
}

/// No secret anywhere in the value.
pub open spec fn has_no_secret(j: JsonModel) -> bool
    decreases j,
{
    match j {
        JsonModel::Array(a) => forall|i: int| 0 <= i < a.len() ==> has_no_secret(#[trigger] a[i]),
        JsonModel::Object(o) => forall|i: int|
            0 <= i < o.len() ==> if sensitive((#[trigger] o[i]).0) {
                o[i].1 == JsonModel::Text("***"@)
            } else {
                has_no_secret(o[i].1)
            },
        _ => true,
    }
}

/// Scrubbing leaves no secret at any depth.
pub proof fn law_scrub_leaves_no_secret(j: JsonModel)
    ensures
        has_no_secret(scrubbed(j)),
    decreases j,
{
    match j {
        JsonModel::Array(a) => {
            let r = scrubbed(j)->Array_0;
            assert forall|i: int| 0 <= i < r.len() implies has_no_secret(#[trigger] r[i]) by {
                assert(decreases_to!(j => j->Array_0));
                assert(decreases_to!(a => a[i]));
                law_scrub_leaves_no_secret(a[i]);
            }
        },
        JsonModel::Object(o) => {
            let r = scrubbed(j)->Object_0;
            assert forall|i: int| 0 <= i < r.len() implies if sensitive((#[trigger] r[i]).0) {
                r[i].1 == JsonModel::Text("***"@)
            } else {
                has_no_secret(r[i].1)
            } by {
                assert(decreases_to!(j => j->Object_0));
                assert(decreases_to!(o => o[i]));
                law_scrub_leaves_no_secret(o[i].1);
            }
        },
        _ => {},
    }
}

// ---------------------------------------------------------------------
// Verbosity
// ---------------------------------------------------------------------

/// Whether a setting asks for routine traces: set, not blank and not `0`.
pub fn verbose_setting(value: Option<&str>) -> (r: bool)
    ensures
        r == (match value {
            Some(v) => text::trim(v@).len() > 0 && text::trim(v@) != "0"@,
            None => false,
        }),
{
    match value {
        Some(v) => {
            let t: String = trimmed(v);
            !text::is_empty(t.as_str()) && !text::text_eq(t.as_str(), "0")
        },
        None => false,
    }
}

// ---------------------------------------------------------------------
// Log rotation
// ---------------------------------------------------------------------

/// Position of the first line feed at or behind `from`, or the length.
pub open spec fn next_newline(data: Seq<u8>, from: int) -> int
    decreases data.len() - from,
{
    if from < 0 || from >= data.len() || data[from] == 10 {
        from
    } else {
        next_newline(data, from + 1)
    }
}

/// A byte inside a UTF-8 sequence.
pub open spec fn is_continuation_byte(b: u8) -> bool {
    0x80 <= b < 0xc0
}

/// The first position at or behind `from` that does not split a character.
pub open spec fn char_start(data: Seq<u8>, from: int) -> int
    decreases data.len() - from,
{
    if 0 <= from < data.len() && is_continuation_byte(data[from]) {
        char_start(data, from + 1)
    } else {
        from
    }
}

/// Where the part of a log that is kept starts: behind the first line end
/// in its last `keep` bytes, or at those bytes when they hold none.
pub open spec fn kept_from(data: Seq<u8>, keep: int) -> int {
    let cut: int = if keep < data.len() {
        data.len() - keep
    } else {
        0
    };
    let nl = next_newline(data, cut);
    char_start(
        data,
        if nl < data.len() {
            nl + 1
        } else {
            cut
        },
    )
}

/// The line at the head of a rotated log.
pub open spec fn rotation_marker(max_bytes: nat, kept: nat) -> Seq<char> {
    "[proton] log rotated: exceeded "@ + numbers::decimal(max_bytes) + " bytes, kept last "@
        + numbers::decimal(kept) + " bytes\n"@
}

/// The contents of a log after rotation; none while it is small enough.
pub open spec fn rotated(data: Seq<u8>, max_bytes: nat, keep_bytes: nat) -> Option<Seq<u8>> {
    if data.len() <= max_bytes {
        None
    } else {
        let start = kept_from(data, keep_bytes as int);
        Some(
            vstd::utf8::encode_utf8(rotation_marker(max_bytes, (data.len() - start) as nat))
                + data.skip(start),
        )
    }
}

proof fn lemma_next_newline(data: Seq<u8>, from: int)
    requires
        0 <= from <= data.len(),
    ensures
        from <= next_newline(data, from) <= data.len(),
        next_newline(data, from) < data.len() ==> data[next_newline(data, from)] == 10,
    decreases data.len() - from,
{
    if from < data.len() && data[from] != 10 {
        lemma_next_newline(data, from + 1);
    }
}

proof fn lemma_char_start(data: Seq<u8>, from: int)
    requires
        0 <= from <= data.len(),
    ensures
        from <= char_start(data, from) <= data.len(),
        char_start(data, from) < data.len() ==> !is_continuation_byte(
            data[char_start(data, from)],
        ),
    decreases data.len() - from,
{
    if from < data.len() && is_continuation_byte(data[from]) {
        lemma_char_start(data, from + 1);
    }
}

/// A rotated log ends with the end of the log: at most the last `keep`
/// bytes of it, from the start of a character on.
pub proof fn law_rotation_keeps_tail(data: Seq<u8>, keep: nat)
    ensures
        0 <= kept_from(data, keep as int) <= data.len(),
        data.len() - kept_from(data, keep as int) <= keep,
        kept_from(data, keep as int) < data.len() ==> !is_continuation_byte(
            data[kept_from(data, keep as int)],
        ),
{
    let cut: int = if keep < data.len() {
        data.len() - keep
    } else {
        0
    };
    lemma_next_newline(data, cut);
    let nl = next_newline(data, cut);
    lemma_char_start(
        data,
        if nl < data.len() {
            nl + 1
        } else {
            cut
        },
    );
}

/// Computes the contents of a log after rotation; none while it is small
/// enough.
pub fn rotated_log(data: &Vec<u8>, max_bytes: u64, keep_bytes: u64) -> (r: Option<Vec<u8>>)
    ensures
        match r {
            Some(out) => rotated(data@, max_bytes as nat, keep_bytes as nat) == Some(out@),
            None => rotated(data@, max_bytes as nat, keep_bytes as nat) is None,
        },
{
    let len: usize = data.len();
    if len as u64 <= max_bytes {
        return None;
    }
    let cut: usize = if keep_bytes < len as u64 {
        len - keep_bytes as usize
    } else {
        0
    };
    let mut nl: usize = cut;
    while nl < len && data[nl] != 10
        invariant
            cut <= nl <= len,
            len == data@.len(),
            next_newline(data@, cut as int) == next_newline(data@, nl as int),
        decreases len - nl,
    {
        nl = nl + 1;
    }
    let from: usize = if nl < len {
        nl + 1
    } else {
        cut
    };
    let mut start: usize = from;
    while start < len && 0x80 <= data[start] && data[start] < 0xc0
        invariant
            start <= len,
            len == data@.len(),
            char_start(data@, from as int) == char_start(data@, start as int),
        decreases len - start,
    {
        start = start + 1;
    }
    assert(start == kept_from(data@, keep_bytes as int));
    let head: String = concat3(
        "[proton] log rotated: exceeded ",
        decimal_text(max_bytes).as_str(),
        " bytes, kept last ",
    );
    let marker: String = concat3(
        head.as_str(),
        decimal_text((len - start) as u64).as_str(),
        " bytes\n",
    );
    assert(marker@ =~= rotation_marker(max_bytes as nat, (data@.len() - start) as nat));
    let mut out: Vec<u8> = text::utf8_bytes(marker.as_str());
    let ghost head_bytes = out@;
    let mut i: usize = start;
    while i < len
        invariant
            start <= i <= len,
            len == data@.len(),
            out@ =~= head_bytes + data@.subrange(start as int, i as int),
        decreases len - i,
    {
        out.push(data[i]);
        i = i + 1;
    }
    assert(data@.subrange(start as int, len as int) =~= data@.skip(start as int));
    Some(out)
}

/// A name marks a secret where it holds one of these words, in any case, and
/// in no other case.
pub proof fn law_secret_names(key: Seq<char>)
    ensures
        sensitive(key) <==> {
            let k = text::lowercase(key);
            ||| text::contains_text(k, "privatekey"@)
            ||| text::contains_text(k, "passphrase"@)
            ||| text::contains_text(k, "accesstoken"@)
            ||| text::contains_text(k, "refreshtoken"@)
            ||| text::contains_text(k, "twofactorcode"@)
            ||| text::contains_text(k, "password"@)
            ||| text::contains_text(k, "secret"@)
            ||| text::contains_text(k, "signature"@)
            ||| text::contains_text(k, "token"@)
        },
{
    let l = SENSITIVE_SUBSTRINGS@;
    assert(l[0]@ == "privatekey"@ && l[1]@ == "passphrase"@ && l[2]@ == "accesstoken"@);
    assert(l[3]@ == "refreshtoken"@ && l[4]@ == "twofactorcode"@ && l[5]@ == "password"@);
    assert(l[6]@ == "secret"@ && l[7]@ == "signature"@ && l[8]@ == "token"@);
}

/// What is no secret stays: names and their order, the places of a list,
/// numbers, truth values, and texts that are not too long.
pub proof fn law_scrub_keeps_the_rest(j: JsonModel)
    ensures
        j is Null || j is Bool || j is Number ==> scrubbed(j) == j,
        j matches JsonModel::Text(s) ==> s.len() <= 500 ==> scrubbed(j) == j,
        j matches JsonModel::Array(a) ==> (scrubbed(j) matches JsonModel::Array(b) && b.len()
            == a.len() && forall|i: int|
            0 <= i < a.len() ==> #[trigger] b[i] == scrubbed(a[i])),
        j matches JsonModel::Object(o) ==> (scrubbed(j) matches JsonModel::Object(p) && p.len()
            == o.len() && forall|i: int|
            0 <= i < o.len() ==> (#[trigger] p[i]).0 == o[i].0 && (!sensitive(o[i].0) ==> p[i].1
                == scrubbed(o[i].1))),
{
}

/// A text that is too long keeps its start, and says how much is gone.
pub proof fn law_long_texts_are_cut(s: Seq<char>)
    ensures
        s.len() > 500 ==> (scrubbed(JsonModel::Text(s)) matches JsonModel::Text(t) && t == s.take(
            500,
        ) + "…[+"@ + numbers::decimal((s.len() - 500) as nat) + " chars]"@),
        s.len() <= 8000 ==> capped(s) == s,
        s.len() > 8000 ==> capped(s) == s.take(8000) + "…[truncated, "@ + numbers::decimal(
            s.len() as nat,
        ) + " chars total]"@,
{
}

/// A log is cut behind the first line end in the bytes to be kept, so that
/// what is left starts with a whole line.
pub proof fn law_rotation_starts_with_a_line(data: Seq<u8>, max_bytes: nat, keep: nat, p: int)
    requires
        max_bytes < data.len(),
        keep < data.len(),
        data.len() - keep <= p < data.len(),
        data[p] == 10,
        forall|i: int| data.len() - keep <= i < p ==> data[i] != 10,
        p + 1 < data.len() ==> !is_continuation_byte(data[p + 1]),
    ensures
        rotated(data, max_bytes, keep) == Some(
            vstd::utf8::encode_utf8(rotation_marker(max_bytes, (data.len() - p - 1) as nat))
                + data.skip(p + 1),
        ),
{
    lemma_newline_at(data, data.len() - keep, p);
}

proof fn lemma_newline_at(data: Seq<u8>, from: int, p: int)
    requires
        0 <= from <= p < data.len(),
        data[p] == 10,
        forall|i: int| from <= i < p ==> data[i] != 10,
    ensures
        next_newline(data, from) == p,
    decreases p - from,
{
    if from < p {
        lemma_newline_at(data, from + 1, p);
    }
}

/// A log that is small enough stays as it is.
pub proof fn law_small_log_stays(data: Seq<u8>, max_bytes: nat, keep: nat)
    requires
        data.len() <= max_bytes,
    ensures
        rotated(data, max_bytes, keep) is None,
{
}

} // verus!
