//! Passwords derived for the keys of an account.
use vstd::prelude::*;

use crate::crypto;
use crate::crypto::{derive_mailbox_password, salt_is_usable, UnlockedKey};
use crate::encoding;
use crate::encoding::encode_base64;
use crate::error::ProtonError;
use crate::models::{Address, AddressKey, KeySalt, UserKey};
use crate::openpgp;
use crate::openpgp::bytes_eq;
use crate::ordered;
use crate::ordered::TextMap;
use crate::text;
use crate::text::{
    chars_of, concat3, copy_text, is_empty, push_text, string_of, text_eq, utf8_bytes,
};

verus! {

/// The password of a key: the login password where the salt is empty, the
/// mailbox password else; none without a salt, or with one that is no base64.
pub open spec fn derived_for(password: Seq<char>, salt: Option<Seq<char>>) -> Option<Seq<u8>> {
    let bytes = vstd::utf8::encode_utf8(password);
    match salt {
        None => None,
        Some(s) => if s.len() == 0 {
            Some(bytes)
        } else {
            match encoding::base64_bytes(s) {
                Some(b) => Some(crypto::mailbox_password(bytes, b)),
                None => None,
            }
        },
    }
}

/// Whether a salt is absent, empty, or one that a password can be derived
/// with.
pub open spec fn salt_works(salt: Option<Seq<char>>) -> bool {
    salt matches Some(s) ==> s.len() == 0 || crypto::salt_fits(s)
}

/// Derives the password of a key.
pub fn derive_for_salt(password: &str, salt: &KeySalt) -> (r: Option<Vec<u8>>)
    requires
        salt_works(text::option_text(salt.KeySalt)),
    ensures
        openpgp::option_bytes(r) == derived_for(password@, text::option_text(salt.KeySalt)),
{
    match &salt.KeySalt {
        None => None,
        Some(s) => {
            if is_empty(s.as_str()) {
                return Some(utf8_bytes(password));
            }
            match derive_mailbox_password(password.as_bytes(), s.as_str()) {
                Ok(p) => Some(p),
                Err(_) => None,
            }
        },
    }
}

/// Of each salt the key and the salt.
pub open spec fn salts_view(s: Seq<KeySalt>) -> Seq<(Seq<char>, Option<Seq<char>>)> {
    Seq::new(s.len(), |i: int| (s[i].ID@, text::option_text(s[i].KeySalt)))
}

/// The first salt of a key.
pub open spec fn salt_of(salts: Seq<(Seq<char>, Option<Seq<char>>)>, id: Seq<char>) -> Option<
    Option<Seq<char>>,
>
    decreases salts.len(),
{
    if salts.len() == 0 {
        None
    } else if salts[0].0 == id {
        Some(salts[0].1)
    } else {
        salt_of(salts.skip(1), id)
    }
}

/// Of each key the id and the armored private key.
pub open spec fn user_keys_view(s: Seq<UserKey>) -> Seq<(Seq<char>, Seq<char>)> {
    Seq::new(s.len(), |i: int| (s[i].ID@, s[i].PrivateKey@))
}

pub open spec fn address_keys_view(s: Seq<AddressKey>) -> Seq<(Seq<char>, Seq<char>)> {
    Seq::new(s.len(), |i: int| (s[i].ID@, s[i].PrivateKey@))
}

/// The keys of all addresses in their order.
pub open spec fn all_address_keys(s: Seq<Address>) -> Seq<(Seq<char>, Seq<char>)>
    decreases s.len(),
{
    if s.len() == 0 {
        seq![]
    } else {
        all_address_keys(s.drop_last()) + address_keys_view(s.last().Keys@)
    }
}

/// The password that a key is stored with: derived, not the login password
/// itself, and known to unlock the key.
pub open spec fn stored_password(
    key: (Seq<char>, Seq<char>),
    salts: Seq<(Seq<char>, Option<Seq<char>>)>,
    password: Seq<char>,
) -> Option<Seq<char>> {
    if key.1.len() == 0 {
        None
    } else {
        match salt_of(salts, key.0) {
            None => None,
            Some(salt) => match derived_for(password, salt) {
                None => None,
                Some(p) => if p != vstd::utf8::encode_utf8(password) && crypto::unlocked_key(
                    vstd::utf8::encode_utf8(key.1),
                    p,
                ) is Ok {
                    Some(encoding::base64_text(p))
                } else {
                    None
                },
            },
        }
    }
}

/// The map with the passwords of more keys.
pub open spec fn with_passwords(
    map: Seq<(Seq<char>, Seq<char>)>,
    keys: Seq<(Seq<char>, Seq<char>)>,
    salts: Seq<(Seq<char>, Option<Seq<char>>)>,
    password: Seq<char>,
) -> Seq<(Seq<char>, Seq<char>)>
    decreases keys.len(),
{
    if keys.len() == 0 {
        map
    } else {
        let init = with_passwords(map, keys.drop_last(), salts, password);
        match stored_password(keys.last(), salts, password) {
            Some(p) => ordered::with_entry(init, keys.last().0, p),
            None => init,
        }
    }
}

/// The passwords of all keys, by key: none for an empty login password.
pub open spec fn all_passwords(
    password: Seq<char>,
    user: Seq<(Seq<char>, Seq<char>)>,
    addresses: Seq<(Seq<char>, Seq<char>)>,
    salts: Seq<(Seq<char>, Option<Seq<char>>)>,
) -> Seq<(Seq<char>, Seq<char>)> {
    if password.len() == 0 {
        seq![]
    } else {
        with_passwords(
            with_passwords(seq![], user, salts, password),
            addresses,
            salts,
            password,
        )
    }
}

/// Whether a password can be derived with the salt of a key, where the key
/// has a private half and a salt.
pub open spec fn key_salted(
    key: (Seq<char>, Seq<char>),
    salts: Seq<(Seq<char>, Option<Seq<char>>)>,
) -> bool {
    key.1.len() > 0 ==> (salt_of(salts, key.0) matches Some(s) ==> salt_works(s))
}

/// Whether a password can be derived with the salt of each key.
pub open spec fn keys_salted(
    keys: Seq<(Seq<char>, Seq<char>)>,
    salts: Seq<(Seq<char>, Option<Seq<char>>)>,
) -> bool {
    forall|i: int| 0 <= i < keys.len() ==> key_salted(#[trigger] keys[i], salts)
}

fn salt_usable(id: &str, private_key: &str, salts: &Vec<KeySalt>) -> (r: bool)
    ensures
        r == key_salted((id@, private_key@), salts_view(salts@)),
{
    if is_empty(private_key) {
        return true;
    }
    match find_salt(salts, id) {
        None => true,
        Some(salt) => match &salt.KeySalt {
            None => true,
            Some(s) => is_empty(s.as_str()) || salt_is_usable(s.as_str()),
        },
    }
}

fn address_salts_usable(keys: &Vec<AddressKey>, salts: &Vec<KeySalt>) -> (r: bool)
    ensures
        r == keys_salted(address_keys_view(keys@), salts_view(salts@)),
{
    let ghost all = address_keys_view(keys@);
    let mut i: usize = 0;
    while i < keys.len()
        invariant
            i <= keys@.len(),
            all == address_keys_view(keys@),
            forall|j: int| 0 <= j < i ==> key_salted(#[trigger] all[j], salts_view(salts@)),
        decreases keys@.len() - i,
    {
        assert(all[i as int] == (keys@[i as int].ID@, keys@[i as int].PrivateKey@));
        if !salt_usable(keys[i].ID.as_str(), keys[i].PrivateKey.as_str(), salts) {
            return false;
        }
        i = i + 1;
    }
    true
}

/// Whether a password can be derived with the salts of all keys of an
/// account. Salts that no key uses do not count.
pub fn salts_are_usable(
    user_keys: &Vec<UserKey>,
    addresses: &Vec<Address>,
    salts: &Vec<KeySalt>,
) -> (r: bool)
    ensures
        r == (keys_salted(user_keys_view(user_keys@), salts_view(salts@)) && keys_salted(
            all_address_keys(addresses@),
            salts_view(salts@),
        )),
{
    let ghost all = user_keys_view(user_keys@);
    let ghost sv = salts_view(salts@);
    let mut i: usize = 0;
    while i < user_keys.len()
        invariant
            i <= user_keys@.len(),
            all == user_keys_view(user_keys@),
            sv == salts_view(salts@),
            forall|j: int| 0 <= j < i ==> key_salted(#[trigger] all[j], sv),
        decreases user_keys@.len() - i,
    {
        assert(all[i as int] == (user_keys@[i as int].ID@, user_keys@[i as int].PrivateKey@));
        if !salt_usable(user_keys[i].ID.as_str(), user_keys[i].PrivateKey.as_str(), salts) {
            return false;
        }
        i = i + 1;
    }
    let mut k: usize = 0;
    assert(addresses@.take(0) =~= seq![]);
    while k < addresses.len()
        invariant
            k <= addresses@.len(),
            sv == salts_view(salts@),
            keys_salted(all_address_keys(addresses@.take(k as int)), sv),
        decreases addresses@.len() - k,
    {
        let ghost before = all_address_keys(addresses@.take(k as int));
        let ghost here = address_keys_view(addresses@[k as int].Keys@);
        assert(addresses@.take(k + 1).drop_last() =~= addresses@.take(k as int));
        assert(addresses@.take(k + 1).last() == addresses@[k as int]);
        if !address_salts_usable(&addresses[k].Keys, salts) {
            proof {
                lemma_address_keys_in(addresses@, k as int);
                let bad = choose|j: int|
                    0 <= j < here.len() && !key_salted(#[trigger] here[j], sv);
                assert(all_address_keys(addresses@).contains(here[bad]));
                let at = choose|at: int|
                    0 <= at < all_address_keys(addresses@).len() && all_address_keys(
                        addresses@,
                    )[at] == here[bad];
                assert(!key_salted(all_address_keys(addresses@)[at], sv));
            }
            return false;
        }
        assert forall|j: int| 0 <= j < (before + here).len() implies key_salted(
            #[trigger] (before + here)[j],
            sv,
        ) by {
            if j < before.len() {
                assert(key_salted(before[j], sv));
            } else {
                assert(key_salted(here[j - before.len()], sv));
            }
        }
        k = k + 1;
    }
    assert(addresses@.take(addresses@.len() as int) =~= addresses@);
    true
}

/// The keys of each address are among those of all addresses.
proof fn lemma_address_keys_in(addresses: Seq<Address>, k: int)
    requires
        0 <= k < addresses.len(),
    ensures
        forall|j: int|
            0 <= j < address_keys_view(addresses[k].Keys@).len() ==> all_address_keys(
                addresses,
            ).contains(#[trigger] address_keys_view(addresses[k].Keys@)[j]),
    decreases addresses.len(),
{
    let here = address_keys_view(addresses[k].Keys@);
    let init = all_address_keys(addresses.drop_last());
    let all = all_address_keys(addresses);
    assert forall|j: int| 0 <= j < here.len() implies all.contains(
        #[trigger] here[j],
    ) by {
        if k == addresses.len() - 1 {
            assert(all[init.len() + j] == here[j]);
        } else {
            lemma_address_keys_in(addresses.drop_last(), k);
            assert(addresses.drop_last()[k] == addresses[k]);
            assert(init.contains(here[j]));
            let at = choose|at: int| 0 <= at < init.len() && init[at] == here[j];
            assert(all[at] == here[j]);
        }
    }
}

fn find_salt<'a>(salts: &'a Vec<KeySalt>, id: &str) -> (r: Option<&'a KeySalt>)
    ensures
        match r {
            Some(s) => salt_of(salts_view(salts@), id@) == Some(text::option_text(s.KeySalt)),
            None => salt_of(salts_view(salts@), id@) is None,
        },
{
    let mut i: usize = 0;
    let ghost all = salts_view(salts@);
    assert(all.skip(0) =~= all);
    while i < salts.len()
        invariant
            i <= salts@.len(),
            all == salts_view(salts@),
            salt_of(all, id@) == salt_of(all.skip(i as int), id@),
        decreases salts@.len() - i,
    {
        assert(all.skip(i as int)[0] == all[i as int]);
        assert(all.skip(i as int).skip(1) =~= all.skip(i + 1));
        if text_eq(salts[i].ID.as_str(), id) {
            return Some(&salts[i]);
        }
        i = i + 1;
    }
    None
}

/// The password that a key is stored with.
fn password_for(id: &str, private_key: &str, salts: &Vec<KeySalt>, password: &str) -> (r: Option<
    String,
>)
    requires
        key_salted((id@, private_key@), salts_view(salts@)),
    ensures
        text::option_text(r) == stored_password(
            (id@, private_key@),
            salts_view(salts@),
            password@,
        ),
{
    if is_empty(private_key) {
        return None;
    }
    let salt: &KeySalt = match find_salt(salts, id) {
        Some(s) => s,
        None => return None,
    };
    let derived: Vec<u8> = match derive_for_salt(password, salt) {
        Some(p) => p,
        None => return None,
    };
    let login: Vec<u8> = utf8_bytes(password);
    if bytes_eq(&derived, &login) {
        return None;
    }
    match UnlockedKey::from_armored(private_key, derived.as_slice()) {
        Ok(_) => Some(encode_base64(&derived)),
        Err(_) => None,
    }
}

fn add_user_keys(out: &mut TextMap, keys: &Vec<UserKey>, salts: &Vec<KeySalt>, password: &str)
    requires
        keys_salted(user_keys_view(keys@), salts_view(salts@)),
    ensures
        final(out)@ == with_passwords(
            old(out)@,
            user_keys_view(keys@),
            salts_view(salts@),
            password@,
        ),
{
    let ghost all = user_keys_view(keys@);
    let ghost start = out@;
    let ghost sv = salts_view(salts@);
    let mut i: usize = 0;
    assert(all.take(0) =~= seq![]);
    while i < keys.len()
        invariant
            i <= keys@.len(),
            all == user_keys_view(keys@),
            sv == salts_view(salts@),
            keys_salted(all, sv),
            out@ == with_passwords(start, all.take(i as int), sv, password@),
        decreases keys@.len() - i,
    {
        assert(all.take(i + 1).drop_last() =~= all.take(i as int));
        assert(all.take(i + 1).last() == (keys@[i as int].ID@, keys@[i as int].PrivateKey@));
        assert(key_salted(all[i as int], sv));
        if let Some(p) = password_for(
            keys[i].ID.as_str(),
            keys[i].PrivateKey.as_str(),
            salts,
            password,
        ) {
            out.insert(copy_text(keys[i].ID.as_str()), p);
        }
        i = i + 1;
    }
    assert(all.take(all.len() as int) =~= all);
}

fn add_address_keys(out: &mut TextMap, keys: &Vec<AddressKey>, salts: &Vec<KeySalt>, password: &str)
    requires
        keys_salted(address_keys_view(keys@), salts_view(salts@)),
    ensures
        final(out)@ == with_passwords(
            old(out)@,
            address_keys_view(keys@),
            salts_view(salts@),
            password@,
        ),
{
    let ghost all = address_keys_view(keys@);
    let ghost start = out@;
    let ghost sv = salts_view(salts@);
    let mut i: usize = 0;
    assert(all.take(0) =~= seq![]);
    while i < keys.len()
        invariant
            i <= keys@.len(),
            all == address_keys_view(keys@),
            sv == salts_view(salts@),
            keys_salted(all, sv),
            out@ == with_passwords(start, all.take(i as int), sv, password@),
        decreases keys@.len() - i,
    {
        assert(all.take(i + 1).drop_last() =~= all.take(i as int));
        assert(all.take(i + 1).last() == (keys@[i as int].ID@, keys@[i as int].PrivateKey@));
        assert(key_salted(all[i as int], sv));
        if let Some(p) = password_for(
            keys[i].ID.as_str(),
            keys[i].PrivateKey.as_str(),
            salts,
            password,
        ) {
            out.insert(copy_text(keys[i].ID.as_str()), p);
        }
        i = i + 1;
    }
    assert(all.take(all.len() as int) =~= all);
}

proof fn lemma_with_passwords_joined(
    map: Seq<(Seq<char>, Seq<char>)>,
    a: Seq<(Seq<char>, Seq<char>)>,
    b: Seq<(Seq<char>, Seq<char>)>,
    salts: Seq<(Seq<char>, Option<Seq<char>>)>,
    password: Seq<char>,
)
    ensures
        with_passwords(map, a + b, salts, password) == with_passwords(
            with_passwords(map, a, salts, password),
            b,
            salts,
            password,
        ),
    decreases b.len(),
{
    if b.len() == 0 {
        assert(a + b =~= a);
    } else {
        lemma_with_passwords_joined(map, a, b.drop_last(), salts, password);
        assert((a + b).drop_last() =~= a + b.drop_last());
        assert((a + b).last() == b.last());
    }
}

/// Derives the passwords of all keys of an account, in base64 by key. Only
/// passwords that unlock their key are kept, and never the login password
/// itself.
pub fn derive_passwords(
    password: &str,
    user_keys: &Vec<UserKey>,
    addresses: &Vec<Address>,
    salts: &Vec<KeySalt>,
) -> (r: TextMap)
    requires
        keys_salted(user_keys_view(user_keys@), salts_view(salts@)),
        keys_salted(all_address_keys(addresses@), salts_view(salts@)),
    ensures
        r@ == all_passwords(
            password@,
            user_keys_view(user_keys@),
            all_address_keys(addresses@),
            salts_view(salts@),
        ),
{
    let mut out: TextMap = TextMap::new();
    if is_empty(password) {
        return out;
    }
    add_user_keys(&mut out, user_keys, salts, password);
    let ghost start = out@;
    let ghost sv = salts_view(salts@);
    let mut i: usize = 0;
    assert(addresses@.take(0) =~= seq![]);
    while i < addresses.len()
        invariant
            i <= addresses@.len(),
            sv == salts_view(salts@),
            keys_salted(all_address_keys(addresses@), sv),
            out@ == with_passwords(
                start,
                all_address_keys(addresses@.take(i as int)),
                sv,
                password@,
            ),
        decreases addresses@.len() - i,
    {
        assert(addresses@.take(i + 1).drop_last() =~= addresses@.take(i as int));
        assert(addresses@.take(i + 1).last() == addresses@[i as int]);
        proof {
            let here = address_keys_view(addresses@[i as int].Keys@);
            lemma_address_keys_in(addresses@, i as int);
            assert forall|j: int| 0 <= j < here.len() implies key_salted(#[trigger] here[j], sv) by {
                assert(all_address_keys(addresses@).contains(here[j]));
                let at = choose|at: int|
                    0 <= at < all_address_keys(addresses@).len() && all_address_keys(
                        addresses@,
                    )[at] == here[j];
                assert(key_salted(all_address_keys(addresses@)[at], sv));
            }
            lemma_with_passwords_joined(
                start,
                all_address_keys(addresses@.take(i as int)),
                address_keys_view(addresses@[i as int].Keys@),
                sv,
                password@,
            );
        }
        add_address_keys(&mut out, &addresses[i].Keys, salts, password);
        i = i + 1;
    }
    assert(addresses@.take(addresses@.len() as int) =~= addresses@);
    out
}

/// The error of a refused request for salts: status, the first characters of
/// the token, uid and body.
pub fn salts_failure(status: &str, access_token: &str, uid: &str, body: &str) -> (r: ProtonError)
    ensures
        r matches ProtonError::Auth(m) && m@ == "get_key_salts "@ + status@ + " token_prefix="@ + (
        if access_token@.len() > 6 {
            access_token@.take(6)
        } else {
            access_token@
        }) + " uid="@ + uid@ + " body: "@ + body@,
{
    let v: Vec<char> = chars_of(access_token);
    let end: usize = if v.len() > 6 {
        6
    } else {
        v.len()
    };
    let prefix: String = string_of(&v, 0, end);
    assert(prefix@ =~= (if access_token@.len() > 6 {
        access_token@.take(6)
    } else {
        access_token@
    }));
    let mut m: String = concat3("get_key_salts ", status, " token_prefix=");
    push_text(&mut m, prefix.as_str());
    push_text(&mut m, " uid=");
    push_text(&mut m, uid);
    push_text(&mut m, " body: ");
    push_text(&mut m, body);
    ProtonError::Auth(m)
}

/// Whether an entry is a password that unlocks a key of that name.
pub open spec fn entry_unlocks(
    entry: (Seq<char>, Seq<char>),
    keys: Seq<(Seq<char>, Seq<char>)>,
) -> bool {
    exists|k: int, p: Seq<u8>|
        0 <= k < keys.len() && (#[trigger] keys[k]).0 == entry.0 && entry.1
            == #[trigger] encoding::base64_text(p) && crypto::unlocked_key(
            vstd::utf8::encode_utf8(keys[k].1),
            p,
        ) is Ok
}

proof fn lemma_with_entry_member(
    m: Seq<(Seq<char>, Seq<char>)>,
    k: Seq<char>,
    v: Seq<char>,
    i: int,
)
    requires
        0 <= i < ordered::with_entry(m, k, v).len(),
    ensures
        ordered::with_entry(m, k, v)[i] == (k, v) || exists|j: int|
            0 <= j < m.len() && ordered::with_entry(m, k, v)[i] == #[trigger] m[j],
    decreases m.len(),
{
    let w = ordered::with_entry(m, k, v);
    if m.len() > 0 && m[0].0 != k && !ordered::before(k, m[0].0) {
        let rest = m.skip(1);
        if i > 0 {
            lemma_with_entry_member(rest, k, v, i - 1);
            assert(w[i] == ordered::with_entry(rest, k, v)[i - 1]);
            if w[i] != (k, v) {
                let j = choose|j: int| 0 <= j < rest.len() && w[i] == #[trigger] rest[j];
                assert(w[i] == m[j + 1]);
            }
        } else {
            assert(w[i] == m[0]);
        }
    } else if m.len() > 0 {
        if i > 0 {
            if m[0].0 == k {
                assert(w[i] == m[i]);
            } else {
                assert(w[i] == m[i - 1]);
            }
        }
    }
}

/// Every password that is stored was derived for a key of that name, and
/// unlocks it.
pub proof fn law_stored_passwords_unlock(
    map: Seq<(Seq<char>, Seq<char>)>,
    keys: Seq<(Seq<char>, Seq<char>)>,
    more: Seq<(Seq<char>, Seq<char>)>,
    salts: Seq<(Seq<char>, Option<Seq<char>>)>,
    password: Seq<char>,
    i: int,
)
    requires
        forall|j: int| 0 <= j < map.len() ==> entry_unlocks(#[trigger] map[j], keys),
        0 <= i < with_passwords(map, more, salts, password).len(),
    ensures
        entry_unlocks(with_passwords(map, more, salts, password)[i], keys + more),
    decreases more.len(),
{
    let out = with_passwords(map, more, salts, password);
    if more.len() == 0 {
        assert(keys + more =~= keys);
        assert(out[i] == map[i]);
    } else {
        let fewer = more.drop_last();
        let init = with_passwords(map, fewer, salts, password);
        match stored_password(more.last(), salts, password) {
            Some(p) => {
                lemma_with_entry_member(init, more.last().0, p, i);
                if out[i] == (more.last().0, p) {
                    let salt = salt_of(salts, more.last().0)->0;
                    let b = derived_for(password, salt)->0;
                    let k = keys.len() + more.len() - 1;
                    assert((keys + more)[k] == more.last());
                    assert(p == encoding::base64_text(b));
                } else {
                    let j = choose|j: int| 0 <= j < init.len() && out[i] == #[trigger] init[j];
                    law_stored_passwords_unlock(map, keys, fewer, salts, password, j);
                    lemma_more_keys(out[i], keys + fewer, keys + more);
                }
            },
            None => {
                law_stored_passwords_unlock(map, keys, fewer, salts, password, i);
                lemma_more_keys(out[i], keys + fewer, keys + more);
            },
        }
    }
}

/// The login password is never stored: no entry that is added holds it.
pub proof fn law_login_password_not_stored(
    map: Seq<(Seq<char>, Seq<char>)>,
    more: Seq<(Seq<char>, Seq<char>)>,
    salts: Seq<(Seq<char>, Option<Seq<char>>)>,
    password: Seq<char>,
    i: int,
)
    requires
        forall|j: int|
            0 <= j < map.len() ==> (#[trigger] map[j]).1 != encoding::base64_text(
                vstd::utf8::encode_utf8(password),
            ),
        0 <= i < with_passwords(map, more, salts, password).len(),
    ensures
        with_passwords(map, more, salts, password)[i].1 != encoding::base64_text(
            vstd::utf8::encode_utf8(password),
        ),
    decreases more.len(),
{
    let out = with_passwords(map, more, salts, password);
    if more.len() > 0 {
        let fewer = more.drop_last();
        let init = with_passwords(map, fewer, salts, password);
        match stored_password(more.last(), salts, password) {
            Some(p) => {
                lemma_with_entry_member(init, more.last().0, p, i);
                if out[i] == (more.last().0, p) {
                    let b = derived_for(password, salt_of(salts, more.last().0)->0)->0;
                    if p == encoding::base64_text(vstd::utf8::encode_utf8(password)) {
                        encoding::law_base64_injective(b, vstd::utf8::encode_utf8(password));
                    }
                } else {
                    let j = choose|j: int| 0 <= j < init.len() && out[i] == #[trigger] init[j];
                    law_login_password_not_stored(map, fewer, salts, password, j);
                }
            },
            None => {
                law_login_password_not_stored(map, fewer, salts, password, i);
            },
        }
    } else {
        assert(out[i] == map[i]);
    }
}

proof fn lemma_more_keys(
    entry: (Seq<char>, Seq<char>),
    some: Seq<(Seq<char>, Seq<char>)>,
    all: Seq<(Seq<char>, Seq<char>)>,
)
    requires
        entry_unlocks(entry, some),
        some.len() <= all.len(),
        forall|i: int| 0 <= i < some.len() ==> some[i] == #[trigger] all[i],
    ensures
        entry_unlocks(entry, all),
{
    let (k, p) = choose|k: int, p: Seq<u8>|
        0 <= k < some.len() && (#[trigger] some[k]).0 == entry.0 && entry.1
            == #[trigger] encoding::base64_text(p) && crypto::unlocked_key(
            vstd::utf8::encode_utf8(some[k].1),
            p,
        ) is Ok;
    assert(all[k].0 == entry.0);
}

/// The salt of a key is the first under its identifier.
pub proof fn law_first_salt_counts(
    salts: Seq<(Seq<char>, Option<Seq<char>>)>,
    k: int,
    id: Seq<char>,
)
    ensures
        0 <= k < salts.len() && salts[k].0 == id && (forall|i: int|
            0 <= i < k ==> (#[trigger] salts[i]).0 != id) ==> salt_of(salts, id) == Some(
            salts[k].1,
        ),
        (forall|i: int| 0 <= i < salts.len() ==> (#[trigger] salts[i]).0 != id) ==> salt_of(
            salts,
            id,
        ) is None,
    decreases salts.len(),
{
    if salts.len() > 0 {
        let rest = salts.skip(1);
        law_first_salt_counts(rest, k - 1, id);
        if 0 < k < salts.len() && (forall|i: int| 0 <= i < k ==> (#[trigger] salts[i]).0 != id) {
            assert forall|i: int| 0 <= i < k - 1 implies (#[trigger] rest[i]).0 != id by {
                assert(rest[i] == salts[i + 1]);
            }
            assert(salts[0].0 != id);
            assert(rest[k - 1] == salts[k]);
        }
        if forall|i: int| 0 <= i < salts.len() ==> (#[trigger] salts[i]).0 != id {
            assert forall|i: int| 0 <= i < rest.len() implies (#[trigger] rest[i]).0 != id by {
                assert(rest[i] == salts[i + 1]);
            }
            assert(salts[0].0 != id);
        }
    }
}

/// The password of a key: none without a salt, the login password for an
/// empty salt, and the mailbox password for any other.
pub proof fn law_password_of_a_key(password: Seq<char>, salt: Seq<u8>)
    requires
        salt.len() > 0,
    ensures
        derived_for(password, None) is None,
        derived_for(password, Some(seq![])) == Some(vstd::utf8::encode_utf8(password)),
        derived_for(password, Some(encoding::base64_text(salt))) == Some(
            crypto::mailbox_password(vstd::utf8::encode_utf8(password), salt),
        ),
{
    encoding::law_base64_round_trip(salt);
    assert(encoding::sextets(salt).len() > 0);
}

/// Every key counts: one whose derived password is not the login password and
/// unlocks it is stored under its name, and what is stored of other keys
/// stays. Any other key changes nothing.
pub proof fn law_unlocking_password_is_stored(
    map: Seq<(Seq<char>, Seq<char>)>,
    keys: Seq<(Seq<char>, Seq<char>)>,
    key: (Seq<char>, Seq<char>),
    salts: Seq<(Seq<char>, Option<Seq<char>>)>,
    password: Seq<char>,
    other: Seq<char>,
)
    ensures
        ({
            let was = with_passwords(map, keys, salts, password);
            let is = with_passwords(map, keys.push(key), salts, password);
            let salt = salt_of(salts, key.0);
            let word = derived_for(password, salt->Some_0);
            let stored = key.1.len() > 0 && salt is Some && word is Some && word->Some_0
                != vstd::utf8::encode_utf8(password) && crypto::unlocked_key(
                vstd::utf8::encode_utf8(key.1),
                word->Some_0,
            ) is Ok;
            &&& stored ==> ordered::lookup(is, key.0) == Some(encoding::base64_text(word->Some_0))
            &&& stored && other != key.0 ==> ordered::lookup(is, other) == ordered::lookup(
                was,
                other,
            )
            &&& !stored ==> is == was
        }),
        ({
            let user = with_passwords(seq![], keys, salts, password);
            &&& password.len() > 0 ==> all_passwords(password, keys, seq![], salts) == user
            &&& password.len() > 0 ==> all_passwords(password, keys, seq![key], salts)
                == with_passwords(user, seq![key], salts, password)
            &&& password.len() == 0 ==> all_passwords(password, keys, seq![key], salts).len() == 0
        }),
{
    assert(keys.push(key).drop_last() =~= keys);
    let was = with_passwords(map, keys, salts, password);
    let salt = salt_of(salts, key.0);
    let word = derived_for(password, salt->Some_0);
    ordered::law_lookup_with_entry(was, key.0, encoding::base64_text(word->Some_0), other);
}

/// The keys of every address count, one address after the other.
pub proof fn law_address_keys_keep_their_order(s: Seq<Address>, a: Address, i: int)
    ensures
        all_address_keys(s.push(a)).len() == all_address_keys(s).len() + a.Keys@.len(),
        0 <= i < a.Keys@.len() ==> all_address_keys(s.push(a))[all_address_keys(s).len() + i] == (
            a.Keys@[i].ID@,
            a.Keys@[i].PrivateKey@,
        ),
        0 <= i < all_address_keys(s).len() ==> all_address_keys(s.push(a))[i] == all_address_keys(
            s,
        )[i],
{
    assert(s.push(a).drop_last() =~= s);
}

} // verus!
