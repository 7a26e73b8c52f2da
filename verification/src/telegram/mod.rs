//! The operator-owned Telegram bot: one bot links chats for every org via a deep link.

use vstd::prelude::*;

use vstd::utf8::encode_utf8_decode_utf8;

use crate::crypto::ct_eq;
use crate::strings::{
    ascii_lower, chars_of, is_white, lemma_trimmed_ends, opt_str_view, owned, str_eq, string_of,
    to_ascii_lowercase, trim, trim_end, trim_start, trimmed,
};

pub mod client;
pub mod update;

verus! {

/// Path the bot delivers updates to, appended to the public base address.
pub const WEBHOOK_PATH: &'static str = "/hooks/telegram";

/// Updates we ask Telegram to deliver: link messages and add/remove events.
pub open spec fn wanted_updates() -> Seq<Seq<char>> {
    seq!["message"@, "my_chat_member"@]
}

/// Updates we ask Telegram to deliver.
pub fn allowed_updates() -> (r: Vec<&'static str>)
    ensures
        r@.map_values(|s: &'static str| s@) == wanted_updates(),
        r@.len() == 2,
        r@[0]@ == "message"@,
        r@[1]@ == "my_chat_member"@,
{
    let mut v: Vec<&'static str> = Vec::new();
    v.push("message");
    v.push("my_chat_member");
    assert(v@.map_values(|s: &'static str| s@) =~= wanted_updates());
    v
}

/// Constant-time match of the secret header against the configured secret. The only thing
/// authenticating the receiver.
pub fn webhook_secret_matches(provided: &str, expected: &str) -> (r: bool)
    ensures
        r == (provided@ == expected@),
{
    let r = ct_eq(provided.as_bytes(), expected.as_bytes());
    proof {
        encode_utf8_decode_utf8(provided@);
        encode_utf8_decode_utf8(expected@);
    }
    r
}

/// A text without the `@`s it begins with.
pub open spec fn without_ats(s: Seq<char>) -> Seq<char>
    decreases s.len(),
{
    if s.len() > 0 && s[0] == '@' {
        without_ats(s.skip(1))
    } else {
        s
    }
}

/// A text in ASCII lower case.
pub open spec fn lowered(s: Seq<char>) -> Seq<char> {
    s.map_values(|c: char| ascii_lower(c))
}

/// A bot's name as it is compared: without surrounding blanks and leading `@`s, in lower
/// case.
pub open spec fn username_key(name: Seq<char>) -> Seq<char> {
    lowered(without_ats(trimmed(name)))
}

/// A bot's name as it is compared.
pub fn normalize_username(name: &str) -> (r: String)
    ensures
        r@ == username_key(name@),
{
    let t = trim(name);
    let v = chars_of(t.as_str());
    let mut i: usize = 0;
    assert(v@.skip(0) =~= v@);
    while i < v.len() && v[i] == '@'
        invariant
            i <= v@.len(),
            without_ats(v@.skip(i as int)) == without_ats(v@),
        decreases v.len() - i,
    {
        assert(v@.skip(i as int).skip(1) =~= v@.skip(i + 1));
        i += 1;
    }
    let rest = string_of(&v, i, v.len());
    assert(rest@ =~= v@.skip(i as int));
    to_ascii_lowercase(rest.as_str())
}

/// Whether the bot that answered is the configured one. One that reports no name counts
/// as nameless.
pub fn is_configured_bot(reported: Option<&str>, configured: &str) -> (r: bool)
    ensures
        r == (username_key(
            match opt_str_view(reported) {
                Some(n) => n,
                None => ""@,
            },
        ) == username_key(configured@)),
{
    let name = match reported {
        Some(n) => n,
        None => "",
    };
    let a = normalize_username(name);
    let b = normalize_username(configured);
    str_eq(a.as_str(), b.as_str())
}

/// A text without the slashes it ends with.
pub open spec fn without_slashes(s: Seq<char>) -> Seq<char>
    decreases s.len(),
{
    if s.len() > 0 && s.last() == '/' {
        without_slashes(s.drop_last())
    } else {
        s
    }
}

/// The address that updates are delivered to.
pub fn webhook_url(public_base_url: &str) -> (r: String)
    ensures
        r@ == without_slashes(public_base_url@) + WEBHOOK_PATH@,
        r@ == without_slashes(public_base_url@) + "/hooks/telegram"@,
{
    let v = chars_of(public_base_url);
    let mut n: usize = v.len();
    assert(v@.take(n as int) =~= v@);
    while n > 0 && v[n - 1] == '/'
        invariant
            n <= v@.len(),
            without_slashes(v@.take(n as int)) == without_slashes(v@),
        decreases n,
    {
        assert(v@.take(n as int).drop_last() =~= v@.take(n - 1));
        n -= 1;
    }
    let mut s = string_of(&v, 0, n);
    assert(s@ =~= v@.take(n as int));
    s.append(WEBHOOK_PATH);
    s
}

/// Blanks around a name, `@`s in front of it and the case of its ASCII letters make no
/// difference to its key, and a key has no capitals of that kind.
pub proof fn law_username_key_ignores_blanks_ats_and_case(name: Seq<char>)
    ensures
        username_key(trimmed(name)) == username_key(name),
        username_key(seq!['@'] + trimmed(name)) == username_key(name),
        username_key(lowered(name)) == username_key(name),
        lowered(username_key(name)) == username_key(name),
{
    let t = trimmed(name);
    lemma_trimmed_ends(name);
    let at = seq!['@'] + t;
    assert(at[0] == '@');
    assert(trim_start(at) == at);
    assert(at.last() == (if t.len() > 0 {
        t.last()
    } else {
        '@'
    }));
    assert(trim_end(at) == at);
    assert(at.skip(1) =~= t);
    lemma_trimmed_lowered(name);
    lemma_ats_lowered(t);
    lemma_lowered_twice(without_ats(t));
}

proof fn lemma_lowered_twice(s: Seq<char>)
    ensures
        lowered(lowered(s)) == lowered(s),
{
    assert forall|i: int| 0 <= i < s.len() implies ascii_lower(ascii_lower(s[i])) == ascii_lower(
        s[i],
    ) by {
        lemma_lower_twice(s[i]);
    }
    assert(lowered(lowered(s)) =~= lowered(s));
}

proof fn lemma_trimmed_lowered(s: Seq<char>)
    ensures
        trimmed(lowered(s)) == lowered(trimmed(s)),
{
    lemma_trim_start_lowered(s);
    lemma_trim_end_lowered(trim_start(s));
}

proof fn lemma_trim_start_lowered(s: Seq<char>)
    ensures
        trim_start(lowered(s)) == lowered(trim_start(s)),
    decreases s.len(),
{
    if s.len() > 0 && is_white(s[0]) {
        assert(lowered(s).drop_first() =~= lowered(s.drop_first()));
        lemma_trim_start_lowered(s.drop_first());
    }
}

proof fn lemma_trim_end_lowered(s: Seq<char>)
    ensures
        trim_end(lowered(s)) == lowered(trim_end(s)),
    decreases s.len(),
{
    if s.len() > 0 && is_white(s.last()) {
        assert(lowered(s).drop_last() =~= lowered(s.drop_last()));
        lemma_trim_end_lowered(s.drop_last());
    }
}

proof fn lemma_ats_lowered(s: Seq<char>)
    ensures
        without_ats(lowered(s)) == lowered(without_ats(s)),
    decreases s.len(),
{
    if s.len() > 0 && s[0] == '@' {
        assert(lowered(s).skip(1) =~= lowered(s.skip(1)));
        lemma_ats_lowered(s.skip(1));
    }
}

proof fn lemma_lower_twice(c: char)
    ensures
        ascii_lower(ascii_lower(c)) == ascii_lower(c),
{
}

/// Slashes at the end of an address make no difference, and nothing else of it is lost.
pub proof fn law_slashes_at_the_end_are_dropped(s: Seq<char>, slashes: Seq<char>)
    requires
        s.len() > 0 ==> s[s.len() - 1] != '/',
        forall|i: int| 0 <= i < slashes.len() ==> #[trigger] slashes[i] == '/',
    ensures
        without_slashes(s + slashes) == s,
    decreases slashes.len(),
{
    if slashes.len() == 0 {
        assert(s + slashes =~= s);
    } else {
        let front = slashes.drop_last();
        assert forall|i: int| 0 <= i < front.len() implies #[trigger] front[i] == '/' by {
            assert(front[i] == slashes[i]);
        }
        law_slashes_at_the_end_are_dropped(s, front);
        assert((s + slashes).drop_last() =~= s + front);
        assert((s + slashes).last() == slashes[slashes.len() - 1]);
    }
}

/// A bot's name is compared by its letters in lower case: a name without blanks around it and
/// without an `@` in front is its own key but for that, and any `@`s in front are passed over.
pub proof fn law_a_name_is_its_own_key(name: Seq<char>, ats: Seq<char>)
    requires
        name.len() > 0 ==> !is_white(name[0]) && !is_white(name[name.len() - 1]) && name[0] != '@',
        forall|i: int| 0 <= i < ats.len() ==> #[trigger] ats[i] == '@',
    ensures
        username_key(ats + name) == name.map_values(|c: char| ascii_lower(c)),
{
    let e = Seq::<char>::empty();
    let s = ats + name;
    if s.len() > 0 {
        assert(s[0] == (if ats.len() > 0 {
            ats[0]
        } else {
            name[0]
        }));
        assert(s[s.len() - 1] == (if name.len() > 0 {
            name[name.len() - 1]
        } else {
            ats[ats.len() - 1]
        }));
    }
    crate::strings::law_trimming_takes_the_white_ends(e, s, e);
    assert(e + s + e =~= s);
    lemma_ats_are_passed_over(name, ats);
}

proof fn lemma_ats_are_passed_over(name: Seq<char>, ats: Seq<char>)
    requires
        name.len() > 0 ==> name[0] != '@',
        forall|i: int| 0 <= i < ats.len() ==> #[trigger] ats[i] == '@',
    ensures
        without_ats(ats + name) == name,
    decreases ats.len(),
{
    let s = ats + name;
    if ats.len() == 0 {
        assert(s =~= name);
    } else {
        assert(s[0] == ats[0]);
        let rest = ats.skip(1);
        assert forall|i: int| 0 <= i < rest.len() implies #[trigger] rest[i] == '@' by {
            assert(rest[i] == ats[i + 1]);
        }
        assert(s.skip(1) =~= rest + name);
        lemma_ats_are_passed_over(name, rest);
    }
}

} // verus!
