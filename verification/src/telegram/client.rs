//! What the bot's API calls are made of. The bot token lives in the request path, so every
//! error is scrubbed of the token-bearing address before it propagates.

use vstd::prelude::*;

use crate::error::AppError;
use crate::strings::{
    has_prefix, has_substring, opt_view, owned, replace_all, replaced,
};

verus! {

/// Where the API lives, up to the token.
pub const API_BASE: &'static str = "https://api.telegram.org/bot";

/// Stand-in for the real, token-bearing base in error messages.
pub const REDACTED_BASE: &'static str = "https://api.telegram.org/bot<redacted>";

/// The bot that answered.
#[derive(Debug)]
pub struct BotIdentity {
    pub username: Option<String>,
}

/// What `url::Url::parse` makes of a text: the address it serialises to, or nothing where
/// it is none.
pub uninterp spec fn parsed_url(s: Seq<char>) -> Option<Seq<char>>;

/// `url::Url::parse`, then the address as it is serialised. Its result is named, not
/// described.
#[verifier::external_body]
fn parse_url(s: &str) -> (r: Option<String>)
    ensures
        opt_view(r) == parsed_url(s@),
{
    match url::Url::parse(s) {
        Ok(u) => Some(u.to_string()),
        Err(_) => None,
    }
}

/// The address of a call, where the parse gave one.
pub fn endpoint_from(parsed: Option<String>) -> (r: Result<String, AppError>)
    ensures
        match parsed {
            Some(u) => r == Ok::<String, AppError>(u),
            None => r matches Err(AppError::Other(m)) && m@
                == "telegram bot_token is not URL-safe"@,
        },
{
    match parsed {
        Some(u) => Ok(u),
        None => Err(AppError::other("telegram bot_token is not URL-safe")),
    }
}

/// The API's answer to a call.
#[derive(Debug)]
pub struct ApiResponse<T> {
    pub ok: bool,
    pub result: Option<T>,
    pub description: Option<String>,
}

/// The result inside an answer.
pub fn unwrap_envelope<T>(resp: ApiResponse<T>, method: &str) -> (r: Result<T, AppError>)
    ensures
        match r {
            Ok(v) => resp.ok && resp.result == Some(v),
            Err(AppError::Other(m)) => if !resp.ok {
                m@ == "telegram "@ + method@ + " failed: "@ + (match opt_view(resp.description) {
                    Some(d) => d,
                    None => Seq::empty(),
                })
            } else {
                resp.result is None && m@ == "telegram "@ + method@ + " returned no result"@
            },
            Err(_) => false,
        },
{
    if !resp.ok {
        let mut m = owned("telegram ");
        m.append(method);
        m.append(" failed: ");
        let ghost said = m@;
        match resp.description {
            Some(d) => {
                m.append(d.as_str());
            },
            None => {
                assert(m@ =~= said + Seq::<char>::empty());
            },
        }
        return Err(AppError::Other(m));
    }
    match resp.result {
        Some(v) => Ok(v),
        None => {
            let mut m = owned("telegram ");
            m.append(method);
            m.append(" returned no result");
            Err(AppError::Other(m))
        },
    }
}

/// The part of the bot's client that knows the token.
pub struct TelegramClient {
    base: String,
}

impl TelegramClient {
    /// The token-bearing base of every address.
    pub closed spec fn base_text(self) -> Seq<char> {
        self.base@
    }

    /// The base is not empty.
    pub open spec fn wf(self) -> bool {
        self.base_text().len() > 0
    }

    pub fn new(bot_token: &str) -> (r: Self)
        ensures
            r.base_text() == API_BASE@ + bot_token@,
            r.base_text() == "https://api.telegram.org/bot"@ + bot_token@,
            r.wf(),
    {
        let mut base = owned(API_BASE);
        base.append(bot_token);
        proof {
            reveal_strlit("https://api.telegram.org/bot");
        }
        TelegramClient { base }
    }

    /// The address of a call.
    pub fn endpoint(&self, method: &str) -> (r: Result<String, AppError>)
        ensures
            match parsed_url(self.base_text() + "/"@ + method@) {
                Some(u) => r matches Ok(s) && s@ == u,
                None => r matches Err(AppError::Other(m)) && m@
                    == "telegram bot_token is not URL-safe"@,
            },
    {
        let mut s = self.base.clone();
        s.append("/");
        s.append(method);
        endpoint_from(parse_url(s.as_str()))
    }

    /// Replaces the token-bearing base in a diagnostic, so that a transport error (which
    /// embeds the request's address) cannot write the token to logs.
    pub fn scrub(&self, message: &str) -> (r: AppError)
        requires
            self.wf(),
        ensures
            r matches AppError::Other(m) && m@ == replaced(
                message@,
                self.base_text(),
                REDACTED_BASE@,
            ),
            r matches AppError::Other(m) && m@ == replaced(
                message@,
                self.base_text(),
                "https://api.telegram.org/bot<redacted>"@,
            ),
    {
        AppError::Other(replace_all(message, self.base.as_str(), REDACTED_BASE))
    }
}

/// The text holds no angle brackets.
pub open spec fn no_brackets(s: Seq<char>) -> bool {
    forall|i: int| 0 <= i < s.len() ==> (#[trigger] s[i]) != '<' && s[i] != '>'
}

proof fn lemma_bases()
    ensures
        API_BASE@.len() == 28,
        REDACTED_BASE@.len() == 38,
        REDACTED_BASE@.take(28) == API_BASE@,
        REDACTED_BASE@[28] == '<',
        REDACTED_BASE@[37] == '>',
        no_brackets(API_BASE@),
{
    reveal_strlit("https://api.telegram.org/bot");
    reveal_strlit("https://api.telegram.org/bot<redacted>");
    assert(REDACTED_BASE@.take(28) =~= API_BASE@);
}

proof fn lemma_prefix_survives(s: Seq<char>, base: Seq<char>, w: Seq<char>)
    requires
        base.len() > 28,
        base.take(28) == API_BASE@,
        no_brackets(w),
        has_prefix(replaced(s, base, REDACTED_BASE@), w),
    ensures
        has_prefix(s, w),
    decreases s.len(),
{
    lemma_bases();
    let out = replaced(s, base, REDACTED_BASE@);
    if s.len() > 0 {
        if has_prefix(s, base) {
            let rest = replaced(s.skip(base.len() as int), base, REDACTED_BASE@);
            assert(out == REDACTED_BASE@ + rest);
            if w.len() > 28 {
                assert(out.take(w.len() as int)[28] == '<');
                assert(w[28] == '<');
            }
            assert(s.take(w.len() as int) =~= w) by {
                assert forall|i: int| 0 <= i < w.len() implies s[i] == w[i] by {
                    assert(out.take(w.len() as int)[i] == w[i]);
                    assert(out[i] == REDACTED_BASE@[i]);
                    assert(REDACTED_BASE@.take(28)[i] == API_BASE@[i]);
                    assert(s.take(base.len() as int)[i] == base[i]);
                    assert(base.take(28)[i] == API_BASE@[i]);
                }
            }
        } else if w.len() > 0 {
            let rest = replaced(s.skip(1), base, REDACTED_BASE@);
            assert(out == seq![s[0]] + rest);
            let w1 = w.skip(1);
            assert(out.take(w.len() as int)[0] == s[0]);
            assert(rest.take(w1.len() as int) =~= w1) by {
                assert forall|i: int| 0 <= i < w1.len() implies rest[i] == w1[i] by {
                    assert(out.take(w.len() as int)[i + 1] == w[i + 1]);
                }
            }
            assert forall|i: int| 0 <= i < w1.len() implies (#[trigger] w1[i]) != '<' && w1[i]
                != '>' by {
                assert(w[i + 1] != '<');
            }
            lemma_prefix_survives(s.skip(1), base, w1);
            assert(s.take(w.len() as int) =~= w) by {
                assert forall|i: int| 0 <= i < w.len() implies s[i] == w[i] by {
                    if i > 0 {
                        assert(s.skip(1).take(w1.len() as int)[i - 1] == w1[i - 1]);
                    }
                }
            }
        } else {
            assert(s.take(0) =~= w);
        }
    }
}

proof fn lemma_scrubbed_at(s: Seq<char>, base: Seq<char>, k: int)
    requires
        base.len() > 28,
        base.take(28) == API_BASE@,
        no_brackets(base),
        0 <= k <= replaced(s, base, REDACTED_BASE@).len(),
    ensures
        !has_prefix(replaced(s, base, REDACTED_BASE@).skip(k), base),
    decreases s.len(),
{
    lemma_bases();
    let out = replaced(s, base, REDACTED_BASE@);
    let n = base.len() as int;
    if has_prefix(out.skip(k), base) {
        if s.len() == 0 {
            assert(out.len() == 0);
        } else if has_prefix(s, base) {
            let rest = replaced(s.skip(n), base, REDACTED_BASE@);
            assert(out == REDACTED_BASE@ + rest);
            if k <= 28 {
                assert(out.skip(k).take(n)[28 - k] == '<');
                assert(base[28 - k] == '<');
            } else if k < 38 {
                assert(out.skip(k).take(n)[37 - k] == '>');
                assert(base[37 - k] == '>');
            } else {
                assert(out.skip(k) =~= rest.skip(k - 38));
                lemma_scrubbed_at(s.skip(n), base, k - 38);
            }
        } else {
            let rest = replaced(s.skip(1), base, REDACTED_BASE@);
            assert(out == seq![s[0]] + rest);
            if k == 0 {
                assert(out.skip(0) =~= out);
                lemma_prefix_survives(s, base, base);
            } else {
                assert(out.skip(k) =~= rest.skip(k - 1));
                lemma_scrubbed_at(s.skip(1), base, k - 1);
            }
        }
    }
}

/// A scrubbed diagnostic does not hold the token-bearing base, wherever it stood. The token
/// is one without angle brackets, as every token that stands in an address is.
pub proof fn law_scrubbed_text_holds_no_token(message: Seq<char>, token: Seq<char>)
    requires
        token.len() > 0,
        no_brackets(token),
    ensures
        !has_substring(
            replaced(message, API_BASE@ + token, REDACTED_BASE@),
            API_BASE@ + token,
        ),
{
    lemma_bases();
    let base = API_BASE@ + token;
    assert(base.take(28) =~= API_BASE@);
    assert forall|i: int| 0 <= i < base.len() implies (#[trigger] base[i]) != '<' && base[i]
        != '>' by {
        if i >= 28 {
            assert(base[i] == token[i - 28]);
        } else {
            assert(base[i] == API_BASE@[i]);
        }
    }
    let out = replaced(message, base, REDACTED_BASE@);
    assert forall|k: int| 0 <= k <= out.len() implies !has_prefix(#[trigger] out.skip(k), base) by {
        lemma_scrubbed_at(message, base, k);
    }
}

} // verus!
