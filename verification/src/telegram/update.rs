//! Incoming webhook updates and the classifier that turns one into an intent. Only the
//! fields the receiver acts on are modelled.

use vstd::prelude::*;

use crate::collections::{
    index_where, lemma_index_where, lemma_index_where_is, lemma_index_where_none,
};
use crate::strings::{
    chars_of, is_white, is_whitespace, law_trimming_takes_the_white_ends, lemma_trimmed_ends,
    opt_clone, opt_view, str_eq, string_of, trim, trimmed,
};

verus! {

#[derive(Debug)]
pub struct Update {
    pub message: Option<Message>,
    pub my_chat_member: Option<ChatMemberUpdated>,
}

#[derive(Debug)]
pub struct Message {
    pub text: Option<String>,
    pub chat: Chat,
}

#[derive(Debug)]
pub struct Chat {
    pub id: i64,
    pub title: Option<String>,
    pub first_name: Option<String>,
    pub username: Option<String>,
    pub chat_type: Option<String>,
}

impl Chat {
    /// The chat is a group.
    pub open spec fn grouped(self) -> bool {
        opt_view(self.chat_type) == Some("group"@) || opt_view(self.chat_type) == Some(
            "supergroup"@,
        )
    }

    /// The name of the linked destination.
    pub open spec fn shown_name(self) -> Option<String> {
        if self.title is Some {
            self.title
        } else if self.first_name is Some {
            self.first_name
        } else {
            self.username
        }
    }

    /// Whether the chat is a group.
    pub fn is_group(&self) -> (r: bool)
        ensures
            r == self.grouped(),
            r == (self.chat_type matches Some(t) && (t@ == "group"@ || t@ == "supergroup"@)),
    {
        match &self.chat_type {
            Some(t) => str_eq(t.as_str(), "group") || str_eq(t.as_str(), "supergroup"),
            None => false,
        }
    }

    /// Display name for the linked destination: group title, else the private chat's
    /// person (first name, then username). Private chats carry no title.
    pub fn display_name(&self) -> (r: Option<String>)
        ensures
            r == self.shown_name(),
    {
        if self.title.is_some() {
            opt_clone(&self.title)
        } else if self.first_name.is_some() {
            opt_clone(&self.first_name)
        } else {
            opt_clone(&self.username)
        }
    }
}

#[derive(Debug)]
pub struct ChatMemberUpdated {
    pub chat: Chat,
    pub new_chat_member: ChatMember,
}

#[derive(Debug)]
pub struct ChatMember {
    pub status: String,
}

/// The destination a link code resolves to, carried verbatim from the update.
#[derive(Debug, PartialEq, Eq)]
pub struct ChatRef {
    pub id: i64,
    pub title: Option<String>,
}

impl ChatRef {
    /// The destination of a chat.
    pub fn of(chat: &Chat) -> (r: Self)
        ensures
            r == (ChatRef { id: chat.id, title: chat.shown_name() }),
    {
        ChatRef { id: chat.id, title: chat.display_name() }
    }
}

/// What the receiver should do with an update. Identity (org, channel) is never taken from
/// here, only the link code and the chat it resolves to.
#[derive(Debug, PartialEq, Eq)]
pub enum WebhookAction {
    /// `/start <code>` in a private chat.
    LinkPrivate { code: String, chat: ChatRef },
    /// `/start <code>` or `/link <code>` in a group the bot was added to.
    LinkGroup { code: String, chat: ChatRef },
    /// The bot was removed (`left`/`kicked`) from a chat.
    Removed { chat_id: i64 },
    /// Anything we don't act on: acknowledged and dropped.
    Ignore,
}

/// The part of a text before the first character of a kind.
pub open spec fn before(s: Seq<char>, p: spec_fn(char) -> bool) -> Seq<char> {
    match index_where(s, p) {
        Some(i) => s.take(i),
        None => s,
    }
}

/// The part of a text behind the first character of a kind.
pub open spec fn behind(s: Seq<char>, p: spec_fn(char) -> bool) -> Seq<char> {
    match index_where(s, p) {
        Some(i) => s.skip(i + 1),
        None => Seq::empty(),
    }
}

/// White space.
pub open spec fn blank() -> spec_fn(char) -> bool {
    |c: char| is_white(c)
}

/// The sign before a bot's name.
pub open spec fn at_sign() -> spec_fn(char) -> bool {
    |c: char| c == '@'
}

/// `/cmd@bot arg` as its command and its argument, without the `@bot` that groups add.
/// `None` where the text is no command.
pub open spec fn command_of(text: Seq<char>) -> Option<(Seq<char>, Seq<char>)> {
    let t = trimmed(text);
    let word = before(t, blank());
    if word.len() > 0 && word[0] == '/' {
        Some((before(word, at_sign()), trimmed(behind(t, blank()))))
    } else {
        None
    }
}

fn find_blank(v: &Vec<char>) -> (r: Option<usize>)
    ensures
        match r {
            Some(i) => index_where(v@, blank()) == Some(i as int) && i < v@.len(),
            None => index_where(v@, blank()) is None,
        },
{
    let mut i: usize = 0;
    while i < v.len()
        invariant
            i <= v@.len(),
            forall|j: int| 0 <= j < i ==> !blank()(#[trigger] v@[j]),
        decreases v.len() - i,
    {
        if is_whitespace(v[i]) {
            proof {
                lemma_index_where_is(v@, blank(), i as int);
            }
            return Some(i);
        }
        i += 1;
    }
    proof {
        lemma_index_where_none(v@, blank());
    }
    None
}

fn find_at_sign(v: &Vec<char>, end: usize) -> (r: Option<usize>)
    requires
        end <= v@.len(),
    ensures
        match r {
            Some(i) => index_where(v@.take(end as int), at_sign()) == Some(i as int) && i < end,
            None => index_where(v@.take(end as int), at_sign()) is None,
        },
{
    let ghost word = v@.take(end as int);
    let mut i: usize = 0;
    while i < end
        invariant
            i <= end <= v@.len(),
            word == v@.take(end as int),
            forall|j: int| 0 <= j < i ==> !at_sign()(#[trigger] word[j]),
        decreases end - i,
    {
        if v[i] == '@' {
            proof {
                assert(word[i as int] == '@');
                lemma_index_where_is(word, at_sign(), i as int);
            }
            return Some(i);
        }
        assert(word[i as int] != '@');
        i += 1;
    }
    proof {
        lemma_index_where_none(word, at_sign());
    }
    None
}

/// Splits `/cmd@bot arg` into its command and its argument.
pub fn parse_command(text: &str) -> (r: Option<(String, String)>)
    ensures
        match r {
            Some((cmd, arg)) => command_of(text@) == Some((cmd@, arg@)),
            None => command_of(text@) is None,
        },
{
    let t = trim(text);
    let v = chars_of(t.as_str());
    let found = find_blank(&v);
    let end: usize = match found {
        Some(i) => i,
        None => v.len(),
    };
    let ghost word = before(v@, blank());
    assert(word =~= v@.take(end as int));
    if end == 0 || v[0] != '/' {
        return None;
    }
    assert(word[0] == '/');
    let stop: usize = match find_at_sign(&v, end) {
        Some(i) => i,
        None => end,
    };
    let cmd = string_of(&v, 0, stop);
    assert(cmd@ =~= before(word, at_sign()));
    let rest = match found {
        Some(i) => string_of(&v, i + 1, v.len()),
        None => String::new(),
    };
    assert(rest@ =~= behind(v@, blank()));
    Some((cmd, trim(rest.as_str())))
}

/// The link code of a message that asks to be linked.
pub open spec fn link_code(m: Message) -> Option<Seq<char>> {
    match m.text {
        Some(t) => match command_of(t@) {
            Some((cmd, code)) => if code.len() > 0 && (cmd == "/start"@ || cmd == "/link"@) {
                Some(code)
            } else {
                None
            },
            None => None,
        },
        None => None,
    }
}

/// The bot was removed.
pub open spec fn removes(m: ChatMemberUpdated) -> bool {
    m.new_chat_member.status@ == "left"@ || m.new_chat_member.status@ == "kicked"@
}

/// The action is what an update asks for. The chat the message arrived in decides how it is
/// linked, not which command was typed.
pub open spec fn asks_for(u: Update, a: WebhookAction) -> bool {
    match u.message {
        Some(m) if link_code(m) is Some => if m.chat.grouped() {
            a matches WebhookAction::LinkGroup { code, chat } && Some(code@) == link_code(m)
                && chat == (ChatRef { id: m.chat.id, title: m.chat.shown_name() })
        } else {
            a matches WebhookAction::LinkPrivate { code, chat } && Some(code@) == link_code(m)
                && chat == (ChatRef { id: m.chat.id, title: m.chat.shown_name() })
        },
        _ => match u.my_chat_member {
            Some(m) if removes(m) => a == (WebhookAction::Removed { chat_id: m.chat.id }),
            _ => a is Ignore,
        },
    }
}

fn wanted_code(m: &Message) -> (r: Option<String>)
    ensures
        opt_view(r) == link_code(*m),
{
    match &m.text {
        Some(t) => {
            match parse_command(t.as_str()) {
                Some((cmd, code)) => {
                    let known = str_eq(cmd.as_str(), "/start") || str_eq(cmd.as_str(), "/link");
                    if !code.as_str().is_empty() && known {
                        Some(code)
                    } else {
                        None
                    }
                },
                None => None,
            }
        },
        None => None,
    }
}

/// What an update asks for.
pub fn classify_update(update: &Update) -> (a: WebhookAction)
    ensures
        asks_for(*update, a),
{
    if let Some(msg) = &update.message {
        if let Some(code) = wanted_code(msg) {
            let chat = ChatRef::of(&msg.chat);
            return if msg.chat.is_group() {
                WebhookAction::LinkGroup { code, chat }
            } else {
                WebhookAction::LinkPrivate { code, chat }
            };
        }
    }
    if let Some(mcm) = &update.my_chat_member {
        let status = mcm.new_chat_member.status.as_str();
        if str_eq(status, "left") || str_eq(status, "kicked") {
            return WebhookAction::Removed { chat_id: mcm.chat.id };
        }
    }
    WebhookAction::Ignore
}

/// Every update asks for exactly one thing, and a link always carries a code that has no
/// blanks around it.
pub proof fn law_an_update_asks_for_one_thing(u: Update, a: WebhookAction, b: WebhookAction)
    requires
        asks_for(u, a),
        asks_for(u, b),
    ensures
        a is Ignore <==> b is Ignore,
        a is Removed <==> b is Removed,
        a is LinkGroup <==> b is LinkGroup,
        a is LinkPrivate <==> b is LinkPrivate,
        a matches WebhookAction::LinkGroup { code, chat } ==> code@.len() > 0 && !is_white(code@[0])
            && !is_white(code@.last()),
        a matches WebhookAction::LinkPrivate { code, chat } ==> code@.len() > 0 && !is_white(
            code@[0],
        ) && !is_white(code@.last()),
{
    if let Some(m) = u.message {
        if let Some(t) = m.text {
            lemma_trimmed_ends(behind(trimmed(t@), blank()));
        }
    }
}

/// A command is a text that begins with a slash: the word it begins with up to an `@`, and what
/// follows the first blank, both without blanks around them. Any other text is no command.
pub proof fn law_a_command_is_split(
    cmd: Seq<char>,
    bot: Seq<char>,
    gap: char,
    arg: Seq<char>,
    other: Seq<char>,
)
    requires
        cmd.len() > 0 && cmd[0] == '/',
        forall|i: int| 0 <= i < cmd.len() ==> !is_white(#[trigger] cmd[i]) && cmd[i] != '@',
        bot.len() > 0 ==> bot[0] == '@',
        forall|i: int| 0 <= i < bot.len() ==> !is_white(#[trigger] bot[i]),
        is_white(gap),
        arg.len() > 0 && !is_white(arg[0]) && !is_white(arg[arg.len() - 1]),
        trimmed(other).len() == 0 || trimmed(other)[0] != '/',
    ensures
        command_of(cmd + bot + seq![gap] + arg) == Some((cmd, arg)),
        command_of(cmd + bot) == Some((cmd, Seq::<char>::empty())),
        command_of(other) is None,
{
    let e = Seq::<char>::empty();
    let word = cmd + bot;
    let n = word.len() as int;
    assert forall|i: int| 0 <= i < n implies !is_white(#[trigger] word[i]) by {
        if i < cmd.len() {
            assert(word[i] == cmd[i]);
        } else {
            assert(word[i] == bot[i - cmd.len()]);
        }
    }
    assert(before(word, at_sign()) == cmd) by {
        assert forall|j: int| 0 <= j < cmd.len() implies !at_sign()(#[trigger] word[j]) by {
            assert(word[j] == cmd[j]);
        }
        if bot.len() > 0 {
            assert(word[cmd.len() as int] == '@');
            lemma_index_where_is(word, at_sign(), cmd.len() as int);
            assert(word.take(cmd.len() as int) =~= cmd);
        } else {
            assert(word =~= cmd);
            lemma_index_where_none(word, at_sign());
        }
    }
    let t = word + seq![gap] + arg;
    assert(t[0] == '/' && t[t.len() - 1] == arg[arg.len() - 1]);
    law_trimming_takes_the_white_ends(e, t, e);
    assert(e + t + e =~= t);
    assert forall|j: int| 0 <= j < n implies !blank()(#[trigger] t[j]) by {
        assert(t[j] == word[j]);
    }
    assert(t[n] == gap);
    lemma_index_where_is(t, blank(), n);
    assert(t.take(n) =~= word);
    assert(t.skip(n + 1) =~= arg);
    law_trimming_takes_the_white_ends(e, arg, e);
    assert(e + arg + e =~= arg);
    assert(word[0] == '/' && !is_white(word[n - 1]));
    law_trimming_takes_the_white_ends(e, word, e);
    assert(e + word + e =~= word);
    assert forall|j: int| 0 <= j < word.len() implies !blank()(#[trigger] word[j]) by {}
    lemma_index_where_none(word, blank());
    law_trimming_takes_the_white_ends(e, e, e);
    assert(e + e + e =~= e);
    let o = trimmed(other);
    lemma_index_where(o, blank());
    let first = before(o, blank());
    if first.len() > 0 {
        assert(first[0] == o[0]);
    }
}

/// A message links where its command is `/start` or `/link` and has an argument: the argument is
/// the code, and whether it is a group's or a private link is told by the chat alone. The link
/// carries the chat's id and its title, else its first name, else its user name.
pub proof fn law_a_link_is_told_by_its_chat(
    u: Update,
    a: WebhookAction,
    m: Message,
    text: String,
    cmd: Seq<char>,
    arg: Seq<char>,
)
    requires
        asks_for(u, a),
        u.message == Some(m),
        m.text == Some(text),
        command_of(text@) == Some((cmd, arg)),
        cmd == "/start"@ || cmd == "/link"@,
        arg.len() > 0,
    ensures
        ({
            let group = opt_view(m.chat.chat_type) == Some("group"@) || opt_view(m.chat.chat_type)
                == Some("supergroup"@);
            let name = if m.chat.title is Some {
                m.chat.title
            } else if m.chat.first_name is Some {
                m.chat.first_name
            } else {
                m.chat.username
            };
            &&& group ==> (a matches WebhookAction::LinkGroup { code, chat } && code@ == arg
                && chat.id == m.chat.id && chat.title == name)
            &&& !group ==> (a matches WebhookAction::LinkPrivate { code, chat } && code@ == arg
                && chat.id == m.chat.id && chat.title == name)
        }),
{
}

/// An update that links nothing tells that the bot left or was kicked out of a chat, or is
/// dropped.
pub proof fn law_what_links_nothing_removes_or_is_dropped(u: Update, a: WebhookAction)
    requires
        asks_for(u, a),
        u.message matches Some(m) ==> (m.text matches Some(t) ==> (command_of(t@) matches Some(c)
            ==> c.1.len() == 0 || (c.0 != "/start"@ && c.0 != "/link"@))),
    ensures
        ({
            let gone = u.my_chat_member matches Some(c) && (c.new_chat_member.status@ == "left"@
                || c.new_chat_member.status@ == "kicked"@);
            &&& gone ==> a == (WebhookAction::Removed { chat_id: u.my_chat_member->Some_0.chat.id })
            &&& !gone ==> a is Ignore
        }),
{
}

} // verus!
