//! ClickHouse migrations: splitting a source into statements, deciding what to
//! run against a database, and checking the rollup views against the readers.

use vstd::prelude::*;

use crate::strings::{
    chars_of, contains_str, lemma_trimmed_push_white, owned, push_char, str_eq, trim, trimmed, views,
};

verus! {

/// Why a migration source could not be split.
#[derive(Debug, Clone, Copy, PartialEq, Eq, Structural)]
pub enum SplitError {
    /// A literal opened by this quote is still open at the end of the source.
    UnterminatedString(char),
    /// A block comment is still open at the end of the source.
    UnterminatedBlockComment,
}

impl SplitError {
    /// The diagnostic's text.
    pub open spec fn text(self) -> Seq<char> {
        match self {
            SplitError::UnterminatedString(q) => "unterminated "@.push(q)
                + " string literal in migration source"@,
            SplitError::UnterminatedBlockComment =>
                "unterminated /* … */ block comment in migration source"@,
        }
    }

    /// The diagnostic that a boot log shows.
    pub fn message(&self) -> (r: String)
        ensures
            r@ == self.text(),
            self matches SplitError::UnterminatedString(q) ==> r@ == "unterminated "@ + seq![*q]
                + " string literal in migration source"@,
            self matches SplitError::UnterminatedBlockComment ==> r@
                == "unterminated /* … */ block comment in migration source"@,
    {
        match self {
            SplitError::UnterminatedString(q) => {
                let mut out = owned("unterminated ");
                push_char(&mut out, *q);
                out.append(" string literal in migration source");
                out
            },
            SplitError::UnterminatedBlockComment => owned(
                "unterminated /* … */ block comment in migration source",
            ),
        }
    }
}

/// The three characters that open a literal or a quoted identifier.
pub open spec fn is_quote(c: char) -> bool {
    c == '\'' || c == '"' || c == '`'
}

/// How many characters a `--` comment's body runs before its newline, if one
/// ends it.
pub open spec fn line_end(s: Seq<char>) -> Option<int>
    decreases s.len(),
{
    if s.len() == 0 {
        None
    } else if s[0] == '\n' {
        Some(0)
    } else {
        match line_end(s.drop_first()) {
            Some(n) => Some(n + 1),
            None => None,
        }
    }
}

/// How many characters a block comment's body takes including its `*/`.
pub open spec fn block_end(s: Seq<char>) -> Option<int>
    decreases s.len(),
{
    if s.len() < 2 {
        None
    } else if s[0] == '*' && s[1] == '/' {
        Some(2)
    } else {
        match block_end(s.drop_first()) {
            Some(n) => Some(n + 1),
            None => None,
        }
    }
}

/// How many characters a literal's body takes including its closing quote `q`.
/// A doubled quote and a backslash pair stay inside the literal.
pub open spec fn literal_end(s: Seq<char>, q: char) -> Option<int>
    decreases s.len(),
{
    if s.len() == 0 {
        None
    } else if s[0] == '\\' || (s[0] == q && s.len() > 1 && s[1] == q) {
        if s.len() == 1 {
            None
        } else {
            match literal_end(s.skip(2), q) {
                Some(n) => Some(n + 2),
                None => None,
            }
        }
    } else if s[0] == q {
        Some(1)
    } else {
        match literal_end(s.drop_first(), q) {
            Some(n) => Some(n + 1),
            None => None,
        }
    }
}

proof fn lemma_line_end(s: Seq<char>)
    ensures
        line_end(s) matches Some(n) ==> 0 <= n < s.len(),
    decreases s.len(),
{
    if s.len() > 0 && s[0] != '\n' {
        lemma_line_end(s.drop_first());
    }
}

proof fn lemma_block_end(s: Seq<char>)
    ensures
        block_end(s) matches Some(n) ==> 2 <= n <= s.len(),
    decreases s.len(),
{
    if s.len() >= 2 && !(s[0] == '*' && s[1] == '/') {
        lemma_block_end(s.drop_first());
    }
}

proof fn lemma_literal_end(s: Seq<char>, q: char)
    ensures
        literal_end(s, q) matches Some(n) ==> 1 <= n <= s.len(),
    decreases s.len(),
{
    if s.len() > 0 {
        if s.len() > 1 {
            lemma_literal_end(s.skip(2), q);
        }
        lemma_literal_end(s.drop_first(), q);
    }
}

/// The statement that a finished chunk is, if it is not blank.
pub open spec fn flushed(cur: Seq<char>) -> Seq<Seq<char>> {
    if trimmed(cur).len() == 0 {
        Seq::empty()
    } else {
        seq![trimmed(cur)]
    }
}

/// `done` in front of the statements that follow, where those could be split.
pub open spec fn after(
    done: Seq<Seq<char>>,
    rest: Result<Seq<Seq<char>>, SplitError>,
) -> Result<Seq<Seq<char>>, SplitError> {
    match rest {
        Ok(stmts) => Ok(done + stmts),
        Err(e) => Err(e),
    }
}

/// The statements of the source `s`, where `cur` is the text of the statement
/// under way: a `;` outside literals and comments ends a statement, comments are
/// dropped (a line comment's newline stays), literals are kept verbatim.
pub open spec fn statements_from(s: Seq<char>, cur: Seq<char>) -> Result<
    Seq<Seq<char>>,
    SplitError,
>
    decreases s.len(),
    via statements_from_decreases
{
    if s.len() == 0 {
        Ok(flushed(cur))
    } else if s[0] == ';' {
        after(flushed(cur), statements_from(s.drop_first(), Seq::empty()))
    } else if s.len() > 1 && s[0] == '-' && s[1] == '-' {
        match line_end(s.skip(2)) {
            Some(n) => statements_from(s.skip(n + 3), cur.push('\n')),
            None => Ok(flushed(cur)),
        }
    } else if s.len() > 1 && s[0] == '/' && s[1] == '*' {
        match block_end(s.skip(2)) {
            Some(n) => statements_from(s.skip(n + 2), cur),
            None => Err(SplitError::UnterminatedBlockComment),
        }
    } else if is_quote(s[0]) {
        match literal_end(s.drop_first(), s[0]) {
            Some(n) => statements_from(s.skip(n + 1), cur + s.take(n + 1)),
            None => Err(SplitError::UnterminatedString(s[0])),
        }
    } else {
        statements_from(s.drop_first(), cur.push(s[0]))
    }
}

#[via_fn]
proof fn statements_from_decreases(s: Seq<char>, cur: Seq<char>) {
    if s.len() > 0 {
        if s.len() > 1 {
            lemma_line_end(s.skip(2));
            lemma_block_end(s.skip(2));
        }
        lemma_literal_end(s.drop_first(), s[0]);
    }
}

/// The statements of a migration source.
pub open spec fn statements(s: Seq<char>) -> Result<Seq<Seq<char>>, SplitError> {
    statements_from(s, Seq::empty())
}

/// Where the splitter stands in the source.
#[derive(Clone, Copy)]
enum Mode {
    Normal,
    Quoted(char),
    LineComment,
    BlockComment,
}

/// What remains to be split from inside a mode.
spec fn resume(mode: Mode, s: Seq<char>, cur: Seq<char>) -> Result<Seq<Seq<char>>, SplitError> {
    match mode {
        Mode::Normal => statements_from(s, cur),
        Mode::Quoted(q) => match literal_end(s, q) {
            Some(n) => statements_from(s.skip(n), cur + s.take(n)),
            None => Err(SplitError::UnterminatedString(q)),
        },
        Mode::LineComment => match line_end(s) {
            Some(n) => statements_from(s.skip(n + 1), cur.push('\n')),
            None => Ok(flushed(cur)),
        },
        Mode::BlockComment => match block_end(s) {
            Some(n) => statements_from(s.skip(n), cur),
            None => Err(SplitError::UnterminatedBlockComment),
        },
    }
}

proof fn lemma_resume_normal(s: Seq<char>, cur: Seq<char>)
    requires
        s.len() > 0,
    ensures
        s[0] == ';' ==> resume(Mode::Normal, s, cur) == after(
            flushed(cur),
            resume(Mode::Normal, s.skip(1), Seq::empty()),
        ),
        s.len() > 1 && s[0] == '-' && s[1] == '-' ==> resume(Mode::Normal, s, cur) == resume(
            Mode::LineComment,
            s.skip(2),
            cur,
        ),
        s.len() > 1 && s[0] == '/' && s[1] == '*' ==> resume(Mode::Normal, s, cur) == resume(
            Mode::BlockComment,
            s.skip(2),
            cur,
        ),
        is_quote(s[0]) ==> resume(Mode::Normal, s, cur) == resume(
            Mode::Quoted(s[0]),
            s.skip(1),
            cur.push(s[0]),
        ),
        s[0] != ';' && !(s.len() > 1 && s[0] == '-' && s[1] == '-') && !(s.len() > 1 && s[0] == '/'
            && s[1] == '*') && !is_quote(s[0]) ==> resume(Mode::Normal, s, cur) == resume(
            Mode::Normal,
            s.skip(1),
            cur.push(s[0]),
        ),
{
    assert(s.skip(1) =~= s.drop_first());
    if s.len() > 1 && s[0] == '-' && s[1] == '-' {
        lemma_line_end(s.skip(2));
        if let Some(n) = line_end(s.skip(2)) {
            assert(s.skip(2).skip(n + 1) =~= s.skip(n + 3));
        }
    } else if s.len() > 1 && s[0] == '/' && s[1] == '*' {
        lemma_block_end(s.skip(2));
        if let Some(n) = block_end(s.skip(2)) {
            assert(s.skip(2).skip(n) =~= s.skip(n + 2));
        }
    } else if is_quote(s[0]) {
        lemma_literal_end(s.drop_first(), s[0]);
        if let Some(n) = literal_end(s.drop_first(), s[0]) {
            assert(s.drop_first().skip(n) =~= s.skip(n + 1));
            assert(cur.push(s[0]) + s.drop_first().take(n) =~= cur + s.take(n + 1));
        }
    }
}

proof fn lemma_resume_quoted(q: char, s: Seq<char>, cur: Seq<char>)
    requires
        s.len() > 0,
    ensures
        (s[0] == '\\' || (s[0] == q && s.len() > 1 && s[1] == q)) && s.len() > 1 ==> resume(
            Mode::Quoted(q),
            s,
            cur,
        ) == resume(Mode::Quoted(q), s.skip(2), cur.push(s[0]).push(s[1])),
        s[0] == '\\' && s.len() == 1 ==> resume(Mode::Quoted(q), s, cur) == resume(
            Mode::Quoted(q),
            s.skip(1),
            cur.push(s[0]),
        ),
        s[0] != '\\' && s[0] == q && !(s.len() > 1 && s[1] == q) ==> resume(
            Mode::Quoted(q),
            s,
            cur,
        ) == resume(Mode::Normal, s.skip(1), cur.push(s[0])),
        s[0] != '\\' && s[0] != q ==> resume(Mode::Quoted(q), s, cur) == resume(
            Mode::Quoted(q),
            s.skip(1),
            cur.push(s[0]),
        ),
{
    assert(s.skip(1) =~= s.drop_first());
    lemma_literal_end(s, q);
    if s[0] == '\\' || (s[0] == q && s.len() > 1 && s[1] == q) {
        if s.len() > 1 {
            lemma_literal_end(s.skip(2), q);
            if let Some(n) = literal_end(s.skip(2), q) {
                assert(s.skip(2).skip(n) =~= s.skip(n + 2));
                assert(cur.push(s[0]).push(s[1]) + s.skip(2).take(n) =~= cur + s.take(
                    n + 2,
                ));
            }
        }
    } else if s[0] == q {
        assert(cur + s.take(1) =~= cur.push(s[0]));
    } else {
        lemma_literal_end(s.drop_first(), q);
        if let Some(n) = literal_end(s.drop_first(), q) {
            assert(s.drop_first().skip(n) =~= s.skip(n + 1));
            assert(cur.push(s[0]) + s.drop_first().take(n) =~= cur + s.take(n + 1));
        }
    }
}

proof fn lemma_resume_comment(s: Seq<char>, cur: Seq<char>)
    requires
        s.len() > 0,
    ensures
        s[0] == '\n' ==> resume(Mode::LineComment, s, cur) == resume(
            Mode::Normal,
            s.skip(1),
            cur.push('\n'),
        ),
        s[0] != '\n' ==> resume(Mode::LineComment, s, cur) == resume(
            Mode::LineComment,
            s.skip(1),
            cur,
        ),
        s.len() > 1 && s[0] == '*' && s[1] == '/' ==> resume(Mode::BlockComment, s, cur) == resume(
            Mode::Normal,
            s.skip(2),
            cur,
        ),
        !(s.len() > 1 && s[0] == '*' && s[1] == '/') ==> resume(Mode::BlockComment, s, cur)
            == resume(Mode::BlockComment, s.skip(1), cur),
{
    assert(s.skip(1) =~= s.drop_first());
    lemma_line_end(s.drop_first());
    lemma_block_end(s.drop_first());
    if s[0] != '\n' {
        if let Some(n) = line_end(s.drop_first()) {
            assert(s.drop_first().skip(n + 1) =~= s.skip(n + 2));
        }
    }
    if !(s.len() > 1 && s[0] == '*' && s[1] == '/') {
        if s.len() >= 2 {
            if let Some(n) = block_end(s.drop_first()) {
                assert(s.drop_first().skip(n) =~= s.skip(n + 1));
            }
        }
    }
}

/// What follows a source that is joined to `b`.
spec fn joint(b: Seq<char>) -> Seq<char> {
    seq!['\n', ';'] + b
}

proof fn lemma_line_end_joined(s: Seq<char>, b: Seq<char>)
    ensures
        line_end(s + joint(b)) == Some(
            match line_end(s) {
                Some(n) => n,
                None => s.len() as int,
            },
        ),
    decreases s.len(),
{
    let t = s + joint(b);
    if s.len() == 0 {
        assert(t[0] == '\n');
    } else {
        assert(t[0] == s[0]);
        if s[0] != '\n' {
            lemma_line_end_joined(s.drop_first(), b);
            assert(t.drop_first() =~= s.drop_first() + joint(b));
        }
    }
}

proof fn lemma_block_end_joined(s: Seq<char>, b: Seq<char>)
    requires
        block_end(s) is Some,
    ensures
        block_end(s + joint(b)) == block_end(s),
    decreases s.len(),
{
    let t = s + joint(b);
    assert(t[0] == s[0] && t[1] == s[1]);
    if !(s[0] == '*' && s[1] == '/') {
        lemma_block_end_joined(s.drop_first(), b);
        assert(t.drop_first() =~= s.drop_first() + joint(b));
    }
}

proof fn lemma_literal_end_joined(s: Seq<char>, q: char, b: Seq<char>)
    requires
        is_quote(q),
        literal_end(s, q) is Some,
    ensures
        literal_end(s + joint(b), q) == literal_end(s, q),
    decreases s.len(),
{
    let t = s + joint(b);
    assert(t[0] == s[0]);
    assert(t[1] == (if s.len() > 1 {
        s[1]
    } else {
        '\n'
    }));
    if s[0] == '\\' || (s[0] == q && s.len() > 1 && s[1] == q) {
        lemma_literal_end_joined(s.skip(2), q, b);
        assert(t.skip(2) =~= s.skip(2) + joint(b));
    } else if s[0] != q {
        lemma_literal_end_joined(s.drop_first(), q, b);
        assert(t.drop_first() =~= s.drop_first() + joint(b));
    }
}

/// From the joint on, the statement under way is finished and `b` is split.
proof fn lemma_at_the_joint(cur: Seq<char>, b: Seq<char>)
    ensures
        statements_from(seq![';'] + b, cur.push('\n')) == after(flushed(cur), statements(b)),
        statements_from(joint(b), cur) == after(flushed(cur), statements(b)),
{
    let t = joint(b);
    lemma_trimmed_push_white(cur, '\n');
    assert((seq![';'] + b).drop_first() =~= b);
    assert(t[0] == '\n');
    assert(t.drop_first() =~= seq![';'] + b);
}

proof fn lemma_statements_joined(s: Seq<char>, cur: Seq<char>, b: Seq<char>)
    requires
        statements_from(s, cur) is Ok,
    ensures
        statements_from(s + joint(b), cur) == after(statements_from(s, cur)->Ok_0, statements(b)),
    decreases s.len(),
{
    let j = joint(b);
    let t = s + j;
    if s.len() > 0 {
        assert(t[0] == s[0]);
        assert(t[1] == (if s.len() > 1 {
            s[1]
        } else {
            '\n'
        }));
        assert(t.drop_first() =~= s.drop_first() + j);
    }
    if s.len() == 0 {
        assert(t =~= j);
        lemma_at_the_joint(cur, b);
    } else if s[0] == ';' {
        lemma_statements_joined(s.drop_first(), Seq::empty(), b);
        let x = statements_from(s.drop_first(), Seq::empty())->Ok_0;
        if let Ok(y) = statements(b) {
            assert(flushed(cur) + (x + y) =~= (flushed(cur) + x) + y);
        }
    } else if s.len() > 1 && s[0] == '-' && s[1] == '-' {
        let body = s.skip(2);
        assert(t.skip(2) =~= body + j);
        lemma_line_end(body);
        lemma_line_end_joined(body, b);
        match line_end(body) {
            Some(n) => {
                assert(t.skip(n + 3) =~= s.skip(n + 3) + j);
                lemma_statements_joined(s.skip(n + 3), cur.push('\n'), b);
            },
            None => {
                assert(t.skip(body.len() as int + 3) =~= seq![';'] + b);
                lemma_at_the_joint(cur, b);
            },
        }
    } else if s.len() > 1 && s[0] == '/' && s[1] == '*' {
        let body = s.skip(2);
        assert(t.skip(2) =~= body + j);
        lemma_block_end(body);
        lemma_block_end_joined(body, b);
        let n = block_end(body)->Some_0;
        assert(t.skip(n + 2) =~= s.skip(n + 2) + j);
        lemma_statements_joined(s.skip(n + 2), cur, b);
    } else if is_quote(s[0]) {
        lemma_literal_end(s.drop_first(), s[0]);
        lemma_literal_end_joined(s.drop_first(), s[0], b);
        let n = literal_end(s.drop_first(), s[0])->Some_0;
        assert(t.skip(n + 1) =~= s.skip(n + 1) + j);
        assert(t.take(n + 1) =~= s.take(n + 1));
        lemma_statements_joined(s.skip(n + 1), cur + s.take(n + 1), b);
    } else {
        lemma_statements_joined(s.drop_first(), cur.push(s[0]), b);
    }
}

/// Two sources that can be split, joined by a newline and a semicolon, split into the
/// statements of the one and then those of the other: none is lost, merged or repeated. The
/// newline ends a line comment that the first source may close with.
pub proof fn law_joined_sources_split_alike(
    a: Seq<char>,
    b: Seq<char>,
    x: Seq<Seq<char>>,
    y: Seq<Seq<char>>,
)
    requires
        statements(a) == Ok::<Seq<Seq<char>>, SplitError>(x),
        statements(b) == Ok::<Seq<Seq<char>>, SplitError>(y),
    ensures
        statements(a + "\n;"@ + b) == Ok::<Seq<Seq<char>>, SplitError>(x + y),
{
    reveal_strlit("\n;");
    assert("\n;"@ =~= seq!['\n', ';']);
    assert(a + "\n;"@ + b =~= a + joint(b));
    lemma_statements_joined(a, Seq::empty(), b);
}

/// Ends the statement under way: its trimmed text joins `out` unless it is
/// blank, and the buffer is emptied.
pub fn push_statement(buf: &mut String, out: &mut Vec<String>)
    ensures
        final(buf)@ == Seq::<char>::empty(),
        views(final(out)@) == views(old(out)@) + flushed(old(buf)@),
{
    let text = trim(buf.as_str());
    *buf = String::new();
    if !text.as_str().is_empty() {
        out.push(text);
        assert(views(out@) =~= views(old(out)@) + flushed(old(buf)@));
    } else {
        assert(views(out@) =~= views(old(out)@) + flushed(old(buf)@));
    }
}

/// Split a migration source into executable statements with full
/// awareness of string literals and comments.
///
/// Quoted regions (`'…'`, `"…"`, `` `…` ``) and comments (`--` to
/// newline, `/* … */` block) suppress `;` recognition. Doubled quotes
/// (`''`, `""`) and backslash escapes (`\'`, `\\`) inside a string keep
/// the parser inside that string. Comment bodies are dropped from the
/// emitted statement; quoted bodies are kept verbatim.
///
/// Returns an error on an unterminated string literal or block comment
/// at EOF — these are migration bugs that must boot-fail loudly with a
/// pointer to the source rather than be papered over with a half-parsed
/// statement that ClickHouse then rejects far from the cause.
pub fn split_statements(sql: &str) -> (r: Result<Vec<String>, SplitError>)
    ensures
        match r {
            Ok(v) => statements(sql@) == Ok::<Seq<Seq<char>>, SplitError>(views(v@)),
            Err(e) => statements(sql@) == Err::<Seq<Seq<char>>, SplitError>(e),
        },
{
    let v = chars_of(sql);
    let mut mode = Mode::Normal;
    let mut current = String::new();
    let mut out: Vec<String> = Vec::new();
    let mut i: usize = 0;
    proof {
        assert(v@.skip(0) =~= v@);
        assert(views(out@) =~= Seq::empty());
        let all = resume(mode, v@.skip(0), current@);
        if let Ok(stmts) = all {
            assert(views(out@) + stmts =~= stmts);
        }
        assert(current@ =~= Seq::empty());
    }
    while i < v.len()
        invariant
            i <= v@.len(),
            v@ == sql@,
            statements(sql@) == after(views(out@), resume(mode, v@.skip(i as int), current@)),
        decreases v.len() - i,
    {
        let c = v[i];
        let more = i + 1 < v.len();
        let ghost rest = v@.skip(i as int);
        let ghost cur = current@;
        proof {
            assert(rest[0] == c);
            if more {
                assert(rest[1] == v@[i + 1]);
            }
            assert(rest.skip(1) =~= v@.skip(i + 1));
            if more {
                assert(rest.skip(2) =~= v@.skip(i + 2));
            }
            lemma_resume_normal(rest, cur);
            lemma_resume_comment(rest, cur);
        }
        match mode {
            Mode::Normal => {
                if c == ';' {
                    let ghost before = views(out@);
                    push_statement(&mut current, &mut out);
                    proof {
                        if let Ok(stmts) = resume(Mode::Normal, rest.skip(1), Seq::empty()) {
                            assert(before + (flushed(cur) + stmts) =~= (before + flushed(cur))
                                + stmts);
                        }
                    }
                    i += 1;
                } else if c == '-' && more && v[i + 1] == '-' {
                    mode = Mode::LineComment;
                    i += 2;
                } else if c == '/' && more && v[i + 1] == '*' {
                    mode = Mode::BlockComment;
                    i += 2;
                } else if c == '\'' || c == '"' || c == '`' {
                    push_char(&mut current, c);
                    mode = Mode::Quoted(c);
                    i += 1;
                } else {
                    push_char(&mut current, c);
                    i += 1;
                }
            },
            Mode::Quoted(q) => {
                proof {
                    lemma_resume_quoted(q, rest, cur);
                }
                push_char(&mut current, c);
                if c == '\\' {
                    if more {
                        push_char(&mut current, v[i + 1]);
                        i += 2;
                    } else {
                        i += 1;
                    }
                } else if c == q {
                    if more && v[i + 1] == q {
                        push_char(&mut current, v[i + 1]);
                        i += 2;
                    } else {
                        mode = Mode::Normal;
                        i += 1;
                    }
                } else {
                    i += 1;
                }
            },
            Mode::LineComment => {
                if c == '\n' {
                    push_char(&mut current, '\n');
                    mode = Mode::Normal;
                }
                i += 1;
            },
            Mode::BlockComment => {
                if c == '*' && more && v[i + 1] == '/' {
                    mode = Mode::Normal;
                    i += 2;
                } else {
                    i += 1;
                }
            },
        }
    }
    assert(v@.skip(i as int) =~= Seq::<char>::empty());
    match mode {
        Mode::Normal | Mode::LineComment => {
            push_statement(&mut current, &mut out);
            Ok(out)
        },
        Mode::Quoted(q) => Err(SplitError::UnterminatedString(q)),
        Mode::BlockComment => Err(SplitError::UnterminatedBlockComment),
    }
}

/// One thing to do against the database while migrating.
#[derive(Debug)]
pub enum MigrateAction {
    /// Run a statement of this migration.
    Execute { migration: String, statement: String },
    /// Record the migration in `schema_migrations`.
    Record { migration: String },
    /// Re-read `schema_migrations` and confirm that the row landed.
    Confirm { migration: String },
    /// Stop: this migration's source cannot be split.
    Fail { migration: String, error: SplitError },
    /// Compare the rollup views with what their readers expect.
    VerifyRollups,
}

/// [`MigrateAction`] over character sequences.
pub enum MigrateStep {
    Execute { migration: Seq<char>, statement: Seq<char> },
    Record { migration: Seq<char> },
    Confirm { migration: Seq<char> },
    Fail { migration: Seq<char>, error: SplitError },
    VerifyRollups,
}

impl View for MigrateAction {
    type V = MigrateStep;

    open spec fn view(&self) -> MigrateStep {
        match *self {
            MigrateAction::Execute { migration, statement } => MigrateStep::Execute {
                migration: migration@,
                statement: statement@,
            },
            MigrateAction::Record { migration } => MigrateStep::Record { migration: migration@ },
            MigrateAction::Confirm { migration } => MigrateStep::Confirm { migration: migration@ },
            MigrateAction::Fail { migration, error } => MigrateStep::Fail {
                migration: migration@,
                error,
            },
            MigrateAction::VerifyRollups => MigrateStep::VerifyRollups,
        }
    }
}

/// A migration: the file name that records it and its source.
#[derive(Debug)]
pub struct Migration {
    pub name: String,
    pub sql: String,
}

/// The steps of a list of actions.
pub open spec fn steps(v: Seq<MigrateAction>) -> Seq<MigrateStep> {
    v.map_values(|a: MigrateAction| a@)
}

/// The statements of one migration, each to be executed.
pub open spec fn executes(name: Seq<char>, stmts: Seq<Seq<char>>) -> Seq<MigrateStep> {
    stmts.map_values(|s: Seq<char>| MigrateStep::Execute { migration: name, statement: s })
}

/// What to do against a database that has recorded `applied`: every migration
/// that is not recorded yet runs its statements, is recorded and confirmed, in
/// order; the first source that cannot be split ends the script. Once all are
/// through, the rollup views are compared.
pub open spec fn script(applied: Seq<Seq<char>>, all: Seq<Migration>) -> Seq<MigrateStep>
    decreases all.len(),
{
    if all.len() == 0 {
        seq![MigrateStep::VerifyRollups]
    } else {
        let m = all[0];
        if applied.contains(m.name@) {
            script(applied, all.drop_first())
        } else {
            match statements(m.sql@) {
                Ok(stmts) => executes(m.name@, stmts) + seq![
                    MigrateStep::Record { migration: m.name@ },
                    MigrateStep::Confirm { migration: m.name@ },
                ] + script(applied, all.drop_first()),
                Err(e) => seq![MigrateStep::Fail { migration: m.name@, error: e }],
            }
        }
    }
}

/// The actions that bring a database that has recorded `applied` up to date.
/// Each is to be carried out in order, stopping at the first that fails.
pub fn migration_script(applied: &Vec<String>, all: &Vec<Migration>) -> (out: Vec<MigrateAction>)
    ensures
        steps(out@) == script(views(applied@), all@),
{
    let mut out: Vec<MigrateAction> = Vec::new();
    let mut i: usize = 0;
    assert(all@.skip(0) =~= all@);
    assert(steps(out@) + script(views(applied@), all@) =~= script(views(applied@), all@));
    while i < all.len()
        invariant
            i <= all@.len(),
            script(views(applied@), all@) == steps(out@) + script(
                views(applied@),
                all@.skip(i as int),
            ),
        decreases all.len() - i,
    {
        let m = &all[i];
        let ghost rest = all@.skip(i as int);
        let ghost next = script(views(applied@), all@.skip(i + 1));
        let ghost before = steps(out@);
        assert(rest[0] == m);
        assert(rest.drop_first() =~= all@.skip(i + 1));
        if !contains_str(applied, m.name.as_str()) {
            match split_statements(m.sql.as_str()) {
                Ok(stmts) => {
                    let mut k: usize = 0;
                    assert(executes(m.name@, views(stmts@).take(0)) =~= Seq::empty());
                    assert(before + executes(m.name@, views(stmts@).take(0)) =~= before);
                    while k < stmts.len()
                        invariant
                            k <= stmts@.len(),
                            steps(out@) == before + executes(
                                m.name@,
                                views(stmts@).take(k as int),
                            ),
                        decreases stmts.len() - k,
                    {
                        let ghost prev = out@;
                        let ghost sent = views(stmts@).take(k as int);
                        out.push(
                            MigrateAction::Execute {
                                migration: m.name.clone(),
                                statement: stmts[k].clone(),
                            },
                        );
                        k += 1;
                        assert(steps(out@) =~= steps(prev).push(out@.last()@));
                        assert(views(stmts@).take(k as int) =~= sent.push(stmts@[k - 1]@));
                        assert(executes(m.name@, sent.push(stmts@[k - 1]@)) =~= executes(
                            m.name@,
                            sent,
                        ).push(out@.last()@));
                        assert(steps(out@) =~= before + executes(
                            m.name@,
                            views(stmts@).take(k as int),
                        ));
                    }
                    assert(views(stmts@).take(k as int) =~= views(stmts@));
                    let ghost ran = out@;
                    out.push(MigrateAction::Record { migration: m.name.clone() });
                    out.push(MigrateAction::Confirm { migration: m.name.clone() });
                    assert(steps(out@) =~= steps(ran).push(
                        MigrateStep::Record { migration: m.name@ },
                    ).push(MigrateStep::Confirm { migration: m.name@ }));
                    assert(steps(out@) =~= before + (executes(m.name@, views(stmts@)) + seq![
                        MigrateStep::Record { migration: m.name@ },
                        MigrateStep::Confirm { migration: m.name@ },
                    ]));
                    assert(before + (executes(m.name@, views(stmts@)) + seq![
                        MigrateStep::Record { migration: m.name@ },
                        MigrateStep::Confirm { migration: m.name@ },
                    ] + next) =~= steps(out@) + next);
                },
                Err(error) => {
                    out.push(MigrateAction::Fail { migration: m.name.clone(), error });
                    assert(steps(out@) =~= before + seq![
                        MigrateStep::Fail { migration: m.name@, error },
                    ]);
                    return out;
                },
            }
        }
        i += 1;
    }
    assert(all@.skip(i as int).len() == 0);
    out.push(MigrateAction::VerifyRollups);
    assert(steps(out@) =~= script(views(applied@), all@));
    out
}

/// Once every migration is recorded, migrating again only compares the views.
pub proof fn law_recorded_migrations_do_not_run_again(applied: Seq<Seq<char>>, all: Seq<Migration>)
    requires
        forall|i: int| 0 <= i < all.len() ==> applied.contains(#[trigger] all[i].name@),
    ensures
        script(applied, all) == seq![MigrateStep::VerifyRollups],
    decreases all.len(),
{
    if all.len() > 0 {
        assert(applied.contains(all[0].name@));
        let rest = all.drop_first();
        assert forall|i: int| 0 <= i < rest.len() implies applied.contains(
            #[trigger] rest[i].name@,
        ) by {
            assert(rest[i] == all[i + 1]);
        }
        law_recorded_migrations_do_not_run_again(applied, rest);
    }
}

/// Whether a migration that ran is recorded, by how many rows the ledger then
/// holds for it.
pub fn confirm_recorded(rows: u64) -> (r: bool)
    ensures
        r == (rows > 0),
{
    rows > 0
}

/// A column of a view: its name and its type as ClickHouse writes it.
#[derive(Debug)]
pub struct Column {
    pub name: String,
    pub ty: String,
}

impl View for Column {
    type V = (Seq<char>, Seq<char>);

    open spec fn view(&self) -> (Seq<char>, Seq<char>) {
        (self.name@, self.ty@)
    }
}

/// The columns of a view over character sequences.
pub open spec fn columns(v: Seq<Column>) -> Seq<(Seq<char>, Seq<char>)> {
    v.map_values(|c: Column| c@)
}

fn column(name: &str, ty: &str) -> (r: Column)
    ensures
        r@ == (name@, ty@),
{
    Column { name: owned(name), ty: owned(ty) }
}

/// Exact `(column, type)` shape of `check_results_1m`, in definition order.
pub open spec fn minute_rollup_columns() -> Seq<(Seq<char>, Seq<char>)> {
    seq![
        ("org_id"@, "UUID"@),
        ("target_id"@, "UUID"@),
        ("region"@, "LowCardinality(String)"@),
        ("minute"@, "DateTime('UTC')"@),
        ("total_checks"@, "AggregateFunction(count)"@),
        ("up_checks"@, "AggregateFunction(countIf, UInt8)"@),
        ("down_checks"@, "AggregateFunction(countIf, UInt8)"@),
        ("degraded_checks"@, "AggregateFunction(countIf, UInt8)"@),
        ("error_checks"@, "AggregateFunction(countIf, UInt8)"@),
        ("avg_duration_ms"@, "AggregateFunction(avg, UInt32)"@),
        ("duration_quantiles"@, "AggregateFunction(quantiles(0.5, 0.95, 0.99), UInt32)"@),
        ("avg_dns_ms"@, "AggregateFunction(avg, Nullable(UInt16))"@),
        ("avg_connect_ms"@, "AggregateFunction(avg, Nullable(UInt16))"@),
        ("avg_tls_ms"@, "AggregateFunction(avg, Nullable(UInt16))"@),
        ("avg_ttfb_ms"@, "AggregateFunction(avg, Nullable(UInt16))"@),
        (
            "last_status_state"@,
            "AggregateFunction(argMax, Enum8('up' = 1, 'down' = 2, 'degraded' = 3, 'error' = 4), DateTime('UTC'))"@,
        ),
    ]
}

/// Exact `(column, type)` shape of `check_results_1m`, in definition order.
/// Editing the matview's source is a no-op on an existing DB, so the live view is
/// checked against this at boot and drift fails loud. A matview change means a
/// recreate migration and an update of this list. Type strings are formatted by
/// the server's version.
pub fn expected_rollup_schema() -> (out: Vec<Column>)
    ensures
        columns(out@) == minute_rollup_columns(),
        columns(out@) == seq![
            ("org_id"@, "UUID"@),
            ("target_id"@, "UUID"@),
            ("region"@, "LowCardinality(String)"@),
            ("minute"@, "DateTime('UTC')"@),
            ("total_checks"@, "AggregateFunction(count)"@),
            ("up_checks"@, "AggregateFunction(countIf, UInt8)"@),
            ("down_checks"@, "AggregateFunction(countIf, UInt8)"@),
            ("degraded_checks"@, "AggregateFunction(countIf, UInt8)"@),
            ("error_checks"@, "AggregateFunction(countIf, UInt8)"@),
            ("avg_duration_ms"@, "AggregateFunction(avg, UInt32)"@),
            ("duration_quantiles"@, "AggregateFunction(quantiles(0.5, 0.95, 0.99), UInt32)"@),
            ("avg_dns_ms"@, "AggregateFunction(avg, Nullable(UInt16))"@),
            ("avg_connect_ms"@, "AggregateFunction(avg, Nullable(UInt16))"@),
            ("avg_tls_ms"@, "AggregateFunction(avg, Nullable(UInt16))"@),
            ("avg_ttfb_ms"@, "AggregateFunction(avg, Nullable(UInt16))"@),
            (
                "last_status_state"@,
                "AggregateFunction(argMax, Enum8('up' = 1, 'down' = 2, 'degraded' = 3, 'error' = 4), DateTime('UTC'))"@,
            ),
        ],
{
    let mut out: Vec<Column> = Vec::new();
    out.push(column("org_id", "UUID"));
    out.push(column("target_id", "UUID"));
    out.push(column("region", "LowCardinality(String)"));
    out.push(column("minute", "DateTime('UTC')"));
    out.push(column("total_checks", "AggregateFunction(count)"));
    out.push(column("up_checks", "AggregateFunction(countIf, UInt8)"));
    out.push(column("down_checks", "AggregateFunction(countIf, UInt8)"));
    out.push(column("degraded_checks", "AggregateFunction(countIf, UInt8)"));
    out.push(column("error_checks", "AggregateFunction(countIf, UInt8)"));
    out.push(column("avg_duration_ms", "AggregateFunction(avg, UInt32)"));
    out.push(
        column("duration_quantiles", "AggregateFunction(quantiles(0.5, 0.95, 0.99), UInt32)"),
    );
    out.push(column("avg_dns_ms", "AggregateFunction(avg, Nullable(UInt16))"));
    out.push(column("avg_connect_ms", "AggregateFunction(avg, Nullable(UInt16))"));
    out.push(column("avg_tls_ms", "AggregateFunction(avg, Nullable(UInt16))"));
    out.push(column("avg_ttfb_ms", "AggregateFunction(avg, Nullable(UInt16))"));
    out.push(
        column(
            "last_status_state",
            "AggregateFunction(argMax, Enum8('up' = 1, 'down' = 2, 'degraded' = 3, 'error' = 4), DateTime('UTC'))",
        ),
    );
    assert(columns(out@) =~= minute_rollup_columns());
    out
}

/// The hour rollup's columns: those of the minute rollup with `hour` in place of
/// `minute`.
pub open spec fn hourly(minute: Seq<(Seq<char>, Seq<char>)>) -> Seq<(Seq<char>, Seq<char>)> {
    minute.map_values(
        |c: (Seq<char>, Seq<char>)|
            if c.0 == "minute"@ {
                ("hour"@, c.1)
            } else {
                c
            },
    )
}

/// The 1h view mirrors the 1m column set with `hour` in place of `minute`.
pub fn hourly_schema(minute: &Vec<Column>) -> (out: Vec<Column>)
    ensures
        columns(out@) == hourly(columns(minute@)),
{
    let mut out: Vec<Column> = Vec::new();
    let mut i: usize = 0;
    while i < minute.len()
        invariant
            i <= minute@.len(),
            columns(out@) == hourly(columns(minute@.take(i as int))),
        decreases minute.len() - i,
    {
        let c = &minute[i];
        let ghost prev = out@;
        if str_eq(c.name.as_str(), "minute") {
            out.push(column("hour", c.ty.as_str()));
        } else {
            out.push(column(c.name.as_str(), c.ty.as_str()));
        }
        i += 1;
        assert(columns(out@) =~= columns(prev).push(out@.last()@));
        assert(columns(minute@.take(i as int)) =~= columns(minute@.take(i - 1)).push(
            minute@[i - 1]@,
        ));
        assert(columns(out@) =~= hourly(columns(minute@.take(i as int))));
    }
    assert(minute@.take(i as int) =~= minute@);
    out
}

/// Whether a live view has exactly the expected columns, in order.
pub fn view_matches(live: &Vec<Column>, expected: &Vec<Column>) -> (r: bool)
    ensures
        r == (columns(live@) == columns(expected@)),
{
    if live.len() != expected.len() {
        assert(columns(live@).len() != columns(expected@).len());
        return false;
    }
    let mut i: usize = 0;
    while i < live.len()
        invariant
            i <= live@.len(),
            live@.len() == expected@.len(),
            forall|j: int| 0 <= j < i ==> #[trigger] live@[j]@ == expected@[j]@,
        decreases live.len() - i,
    {
        if !(str_eq(live[i].name.as_str(), expected[i].name.as_str()) && str_eq(
            live[i].ty.as_str(),
            expected[i].ty.as_str(),
        )) {
            assert(columns(live@)[i as int] != columns(expected@)[i as int]);
            return false;
        }
        i += 1;
    }
    assert(columns(live@) =~= columns(expected@));
    true
}

/// The first rollup view that drifted from its readers, if one did.
#[derive(Debug, Clone, Copy, PartialEq, Eq, Structural)]
pub enum RollupDrift {
    Minute,
    Hour,
}

/// Boot check: both rollups must have exactly the expected columns. The minute
/// view is looked at first.
pub fn verify_rollup_schema(minute: &Vec<Column>, hour: &Vec<Column>) -> (r: Result<
    (),
    RollupDrift,
>)
    ensures
        r matches Err(RollupDrift::Minute) <==> columns(minute@) != minute_rollup_columns(),
        r matches Err(RollupDrift::Hour) <==> columns(minute@) == minute_rollup_columns()
            && columns(hour@) != hourly(minute_rollup_columns()),
        r is Ok <==> columns(minute@) == minute_rollup_columns() && columns(hour@) == hourly(
            minute_rollup_columns(),
        ),
{
    let expected = expected_rollup_schema();
    if !view_matches(minute, &expected) {
        return Err(RollupDrift::Minute);
    }
    if !view_matches(hour, &hourly_schema(&expected)) {
        return Err(RollupDrift::Hour);
    }
    Ok(())
}

/// The text holds nothing that splitting looks at: no semicolon, no quote and no pair of
/// characters that opens a comment.
pub open spec fn is_plain(s: Seq<char>) -> bool {
    forall|i: int|
        #![trigger s[i]]
        0 <= i < s.len() ==> {
            &&& s[i] != ';' && s[i] != '\'' && s[i] != '"' && s[i] != '`'
            &&& s[i] != '-' && s[i] != '/'
        }
}

proof fn lemma_plain_is_taken(s: Seq<char>, rest: Seq<char>, cur: Seq<char>)
    requires
        is_plain(s),
    ensures
        statements_from(s + rest, cur) == statements_from(rest, cur + s),
    decreases s.len(),
{
    if s.len() == 0 {
        assert(s + rest =~= rest);
        assert(cur + s =~= cur);
    } else {
        let t = s + rest;
        assert(t[0] == s[0]);
        let tail = s.drop_first();
        assert forall|i: int| #![trigger tail[i]] 0 <= i < tail.len() implies {
            &&& tail[i] != ';' && tail[i] != '\'' && tail[i] != '"' && tail[i] != '`'
            &&& tail[i] != '-' && tail[i] != '/'
        } by {
            assert(tail[i] == s[i + 1]);
        }
        lemma_plain_is_taken(tail, rest, cur.push(s[0]));
        assert(t.drop_first() =~= tail + rest);
        assert(cur.push(s[0]) + tail =~= cur + s);
    }
}

/// A semicolon ends a statement and stands in none: plain text before one is a statement of
/// its own, without the blanks around it, and what follows is split as if it stood alone. Blank
/// text is no statement.
pub proof fn law_a_semicolon_ends_a_statement(s: Seq<char>, rest: Seq<char>, x: Seq<Seq<char>>)
    requires
        is_plain(s),
        statements(rest) == Ok::<Seq<Seq<char>>, SplitError>(x),
    ensures
        statements(s) == Ok::<Seq<Seq<char>>, SplitError>(
            if trimmed(s).len() == 0 {
                Seq::empty()
            } else {
                seq![trimmed(s)]
            },
        ),
        statements(s + seq![';'] + rest) == Ok::<Seq<Seq<char>>, SplitError>(
            if trimmed(s).len() == 0 {
                x
            } else {
                seq![trimmed(s)] + x
            },
        ),
{
    let e = Seq::<char>::empty();
    lemma_plain_is_taken(s, e, e);
    assert(s + e =~= s);
    assert(e + s =~= s);
    let t = seq![';'] + rest;
    lemma_plain_is_taken(s, t, e);
    assert(s + seq![';'] + rest =~= s + t);
    assert(t[0] == ';');
    assert(t.drop_first() =~= rest);
    assert(flushed(s) + x =~= (if trimmed(s).len() == 0 {
        x
    } else {
        seq![trimmed(s)] + x
    }));
}

proof fn lemma_literal_runs_to_its_quote(body: Seq<char>, q: char, rest: Seq<char>)
    requires
        forall|i: int| #![trigger body[i]] 0 <= i < body.len() ==> body[i] != q && body[i] != '\\',
        q != '\\',
        rest.len() == 0 || rest[0] != q,
    ensures
        literal_end(body + seq![q] + rest, q) == Some(body.len() as int + 1),
        literal_end(body, q) is None,
    decreases body.len(),
{
    let s = body + seq![q] + rest;
    if body.len() == 0 {
        assert(s[0] == q);
        if s.len() > 1 {
            assert(s[1] == rest[0]);
        }
    } else {
        let tail = body.drop_first();
        assert(s[0] == body[0]);
        assert(s.drop_first() =~= tail + seq![q] + rest);
        assert forall|i: int| #![trigger tail[i]] 0 <= i < tail.len() implies tail[i] != q && tail[i]
            != '\\' by {
            assert(tail[i] == body[i + 1]);
        }
        lemma_literal_runs_to_its_quote(tail, q, rest);
    }
}

/// A literal stays in its statement as it was written, whatever it holds: semicolons and
/// comment marks in it end and open nothing. One that is never closed is an error that names
/// its quote.
pub proof fn law_a_literal_is_kept_whole(
    body: Seq<char>,
    q: char,
    rest: Seq<char>,
    cur: Seq<char>,
)
    requires
        q == '\'' || q == '"' || q == '`',
        forall|i: int| #![trigger body[i]] 0 <= i < body.len() ==> body[i] != q && body[i] != '\\',
        rest.len() == 0 || rest[0] != q,
    ensures
        statements_from(seq![q] + body + seq![q] + rest, cur) == statements_from(
            rest,
            cur + (seq![q] + body + seq![q]),
        ),
        statements_from(seq![q] + body, cur) == Err::<Seq<Seq<char>>, SplitError>(
            SplitError::UnterminatedString(q),
        ),
{
    let s = seq![q] + body + seq![q] + rest;
    let n = body.len() as int;
    lemma_literal_runs_to_its_quote(body, q, rest);
    assert(s[0] == q);
    assert(s.drop_first() =~= body + seq![q] + rest);
    assert(s.skip(n + 2) =~= rest);
    assert(s.take(n + 2) =~= seq![q] + body + seq![q]);
    let open = seq![q] + body;
    assert(open[0] == q);
    assert(open.drop_first() =~= body);
}

/// Inside a literal a doubled quote and a character behind a backslash do not close it.
pub proof fn law_a_literal_goes_on_behind_an_escape(s: Seq<char>, q: char, c: char)
    requires
        q == '\'' || q == '"' || q == '`',
        literal_end(s, q) is Some,
    ensures
        literal_end(seq![q, q] + s, q) == Some(literal_end(s, q)->Some_0 + 2),
        literal_end(seq!['\\', c] + s, q) == Some(literal_end(s, q)->Some_0 + 2),
{
    let (a, b) = (seq![q, q] + s, seq!['\\', c] + s);
    assert(a[0] == q && a[1] == q && b[0] == '\\');
    assert(a.skip(2) =~= s);
    assert(b.skip(2) =~= s);
}

proof fn lemma_line_runs_to_its_end(body: Seq<char>, rest: Seq<char>)
    requires
        forall|i: int| #![trigger body[i]] 0 <= i < body.len() ==> body[i] != '\n',
    ensures
        line_end(body + seq!['\n'] + rest) == Some(body.len() as int),
        line_end(body) is None,
    decreases body.len(),
{
    let s = body + seq!['\n'] + rest;
    if body.len() == 0 {
        assert(s[0] == '\n');
    } else {
        let tail = body.drop_first();
        assert(s[0] == body[0]);
        assert(s.drop_first() =~= tail + seq!['\n'] + rest);
        assert forall|i: int| #![trigger tail[i]] 0 <= i < tail.len() implies tail[i] != '\n' by {
            assert(tail[i] == body[i + 1]);
        }
        lemma_line_runs_to_its_end(tail, rest);
    }
}

/// A line comment is dropped, whatever it holds, and its newline stays; one at the end of the
/// source needs none.
pub proof fn law_a_line_comment_is_dropped(body: Seq<char>, rest: Seq<char>, cur: Seq<char>)
    requires
        forall|i: int| #![trigger body[i]] 0 <= i < body.len() ==> body[i] != '\n',
    ensures
        statements_from(seq!['-', '-'] + body + seq!['\n'] + rest, cur) == statements_from(
            rest,
            cur.push('\n'),
        ),
        statements_from(seq!['-', '-'] + body, cur) == statements_from(Seq::empty(), cur),
{
    let s = seq!['-', '-'] + body + seq!['\n'] + rest;
    lemma_line_runs_to_its_end(body, rest);
    assert(s[0] == '-' && s[1] == '-');
    assert(s.skip(2) =~= body + seq!['\n'] + rest);
    assert(s.skip(body.len() as int + 3) =~= rest);
    let open = seq!['-', '-'] + body;
    assert(open[0] == '-' && open[1] == '-');
    assert(open.skip(2) =~= body);
}

proof fn lemma_block_runs_to_its_mark(body: Seq<char>, rest: Seq<char>)
    requires
        forall|i: int| #![trigger body[i]] 0 <= i < body.len() ==> body[i] != '*',
    ensures
        block_end(body + seq!['*', '/'] + rest) == Some(body.len() as int + 2),
        block_end(body) is None,
    decreases body.len(),
{
    let s = body + seq!['*', '/'] + rest;
    if body.len() == 0 {
        assert(s[0] == '*' && s[1] == '/');
    } else {
        let tail = body.drop_first();
        assert(s[0] == body[0]);
        assert(s.drop_first() =~= tail + seq!['*', '/'] + rest);
        assert forall|i: int| #![trigger tail[i]] 0 <= i < tail.len() implies tail[i] != '*' by {
            assert(tail[i] == body[i + 1]);
        }
        lemma_block_runs_to_its_mark(tail, rest);
    }
}

/// A block comment is dropped, whatever it holds and over however many lines; one that is never
/// closed is an error.
pub proof fn law_a_block_comment_is_dropped(body: Seq<char>, rest: Seq<char>, cur: Seq<char>)
    requires
        forall|i: int| #![trigger body[i]] 0 <= i < body.len() ==> body[i] != '*',
    ensures
        statements_from(seq!['/', '*'] + body + seq!['*', '/'] + rest, cur) == statements_from(
            rest,
            cur,
        ),
        statements_from(seq!['/', '*'] + body, cur) == Err::<Seq<Seq<char>>, SplitError>(
            SplitError::UnterminatedBlockComment,
        ),
{
    let s = seq!['/', '*'] + body + seq!['*', '/'] + rest;
    lemma_block_runs_to_its_mark(body, rest);
    assert(s[0] == '/' && s[1] == '*');
    assert(s.skip(2) =~= body + seq!['*', '/'] + rest);
    assert(s.skip(body.len() as int + 4) =~= rest);
    let open = seq!['/', '*'] + body;
    assert(open[0] == '/' && open[1] == '*');
    assert(open.skip(2) =~= body);
}

/// A migration that is not recorded runs its statements in order, is then recorded and then
/// confirmed, before anything of the migrations behind it; one that is recorded does nothing;
/// one whose source cannot be split ends the script.
pub proof fn law_a_migration_runs_once_and_whole(
    applied: Seq<Seq<char>>,
    m: Migration,
    rest: Seq<Migration>,
    stmts: Seq<Seq<char>>,
    k: int,
)
    requires
        0 <= k < stmts.len(),
    ensures
        applied.contains(m.name@) ==> script(applied, seq![m] + rest) == script(applied, rest),
        !applied.contains(m.name@) && statements(m.sql@) == Ok::<Seq<Seq<char>>, SplitError>(stmts)
            ==> {
            let all = script(applied, seq![m] + rest);
            let n = stmts.len() as int;
            &&& all.len() == n + 2 + script(applied, rest).len()
            &&& all[k] == (MigrateStep::Execute { migration: m.name@, statement: stmts[k] })
            &&& all[n] == (MigrateStep::Record { migration: m.name@ })
            &&& all[n + 1] == (MigrateStep::Confirm { migration: m.name@ })
            &&& all.skip(n + 2) == script(applied, rest)
        },
        !applied.contains(m.name@) && statements(m.sql@) is Err ==> script(
            applied,
            seq![m] + rest,
        ) == seq![MigrateStep::Fail { migration: m.name@, error: statements(m.sql@)->Err_0 }],
        script(applied, Seq::empty()) == seq![MigrateStep::VerifyRollups],
{
    let all = seq![m] + rest;
    assert(all[0] == m);
    assert(all.drop_first() =~= rest);
    if !applied.contains(m.name@) && statements(m.sql@) == Ok::<Seq<Seq<char>>, SplitError>(stmts) {
        let n = stmts.len() as int;
        assert(script(applied, all).skip(n + 2) =~= script(applied, rest));
    }
}

/// The hour rollup has the minute rollup's columns in their order and with their types; only
/// the time column is called otherwise.
pub proof fn law_the_hour_rollup_mirrors_the_minute(c: Seq<(Seq<char>, Seq<char>)>, i: int)
    requires
        0 <= i < c.len(),
    ensures
        hourly(c).len() == c.len(),
        hourly(c)[i].1 == c[i].1,
        c[i].0 == "minute"@ ==> hourly(c)[i].0 == "hour"@,
        c[i].0 != "minute"@ ==> hourly(c)[i].0 == c[i].0,
{
}

/// What an action says is what it holds: which migration it is about, and the statement it runs
/// or the error it stops on.
pub proof fn law_an_action_says_what_it_holds(a: MigrateAction, c: Column)
    ensures
        a matches MigrateAction::Execute { migration, statement } ==> a@ == (MigrateStep::Execute {
            migration: migration@,
            statement: statement@,
        }),
        a matches MigrateAction::Record { migration } ==> a@ == (MigrateStep::Record {
            migration: migration@,
        }),
        a matches MigrateAction::Confirm { migration } ==> a@ == (MigrateStep::Confirm {
            migration: migration@,
        }),
        a matches MigrateAction::Fail { migration, error } ==> a@ == (MigrateStep::Fail {
            migration: migration@,
            error,
        }),
        a is VerifyRollups ==> a@ == MigrateStep::VerifyRollups,
        c@ == (c.name@, c.ty@),
{
}

} // verus!
