//! Text shaping shared by every outbound channel: flatten a value that must
//! stay one line, cap one that has a hard length limit. Single owner, because a
//! transport and the template feeding it must not disagree on either rule.

use vstd::prelude::*;

use crate::strings::{
    byte_len, char_bytes, chars_of, is_control, is_control_char, is_white, is_whitespace, len_utf8,
    lemma_byte_len_push, lemma_byte_len_take, lemma_trim_start_at, owned, push_char, string_of,
    trim_start,
};

verus! {

/// Length of the leading run of characters that are not white space.
pub open spec fn word_len(s: Seq<char>) -> nat
    decreases s.len(),
{
    if s.len() == 0 || is_white(s[0]) {
        0
    } else {
        1 + word_len(s.drop_first())
    }
}

proof fn lemma_word_len_bound(s: Seq<char>)
    ensures
        word_len(s) <= s.len(),
    decreases s.len(),
{
    if s.len() > 0 && !is_white(s[0]) {
        lemma_word_len_bound(s.drop_first());
    }
}

proof fn lemma_trim_start_len(s: Seq<char>)
    ensures
        trim_start(s).len() <= s.len(),
        trim_start(s).len() > 0 ==> !is_white(trim_start(s)[0]),
    decreases s.len(),
{
    if s.len() > 0 && is_white(s[0]) {
        lemma_trim_start_len(s.drop_first());
    }
}

/// The maximal runs of characters that are not white space, in order.
pub open spec fn words(s: Seq<char>) -> Seq<Seq<char>>
    decreases s.len(),
    via words_decreases
{
    let t = trim_start(s);
    if t.len() == 0 {
        Seq::empty()
    } else {
        seq![t.take(word_len(t) as int)] + words(t.skip(word_len(t) as int))
    }
}

#[via_fn]
proof fn words_decreases(s: Seq<char>) {
    lemma_trim_start_len(s);
    lemma_word_len_bound(trim_start(s));
}

/// The words of `ws` with one space between each two.
pub open spec fn spaced(ws: Seq<Seq<char>>) -> Seq<char>
    decreases ws.len(),
{
    if ws.len() == 0 {
        Seq::empty()
    } else if ws.len() == 1 {
        ws[0]
    } else {
        ws[0] + seq![' '] + spaced(ws.drop_first())
    }
}

/// `c` as it may stand on a single line.
pub open spec fn blanked(c: char) -> char {
    if is_control_char(c) {
        ' '
    } else {
        c
    }
}

/// What [`single_line`] makes of a text: control characters count as spaces,
/// and the words that remain stand one space apart.
pub open spec fn one_line(s: Seq<char>) -> Seq<char> {
    spaced(words(s.map_values(|c: char| blanked(c))))
}

proof fn lemma_word_len_at(s: Seq<char>, n: int)
    requires
        0 <= n <= s.len(),
        forall|j: int| 0 <= j < n ==> !is_white(#[trigger] s[j]),
        n < s.len() ==> is_white(s[n]),
    ensures
        word_len(s) == n,
    decreases n,
{
    if n > 0 {
        assert(!is_white(s[0]));
        let rest = s.drop_first();
        assert forall|j: int| 0 <= j < n - 1 implies !is_white(#[trigger] rest[j]) by {
            assert(rest[j] == s[j + 1]);
        }
        lemma_word_len_at(rest, n - 1);
    }
}

proof fn lemma_words_at(s: Seq<char>, i: int, n: int)
    requires
        0 <= i < n <= s.len(),
        forall|j: int| 0 <= j < i ==> is_white(#[trigger] s[j]),
        forall|j: int| i <= j < n ==> !is_white(#[trigger] s[j]),
        n < s.len() ==> is_white(s[n]),
    ensures
        words(s) == seq![s.subrange(i, n)] + words(s.skip(n)),
{
    lemma_trim_start_at(s, i);
    let t = s.skip(i);
    assert forall|j: int| 0 <= j < n - i implies !is_white(#[trigger] t[j]) by {
        assert(t[j] == s[j + i]);
    }
    lemma_word_len_at(t, n - i);
    assert(t.take(n - i) =~= s.subrange(i, n));
    assert(t.skip(n - i) =~= s.skip(n));
}

proof fn lemma_spaced_push(ws: Seq<Seq<char>>, w: Seq<char>)
    ensures
        spaced(ws.push(w)) == (if ws.len() == 0 {
            w
        } else {
            spaced(ws) + seq![' '] + w
        }),
    decreases ws.len(),
{
    let t = ws.push(w);
    if ws.len() > 0 {
        assert(t.drop_first() =~= ws.drop_first().push(w));
        lemma_spaced_push(ws.drop_first(), w);
        if ws.len() == 1 {
            assert(spaced(ws.drop_first().push(w)) == w);
        } else {
            assert(spaced(t) =~= spaced(ws) + seq![' '] + w);
        }
    }
}

/// Flattens a value destined for a single line — a mail header, a chat title, a
/// paging summary. A control character there would start a new header.
pub fn single_line(input: &str) -> (r: String)
    ensures
        r@ == one_line(input@),
{
    let raw = chars_of(input);
    let mut v: Vec<char> = Vec::new();
    let mut k: usize = 0;
    while k < raw.len()
        invariant
            k <= raw.len(),
            v@ == raw@.take(k as int).map_values(|c: char| blanked(c)),
        decreases raw.len() - k,
    {
        let c = raw[k];
        v.push(if is_control(c) {
            ' '
        } else {
            c
        });
        k += 1;
        assert(v@ =~= raw@.take(k as int).map_values(|c: char| blanked(c)));
    }
    assert(raw@.take(raw@.len() as int) =~= raw@);

    let mut out = String::new();
    let ghost mut done: Seq<Seq<char>> = Seq::empty();
    let mut i: usize = 0;
    assert(v@.skip(0) =~= v@);
    assert(done + words(v@) =~= words(v@));
    while i < v.len()
        invariant
            i <= v@.len(),
            words(v@) == done + words(v@.skip(i as int)),
            out@ == spaced(done),
            forall|j: int| 0 <= j < done.len() ==> #[trigger] done[j].len() > 0,
        decreases v.len() - i,
    {
        let ghost rest = v@.skip(i as int);
        let start = i;
        let mut at: usize = i;
        while at < v.len() && is_whitespace(v[at])
            invariant
                start <= at <= v@.len(),
                rest == v@.skip(start as int),
                forall|j: int| 0 <= j < at - start ==> is_white(#[trigger] rest[j]),
            decreases v.len() - at,
        {
            assert(rest[at - start] == v@[at as int]);
            at += 1;
        }
        if at == v.len() {
            proof {
                lemma_trim_start_at(rest, at - start);
                assert(words(rest) =~= Seq::empty());
                assert(v@.skip(at as int) =~= Seq::<char>::empty());
                assert(words(v@.skip(at as int)) =~= Seq::empty());
            }
            i = at;
        } else {
            let mut end: usize = at;
            while end < v.len() && !is_whitespace(v[end])
                invariant
                    start <= at <= end <= v@.len(),
                    rest == v@.skip(start as int),
                    forall|j: int| at - start <= j < end - start ==> !is_white(#[trigger] rest[j]),
                decreases v.len() - end,
            {
                assert(rest[end - start] == v@[end as int]);
                end += 1;
            }
            assert(rest[at - start] == v@[at as int]);
            proof {
                if end < v.len() {
                    assert(rest[end - start] == v@[end as int]);
                }
                lemma_words_at(rest, at - start, end - start);
                assert(rest.skip(end - start) =~= v@.skip(end as int));
                assert(rest.subrange(at - start, end - start) =~= v@.subrange(
                    at as int,
                    end as int,
                ));
                lemma_spaced_push(done, v@.subrange(at as int, end as int));
                assert(done.len() == 0 ==> spaced(done).len() == 0);
                lemma_spaced_len(done);
            }
            let word = string_of(&v, at, end);
            if !out.as_str().is_empty() {
                push_char(&mut out, ' ');
            }
            out.append(word.as_str());
            proof {
                let w = v@.subrange(at as int, end as int);
                assert(out@ =~= spaced(done.push(w)));
                assert(done + words(rest) =~= done.push(w) + words(v@.skip(end as int)));
                done = done.push(w);
            }
            i = end;
        }
    }
    assert(v@.skip(v@.len() as int) =~= Seq::<char>::empty());
    assert(words(v@) =~= done);
    out
}

proof fn lemma_spaced_len(ws: Seq<Seq<char>>)
    requires
        forall|j: int| 0 <= j < ws.len() ==> #[trigger] ws[j].len() > 0,
    ensures
        ws.len() > 0 ==> spaced(ws).len() > 0,
{
    if ws.len() > 0 {
        assert(ws[0].len() > 0);
    }
}

/// Every word is non-empty and holds only characters of the text that are not
/// white space.
pub proof fn lemma_words_are_solid(s: Seq<char>)
    ensures
        forall|k: int| 0 <= k < words(s).len() ==> #[trigger] words(s)[k].len() > 0,
        forall|k: int, j: int|
            0 <= k < words(s).len() && 0 <= j < words(s)[k].len() ==> !is_white(
                #[trigger] words(s)[k][j],
            ) && s.contains(words(s)[k][j]),
    decreases s.len(),
{
    let t = trim_start(s);
    lemma_trim_start_len(s);
    lemma_trim_start_is_suffix(s);
    if t.len() > 0 {
        let n = word_len(t) as int;
        lemma_word_len_bound(t);
        lemma_word_is_solid(t);
        let rest = t.skip(n);
        lemma_words_are_solid(rest);
        let ws = words(s);
        assert forall|k: int| 0 <= k < ws.len() implies #[trigger] ws[k].len() > 0 by {
            if k > 0 {
                assert(ws[k] == words(rest)[k - 1]);
            }
        }
        assert forall|k: int, j: int|
            0 <= k < ws.len() && 0 <= j < ws[k].len() implies !is_white(#[trigger] ws[k][j])
            && s.contains(ws[k][j]) by {
            if k == 0 {
                assert(ws[0][j] == t[j]);
                assert(t[j] == s[j + s.len() - t.len()]);
            } else {
                assert(ws[k] == words(rest)[k - 1]);
                let c = words(rest)[k - 1][j];
                assert(rest.contains(c));
                let m = rest.index_of(c);
                assert(rest[m] == t[m + n]);
                assert(t[m + n] == s[m + n + s.len() - t.len()]);
            }
        }
    }
}

proof fn lemma_trim_start_is_suffix(s: Seq<char>)
    ensures
        trim_start(s).len() <= s.len(),
        trim_start(s) == s.skip(s.len() - trim_start(s).len()),
    decreases s.len(),
{
    if s.len() > 0 && is_white(s[0]) {
        lemma_trim_start_is_suffix(s.drop_first());
        let t = trim_start(s);
        assert(s.drop_first().skip(s.drop_first().len() - t.len()) =~= s.skip(s.len() - t.len()));
    } else {
        assert(s.skip(0) =~= s);
    }
}

proof fn lemma_word_is_solid(t: Seq<char>)
    ensures
        word_len(t) <= t.len(),
        forall|j: int| 0 <= j < word_len(t) ==> !is_white(#[trigger] t[j]),
        t.len() > 0 && !is_white(t[0]) ==> word_len(t) > 0,
    decreases t.len(),
{
    if t.len() > 0 && !is_white(t[0]) {
        lemma_word_is_solid(t.drop_first());
        assert forall|j: int| 0 <= j < word_len(t) implies !is_white(#[trigger] t[j]) by {
            if j > 0 {
                assert(t[j] == t.drop_first()[j - 1]);
            }
        }
    }
}

/// `ws` holds non-empty words without white space or control characters.
pub open spec fn clean_words(ws: Seq<Seq<char>>) -> bool {
    &&& forall|k: int| 0 <= k < ws.len() ==> #[trigger] ws[k].len() > 0
    &&& forall|k: int, j: int|
        0 <= k < ws.len() && 0 <= j < ws[k].len() ==> !is_white(#[trigger] ws[k][j])
            && !is_control_char(ws[k][j])
}

proof fn lemma_words_of_spaced(ws: Seq<Seq<char>>)
    requires
        clean_words(ws),
    ensures
        words(spaced(ws)) == ws,
    decreases ws.len(),
{
    let s = spaced(ws);
    if ws.len() == 0 {
        assert(words(s) =~= ws);
    } else {
        let n = ws[0].len() as int;
        let rest = ws.drop_first();
        assert forall|j: int| 0 <= j < n implies !is_white(#[trigger] s[j]) by {
            assert(s[j] == ws[0][j]);
        }
        assert(clean_words(rest)) by {
            assert forall|k: int| 0 <= k < rest.len() implies #[trigger] rest[k].len() > 0 by {
                assert(rest[k] == ws[k + 1]);
            }
            assert forall|k: int, j: int|
                0 <= k < rest.len() && 0 <= j < rest[k].len() implies !is_white(
                #[trigger] rest[k][j],
            ) && !is_control_char(rest[k][j]) by {
                assert(rest[k][j] == ws[k + 1][j]);
            }
        }
        assert(ws[0].len() > 0);
        if ws.len() > 1 {
            assert(s[n] == ' ');
        }
        lemma_words_at(s, 0, n);
        assert(s.subrange(0, n) =~= ws[0]);
        if ws.len() == 1 {
            assert(s.skip(n) =~= Seq::<char>::empty());
            assert(words(s) =~= ws);
        } else {
            let tail = s.skip(n);
            assert(tail =~= seq![' '] + spaced(rest));
            lemma_words_of_spaced(rest);
            assert(tail.drop_first() =~= spaced(rest));
            assert(trim_start(tail) == trim_start(spaced(rest)));
            assert(words(tail) == words(spaced(rest)));
            assert(words(s) =~= ws);
        }
    }
}

proof fn lemma_spaced_is_clean(ws: Seq<Seq<char>>)
    requires
        clean_words(ws),
    ensures
        forall|i: int|
            0 <= i < spaced(ws).len() ==> !is_control_char(#[trigger] spaced(ws)[i]) && (is_white(
                spaced(ws)[i],
            ) ==> spaced(ws)[i] == ' '),
        spaced(ws).len() > 0 ==> spaced(ws)[0] != ' ' && spaced(ws).last() != ' ',
        forall|i: int|
            0 < i < spaced(ws).len() ==> !(spaced(ws)[i - 1] == ' ' && #[trigger] spaced(ws)[i]
                == ' '),
        ws.len() > 0 ==> spaced(ws).len() > 0,
    decreases ws.len(),
{
    let s = spaced(ws);
    if ws.len() > 0 {
        let n = ws[0].len() as int;
        assert(ws[0].len() > 0);
        assert forall|j: int| 0 <= j < n implies !is_white(#[trigger] s[j]) && !is_control_char(
            s[j],
        ) by {
            assert(s[j] == ws[0][j]);
        }
        if ws.len() > 1 {
            let rest = ws.drop_first();
            assert(clean_words(rest)) by {
                assert forall|k: int| 0 <= k < rest.len() implies #[trigger] rest[k].len() > 0 by {
                    assert(rest[k] == ws[k + 1]);
                }
                assert forall|k: int, j: int|
                    0 <= k < rest.len() && 0 <= j < rest[k].len() implies !is_white(
                    #[trigger] rest[k][j],
                ) && !is_control_char(rest[k][j]) by {
                    assert(rest[k][j] == ws[k + 1][j]);
                }
            }
            lemma_spaced_is_clean(rest);
            let r = spaced(rest);
            assert(s.last() == r.last());
            assert forall|i: int| 0 <= i < s.len() implies !is_control_char(#[trigger] s[i]) && (
            is_white(s[i]) ==> s[i] == ' ') by {
                if i > n {
                    assert(s[i] == r[i - n - 1]);
                }
            }
            assert forall|i: int| 0 < i < s.len() implies !(s[i - 1] == ' ' && #[trigger] s[i]
                == ' ') by {
                if i > n + 1 {
                    assert(s[i] == r[i - n - 1]);
                    assert(s[i - 1] == r[i - n - 2]);
                } else if i == n + 1 {
                    assert(s[i] == r[0]);
                } else if i == n {
                    assert(s[n - 1] == ws[0][n - 1]);
                }
            }
        } else {
            assert(s == ws[0]);
        }
    }
}

proof fn lemma_one_line_words(s: Seq<char>)
    ensures
        clean_words(words(s.map_values(|c: char| blanked(c)))),
{
    let m = s.map_values(|c: char| blanked(c));
    lemma_words_are_solid(m);
    let ws = words(m);
    assert forall|k: int, j: int| 0 <= k < ws.len() && 0 <= j < ws[k].len() implies !is_white(
        #[trigger] ws[k][j],
    ) && !is_control_char(ws[k][j]) by {
        let c = ws[k][j];
        assert(m.contains(c));
        let i = m.index_of(c);
        assert(m[i] == blanked(s[i]));
    }
}

/// A flattened line holds no control character and no white space other than
/// single spaces between words.
pub proof fn law_one_line_is_one_line(s: Seq<char>)
    ensures
        forall|i: int|
            0 <= i < one_line(s).len() ==> !is_control_char(#[trigger] one_line(s)[i]) && (is_white(
                one_line(s)[i],
            ) ==> one_line(s)[i] == ' '),
        one_line(s).len() > 0 ==> one_line(s)[0] != ' ' && one_line(s).last() != ' ',
        forall|i: int|
            0 < i < one_line(s).len() ==> !(one_line(s)[i - 1] == ' ' && #[trigger] one_line(s)[i]
                == ' '),
{
    lemma_one_line_words(s);
    lemma_spaced_is_clean(words(s.map_values(|c: char| blanked(c))));
}

/// Flattening a flattened line changes nothing.
pub proof fn law_one_line_is_idempotent(s: Seq<char>)
    ensures
        one_line(one_line(s)) == one_line(s),
{
    lemma_one_line_words(s);
    let ws = words(s.map_values(|c: char| blanked(c)));
    lemma_spaced_is_clean(ws);
    let r = spaced(ws);
    assert(r.map_values(|c: char| blanked(c)) =~= r);
    lemma_words_of_spaced(ws);
}

/// What [`truncate_chars`] makes of a text.
pub open spec fn capped_chars(s: Seq<char>, max_chars: nat) -> Seq<char> {
    if s.len() <= max_chars {
        s
    } else if max_chars == 0 {
        Seq::empty()
    } else {
        s.take(max_chars - 1).push('…')
    }
}

/// Char-boundary-safe cap for transports with a hard message-length limit;
/// over-limit text ends in `…` within the cap. A cap of zero leaves no room for it.
pub fn truncate_chars(s: &str, max_chars: usize) -> (r: String)
    ensures
        r@ == capped_chars(s@, max_chars as nat),
{
    let v = chars_of(s);
    if v.len() <= max_chars {
        return owned(s);
    }
    if max_chars == 0 {
        return String::new();
    }
    let mut out = string_of(&v, 0, max_chars - 1);
    push_char(&mut out, '…');
    assert(out@ =~= capped_chars(s@, max_chars as nat));
    out
}

/// A capped text is within the cap, is the text itself where that fits, and is
/// otherwise as long as the cap allows and ends in `…` where that fits.
pub proof fn law_capped_chars(s: Seq<char>, max_chars: nat)
    ensures
        capped_chars(s, max_chars).len() <= max_chars,
        s.len() <= max_chars ==> capped_chars(s, max_chars) == s,
        s.len() > max_chars ==> capped_chars(s, max_chars).len() == max_chars,
        s.len() > max_chars && max_chars > 0 ==> capped_chars(s, max_chars).last() == '…',
{
}

/// Length of the longest prefix whose UTF-8 form fits into `budget` bytes.
pub open spec fn fitting(s: Seq<char>, budget: nat) -> nat
    decreases s.len(),
{
    if s.len() == 0 || byte_len(s) <= budget {
        s.len()
    } else {
        fitting(s.drop_last(), budget)
    }
}

proof fn lemma_fitting_at(s: Seq<char>, budget: nat, k: int)
    requires
        0 <= k <= s.len(),
        byte_len(s.take(k)) <= budget,
        k < s.len() ==> byte_len(s.take(k + 1)) > budget,
    ensures
        fitting(s, budget) == k,
    decreases s.len(),
{
    if k < s.len() {
        lemma_byte_len_take(s, k + 1, s.len() as int);
        assert(s.take(s.len() as int) =~= s);
        let t = s.drop_last();
        assert(t.take(k) =~= s.take(k));
        if k < t.len() {
            assert(t.take(k + 1) =~= s.take(k + 1));
        }
        lemma_fitting_at(t, budget, k);
    } else {
        assert(s.take(k) =~= s);
    }
}

/// What [`truncate_bytes`] makes of a text.
pub open spec fn capped_bytes(s: Seq<char>, max_bytes: nat) -> Seq<char> {
    if byte_len(s) <= max_bytes {
        s
    } else if max_bytes < char_bytes('…') {
        s.take(fitting(s, max_bytes) as int)
    } else {
        s.take(fitting(s, (max_bytes - char_bytes('…')) as nat) as int).push('…')
    }
}

/// Like [`truncate_chars`] but for vendors that cap by BYTES (ntfy's 4096);
/// cuts on a char boundary, over-limit text ends in `…` within the cap. Where the
/// ellipsis does not fit, what fits of the text stands without it.
pub fn truncate_bytes(s: &str, max_bytes: usize) -> (r: String)
    ensures
        r@ == capped_bytes(s@, max_bytes as nat),
{
    let v = chars_of(s);
    let ellipsis: usize = len_utf8('…');
    let marked: bool = max_bytes >= ellipsis;
    let budget: usize = if marked {
        max_bytes - ellipsis
    } else {
        max_bytes
    };
    let mut used: usize = 0;
    let mut cut: usize = 0;
    let mut cut_open: bool = true;
    let mut i: usize = 0;
    assert(v@.take(0) =~= Seq::<char>::empty());
    while i < v.len()
        invariant
            cut <= i <= v@.len(),
            v@ == s@,
            budget <= max_bytes,
            used == byte_len(v@.take(i as int)),
            used <= max_bytes,
            byte_len(v@.take(cut as int)) <= budget,
            cut_open ==> cut == i,
            !cut_open ==> cut < i && byte_len(v@.take(cut + 1)) > budget,
            ellipsis == char_bytes('…'),
            marked == (max_bytes >= ellipsis),
            budget == (if marked {
                max_bytes - ellipsis
            } else {
                max_bytes as int
            }),
        decreases v.len() - i,
    {
        let n: usize = len_utf8(v[i]);
        proof {
            assert(v@.take(i + 1) =~= v@.take(i as int).push(v@[i as int]));
            lemma_byte_len_push(v@.take(i as int), v@[i as int]);
        }
        if cut_open {
            if used > budget || n > budget - used {
                cut_open = false;
            } else {
                cut += 1;
            }
        }
        if n > max_bytes - used {
            proof {
                lemma_byte_len_take(v@, i + 1, v@.len() as int);
                assert(v@.take(v@.len() as int) =~= v@);
                lemma_fitting_at(v@, budget as nat, cut as int);
            }
            let mut out = string_of(&v, 0, cut);
            assert(v@.subrange(0, cut as int) =~= v@.take(cut as int));
            if marked {
                push_char(&mut out, '…');
            }
            return out;
        }
        used += n;
        i += 1;
    }
    assert(v@.take(v@.len() as int) =~= v@);
    owned(s)
}

/// A text capped by bytes is within the cap. It is the text itself where that fits;
/// otherwise it is a prefix of the text, followed by `…` where the cap holds that.
pub proof fn law_capped_bytes(s: Seq<char>, max_bytes: nat)
    ensures
        byte_len(capped_bytes(s, max_bytes)) <= max_bytes,
        byte_len(s) <= max_bytes ==> capped_bytes(s, max_bytes) == s,
        byte_len(s) > max_bytes && max_bytes >= char_bytes('…') ==> capped_bytes(
            s,
            max_bytes,
        ).last() == '…' && capped_bytes(s, max_bytes).drop_last().is_prefix_of(s),
        max_bytes < char_bytes('…') ==> capped_bytes(s, max_bytes).is_prefix_of(s),
{
    if byte_len(s) > max_bytes {
        if max_bytes >= char_bytes('…') {
            let budget = (max_bytes - char_bytes('…')) as nat;
            lemma_fitting_fits(s, budget);
            let head = s.take(fitting(s, budget) as int);
            lemma_byte_len_push(head, '…');
            assert(head.push('…').drop_last() =~= head);
        } else {
            lemma_fitting_fits(s, max_bytes);
        }
    }
}

proof fn lemma_fitting_fits(s: Seq<char>, budget: nat)
    ensures
        fitting(s, budget) <= s.len(),
        byte_len(s.take(fitting(s, budget) as int)) <= budget,
    decreases s.len(),
{
    if s.len() == 0 {
        assert(s.take(0) =~= s);
    } else if byte_len(s) <= budget {
        assert(s.take(s.len() as int) =~= s);
    } else {
        lemma_fitting_fits(s.drop_last(), budget);
        let n = fitting(s.drop_last(), budget) as int;
        assert(s.drop_last().take(n) =~= s.take(n));
    }
}

proof fn lemma_filter_add(a: Seq<char>, b: Seq<char>, p: spec_fn(char) -> bool)
    ensures
        (a + b).filter(p) == a.filter(p) + b.filter(p),
    decreases b.len(),
{
    reveal(Seq::filter);
    if b.len() == 0 {
        assert(a + b =~= a);
        assert(a.filter(p) + b.filter(p) =~= a.filter(p));
    } else {
        lemma_filter_add(a, b.drop_last(), p);
        assert((a + b).drop_last() =~= a + b.drop_last());
        assert((a + b).last() == b.last());
        if p(b.last()) {
            assert((a.filter(p) + b.drop_last().filter(p)).push(b.last()) =~= a.filter(p)
                + b.drop_last().filter(p).push(b.last()));
        }
    }
}

proof fn lemma_filter_keeps(a: Seq<char>, p: spec_fn(char) -> bool)
    ensures
        (forall|i: int| 0 <= i < a.len() ==> p(#[trigger] a[i])) ==> a.filter(p) == a,
        (forall|i: int| 0 <= i < a.len() ==> !p(#[trigger] a[i])) ==> a.filter(p) == Seq::<
            char,
        >::empty(),
    decreases a.len(),
{
    reveal(Seq::filter);
    if a.len() == 0 {
        assert(a.filter(p) =~= a);
    } else {
        let front = a.drop_last();
        lemma_filter_keeps(front, p);
        assert(forall|i: int| 0 <= i < front.len() ==> front[i] == #[trigger] a[i]);
        assert(a[a.len() - 1] == a.last());
        if forall|i: int| 0 <= i < a.len() ==> p(#[trigger] a[i]) {
            assert forall|i: int| 0 <= i < front.len() implies p(#[trigger] front[i]) by {
                assert(p(a[i]));
            }
            assert(front.push(a.last()) =~= a);
        }
        if forall|i: int| 0 <= i < a.len() ==> !p(#[trigger] a[i]) {
            assert forall|i: int| 0 <= i < front.len() implies !p(#[trigger] front[i]) by {
                assert(!p(a[i]));
            }
        }
    }
}

proof fn lemma_trim_start_drops_white(s: Seq<char>)
    ensures
        trim_start(s).filter(|c: char| !is_white(c)) == s.filter(|c: char| !is_white(c)),
    decreases s.len(),
{
    let p = |c: char| !is_white(c);
    if s.len() > 0 && is_white(s[0]) {
        lemma_trim_start_drops_white(s.drop_first());
        let h = seq![s[0]];
        assert(s =~= h + s.drop_first());
        lemma_filter_add(h, s.drop_first(), p);
        lemma_filter_keeps(h, p);
        assert(h.filter(p) + s.drop_first().filter(p) =~= s.drop_first().filter(p));
    }
}

proof fn lemma_spaced_words_keep_what_is_solid(s: Seq<char>)
    ensures
        spaced(words(s)).filter(|c: char| !is_white(c)) == s.filter(|c: char| !is_white(c)),
    decreases s.len(),
{
    let p = |c: char| !is_white(c);
    let t = trim_start(s);
    lemma_trim_start_drops_white(s);
    lemma_trim_start_len(s);
    let ws = words(s);
    if t.len() == 0 {
        lemma_filter_keeps(t, p);
        assert(spaced(ws) =~= t);
    } else {
        let n = word_len(t) as int;
        lemma_word_is_solid(t);
        let w = t.take(n);
        let rest = t.skip(n);
        assert(n > 0) by {
            assert(!is_white(t[0]));
        }
        assert(t =~= w + rest);
        lemma_filter_add(w, rest, p);
        assert forall|i: int| 0 <= i < w.len() implies p(#[trigger] w[i]) by {
            assert(w[i] == t[i]);
        }
        lemma_filter_keeps(w, p);
        lemma_spaced_words_keep_what_is_solid(rest);
        let more = words(rest);
        assert(ws == seq![w] + more);
        assert(ws[0] == w);
        assert(ws.drop_first() =~= more);
        if more.len() == 0 {
            let e = Seq::<char>::empty();
            lemma_filter_keeps(e, p);
            assert(spaced(more) =~= e);
            assert(w + e =~= w);
        } else {
            let gap = seq![' '];
            lemma_filter_add(w + gap, spaced(more), p);
            lemma_filter_add(w, gap, p);
            lemma_filter_keeps(gap, p);
            assert(w + gap.filter(p) =~= w);
        }
    }
}

/// Flattening loses nothing that shows: the characters that are neither white space nor control
/// characters come out as they went in, in their order.
pub proof fn law_one_line_keeps_what_shows(s: Seq<char>)
    ensures
        one_line(s).filter(|c: char| !is_white(c)) == s.filter(
            |c: char| !is_white(c) && !is_control_char(c),
        ),
{
    lemma_spaced_words_keep_what_is_solid(s.map_values(|c: char| blanked(c)));
    lemma_blanked_filter(s);
}

proof fn lemma_blanked_filter(s: Seq<char>)
    ensures
        s.map_values(|c: char| blanked(c)).filter(|c: char| !is_white(c)) == s.filter(
            |c: char| !is_white(c) && !is_control_char(c),
        ),
    decreases s.len(),
{
    reveal(Seq::filter);
    let m = s.map_values(|c: char| blanked(c));
    if s.len() > 0 {
        lemma_blanked_filter(s.drop_last());
        assert(m.drop_last() =~= s.drop_last().map_values(|c: char| blanked(c)));
        assert(m.last() == blanked(s.last()));
    }
}

/// Words that stand apart by white space stay apart: a line of clean words with one space
/// between each two is left as it is.
pub proof fn law_a_clean_line_stays(ws: Seq<Seq<char>>)
    requires
        clean_words(ws),
    ensures
        one_line(spaced(ws)) == spaced(ws),
{
    let s = spaced(ws);
    lemma_spaced_is_clean(ws);
    assert(s.map_values(|c: char| blanked(c)) =~= s);
    lemma_words_of_spaced(ws);
}

/// A text that is cut keeps its beginning: by characters, all that the cap holds beside the
/// mark; by bytes, so much that one character more would not fit.
pub proof fn law_a_cut_text_keeps_its_beginning(s: Seq<char>, max: nat)
    ensures
        s.len() > max && max > 0 ==> capped_chars(s, max).drop_last() == s.take(max - 1),
        s.len() > max && max == 0 ==> capped_chars(s, max).len() == 0,
        byte_len(s) > max && max >= char_bytes('…') ==> {
            let kept = capped_bytes(s, max).drop_last();
            kept.len() < s.len() && byte_len(s.take(kept.len() as int + 1)) + char_bytes('…') > max
        },
        byte_len(s) > max && max < char_bytes('…') ==> {
            let kept = capped_bytes(s, max);
            kept.len() < s.len() && byte_len(s.take(kept.len() as int + 1)) > max
        },
        char_bytes('…') == 3,
{
    if s.len() > max && max > 0 {
        assert(s.take(max - 1).push('…').drop_last() =~= s.take(max - 1));
    }
    if byte_len(s) > max {
        let budget = if max >= char_bytes('…') {
            (max - char_bytes('…')) as nat
        } else {
            max
        };
        lemma_fitting_fits(s, budget);
        lemma_fitting_is_most(s, budget);
        let head = s.take(fitting(s, budget) as int);
        assert(head.push('…').drop_last() =~= head);
    }
}

proof fn lemma_fitting_is_most(s: Seq<char>, budget: nat)
    requires
        byte_len(s) > budget,
    ensures
        fitting(s, budget) < s.len(),
        byte_len(s.take(fitting(s, budget) as int + 1)) > budget,
    decreases s.len(),
{
    if s.len() == 0 {
        assert(byte_len(s) == 0);
    } else {
        let front = s.drop_last();
        if byte_len(front) <= budget {
            assert(s.take(s.len() as int) =~= s);
            assert(fitting(front, budget) == front.len());
        } else {
            lemma_fitting_is_most(front, budget);
            let n = fitting(front, budget) as int;
            assert(front.take(n + 1) =~= s.take(n + 1));
        }
    }
}

} // verus!
