//! What reading gives back of text that was put together: lines that were
//! laid end to end, tokens that were joined, and text between white space.

use vstd::prelude::*;
use crate::text::{
    is_space, join_with, lemma_span_back_is, lemma_span_is, lines_of, span, strip_cr, terminated,
    tokens_of, trim_of, CharClass,
};

verus! {

/// Whether `s` is free of the character `c`.
pub open spec fn free_of(s: Seq<char>, c: char) -> bool {
    forall|i: int| 0 <= i < s.len() ==> #[trigger] s[i] != c
}

/// Whether `s` can stand as one line of a text: it holds no line feed and
/// does not end in a carriage return.
pub open spec fn is_line(s: Seq<char>) -> bool {
    free_of(s, '\n') && (s.len() == 0 || s.last() != '\r')
}

/// Whether `s` is a token: not empty, and free of white space.
pub open spec fn is_token(s: Seq<char>) -> bool {
    s.len() > 0 && forall|i: int| 0 <= i < s.len() ==> !is_space(#[trigger] s[i])
}

/// Whether `s` is nothing but white space.
pub open spec fn is_blank_text(s: Seq<char>) -> bool {
    forall|i: int| 0 <= i < s.len() ==> is_space(#[trigger] s[i])
}

/// Whether `s` neither starts nor ends with white space.
pub open spec fn is_trimmed(s: Seq<char>) -> bool {
    s.len() == 0 || (!is_space(s[0]) && !is_space(s.last()))
}

/// A text free of `c`, followed by `c`, runs up to that `c`.
pub proof fn lemma_span_stops(head: Seq<char>, c: char, rest: Seq<char>)
    requires
        free_of(head, c),
    ensures
        span(head + seq![c] + rest, CharClass::Not(c)) == head.len(),
{
    let s = head + seq![c] + rest;
    assert forall|i: int| 0 <= i < head.len() implies CharClass::Not(c).holds(#[trigger] s[i]) by {
        assert(s[i] == head[i]);
    }
    assert(s[head.len() as int] == c);
    lemma_span_is(s, CharClass::Not(c), head.len() as int);
}

/// A text free of `c` runs to its end.
pub proof fn lemma_span_whole(s: Seq<char>, c: char)
    requires
        free_of(s, c),
    ensures
        span(s, CharClass::Not(c)) == s.len(),
{
    lemma_span_is(s, CharClass::Not(c), s.len() as int);
}

/// A line that is followed by a line feed is the first line of the text.
pub proof fn lemma_first_line(l: Seq<char>, rest: Seq<char>)
    requires
        is_line(l),
    ensures
        lines_of(l + seq!['\n'] + rest) == seq![l] + lines_of(rest),
{
    let s = l + seq!['\n'] + rest;
    lemma_span_stops(l, '\n', rest);
    assert(s.take(l.len() as int) =~= l);
    assert(s.skip(l.len() as int + 1) =~= rest);
    assert(strip_cr(l) == l);
}

/// The lines of lines laid end to end, each followed by a line feed, are
/// those lines.
pub proof fn lemma_lines_of_terminated(lines: Seq<Seq<char>>)
    requires
        forall|i: int| 0 <= i < lines.len() ==> is_line(#[trigger] lines[i]),
    ensures
        lines_of(terminated(lines)) == lines,
    decreases lines.len(),
{
    if lines.len() == 0 {
        assert(lines_of(terminated(lines)) =~= lines);
    } else {
        let rest = lines.drop_first();
        assert forall|i: int| 0 <= i < rest.len() implies is_line(#[trigger] rest[i]) by {
            assert(rest[i] == lines[i + 1]);
        }
        lemma_lines_of_terminated(rest);
        lemma_first_line(lines[0], terminated(rest));
        assert(seq![lines[0]] + rest =~= lines);
    }
}

/// The lines of lines that are not empty, laid end to end with a line feed
/// between them, are those lines.
pub proof fn lemma_lines_of_joined(lines: Seq<Seq<char>>)
    requires
        forall|i: int| 0 <= i < lines.len() ==> is_line(#[trigger] lines[i]) && lines[i].len() > 0,
    ensures
        lines_of(join_with(lines, seq!['\n'])) == lines,
    decreases lines.len(),
{
    if lines.len() == 0 {
        assert(lines_of(join_with(lines, seq!['\n'])) =~= lines);
    } else if lines.len() == 1 {
        let l = lines[0];
        lemma_span_whole(l, '\n');
        assert(lines_of(l) =~= seq![l]);
        assert(seq![l] =~= lines);
    } else {
        let rest = lines.drop_first();
        assert forall|i: int| 0 <= i < rest.len() implies is_line(#[trigger] rest[i])
            && rest[i].len() > 0 by {
            assert(rest[i] == lines[i + 1]);
        }
        lemma_lines_of_joined(rest);
        lemma_first_line(lines[0], join_with(rest, seq!['\n']));
        assert(seq![lines[0]] + rest =~= lines);
    }
}

/// White space in front of a text adds nothing to its tokens.
pub proof fn lemma_tokens_after_blank(blank: Seq<char>, rest: Seq<char>)
    requires
        is_blank_text(blank),
    ensures
        tokens_of(blank + rest) == tokens_of(rest),
    decreases blank.len(),
{
    if blank.len() == 0 {
        assert(blank + rest =~= rest);
    } else {
        let s = blank + rest;
        assert(s[0] == blank[0]);
        assert(s.drop_first() =~= blank.drop_first() + rest);
        assert forall|i: int| 0 <= i < blank.drop_first().len() implies is_space(
            #[trigger] blank.drop_first()[i],
        ) by {
            assert(blank.drop_first()[i] == blank[i + 1]);
        }
        lemma_tokens_after_blank(blank.drop_first(), rest);
    }
}

/// A token in front of a text that is empty or starts with white space is
/// the first token of the whole.
pub proof fn lemma_tokens_after_token(token: Seq<char>, rest: Seq<char>)
    requires
        is_token(token),
        rest.len() == 0 || is_space(rest[0]),
    ensures
        tokens_of(token + rest) == seq![token] + tokens_of(rest),
{
    let s = token + rest;
    assert(s[0] == token[0]);
    assert forall|i: int| 0 <= i < token.len() implies CharClass::NonSpace.holds(#[trigger] s[i]) by {
        assert(s[i] == token[i]);
    }
    if rest.len() > 0 {
        assert(s[token.len() as int] == rest[0]);
    }
    lemma_span_is(s, CharClass::NonSpace, token.len() as int);
    assert(s.take(token.len() as int) =~= token);
    assert(s.skip(token.len() as int) =~= rest);
}

/// A text that is nothing but white space has no tokens.
pub proof fn lemma_tokens_of_blank(blank: Seq<char>)
    requires
        is_blank_text(blank),
    ensures
        tokens_of(blank) == Seq::<Seq<char>>::empty(),
{
    lemma_tokens_after_blank(blank, Seq::empty());
    assert(blank + Seq::<char>::empty() =~= blank);
}

/// The tokens of tokens that were joined with a space are those tokens.
pub proof fn lemma_tokens_of_joined(tokens: Seq<Seq<char>>)
    requires
        forall|i: int| 0 <= i < tokens.len() ==> is_token(#[trigger] tokens[i]),
    ensures
        tokens_of(join_with(tokens, seq![' '])) == tokens,
    decreases tokens.len(),
{
    if tokens.len() == 0 {
        assert(tokens_of(join_with(tokens, seq![' '])) =~= tokens);
    } else if tokens.len() == 1 {
        lemma_tokens_after_token(tokens[0], Seq::empty());
        assert(tokens[0] + Seq::<char>::empty() =~= tokens[0]);
        assert(seq![tokens[0]] + Seq::<Seq<char>>::empty() =~= tokens);
    } else {
        let rest = tokens.drop_first();
        assert forall|i: int| 0 <= i < rest.len() implies is_token(#[trigger] rest[i]) by {
            assert(rest[i] == tokens[i + 1]);
        }
        lemma_tokens_of_joined(rest);
        let tail = join_with(rest, seq![' ']);
        assert(is_space(' '));
        lemma_tokens_after_token(tokens[0], seq![' '] + tail);
        lemma_tokens_after_blank(seq![' '], tail);
        assert(tokens[0] + seq![' '] + tail =~= tokens[0] + (seq![' '] + tail));
        assert(seq![tokens[0]] + rest =~= tokens);
    }
}

/// Tokens that were joined with a space are free of whatever the tokens are
/// free of, if that is no space.
pub proof fn lemma_joined_free_of(tokens: Seq<Seq<char>>, c: char)
    requires
        c != ' ',
        forall|i: int| 0 <= i < tokens.len() ==> free_of(#[trigger] tokens[i], c),
    ensures
        free_of(join_with(tokens, seq![' ']), c),
    decreases tokens.len(),
{
    if tokens.len() >= 2 {
        let rest = tokens.drop_first();
        assert forall|i: int| 0 <= i < rest.len() implies free_of(#[trigger] rest[i], c) by {
            assert(rest[i] == tokens[i + 1]);
        }
        lemma_joined_free_of(rest, c);
        let s = join_with(tokens, seq![' ']);
        let tail = join_with(rest, seq![' ']);
        assert forall|i: int| 0 <= i < s.len() implies #[trigger] s[i] != c by {
            if i < tokens[0].len() {
                assert(s[i] == tokens[0][i]);
            } else if i == tokens[0].len() {
                assert(s[i] == ' ');
            } else {
                assert(s[i] == tail[i - tokens[0].len() - 1]);
            }
        }
    }
}

/// Tokens that were joined with a space neither start nor end with white
/// space.
pub proof fn lemma_joined_trimmed(tokens: Seq<Seq<char>>)
    requires
        forall|i: int| 0 <= i < tokens.len() ==> is_token(#[trigger] tokens[i]),
    ensures
        is_trimmed(join_with(tokens, seq![' '])),
        tokens.len() > 0 ==> join_with(tokens, seq![' ']).len() > 0,
    decreases tokens.len(),
{
    if tokens.len() >= 2 {
        let rest = tokens.drop_first();
        assert forall|i: int| 0 <= i < rest.len() implies is_token(#[trigger] rest[i]) by {
            assert(rest[i] == tokens[i + 1]);
        }
        lemma_joined_trimmed(rest);
        let s = join_with(tokens, seq![' ']);
        let tail = join_with(rest, seq![' ']);
        assert(s[0] == tokens[0][0]);
        assert(s.last() == tail.last());
    } else if tokens.len() == 1 {
        let t = tokens[0];
        assert(!is_space(t[0]));
        assert(!is_space(t[t.len() - 1]));
    }
}

/// A text that neither starts nor ends with white space is what is left of
/// it, and of it between white space, when the white space around is cut.
pub proof fn lemma_trim_between(before: Seq<char>, s: Seq<char>, after: Seq<char>)
    requires
        is_blank_text(before),
        is_blank_text(after),
        is_trimmed(s),
    ensures
        trim_of(before + s + after) == s,
{
    let all = before + s + after;
    let k = CharClass::Space;
    if s.len() == 0 {
        assert forall|i: int| 0 <= i < all.len() implies k.holds(#[trigger] all[i]) by {
            if i < before.len() {
                assert(all[i] == before[i]);
            } else {
                assert(all[i] == after[i - before.len()]);
            }
        }
        lemma_span_is(all, k, all.len() as int);
        let t = all.skip(all.len() as int);
        assert(t.len() == 0);
        assert(trim_of(all) =~= s);
    } else {
        assert forall|i: int| 0 <= i < before.len() implies k.holds(#[trigger] all[i]) by {
            assert(all[i] == before[i]);
        }
        assert(all[before.len() as int] == s[0]);
        lemma_span_is(all, k, before.len() as int);
        let t = all.skip(before.len() as int);
        assert(t =~= s + after);
        assert forall|i: int| t.len() - after.len() <= i < t.len() implies k.holds(
            #[trigger] t[i],
        ) by {
            assert(t[i] == after[i - s.len()]);
        }
        assert(t[t.len() - after.len() - 1] == s.last());
        lemma_span_back_is(t, k, after.len() as int);
        assert(t.take(t.len() - after.len()) =~= s);
    }
}

/// A text that neither starts nor ends with white space stays as it is when
/// it is trimmed.
pub proof fn lemma_trim_kept(s: Seq<char>)
    requires
        is_trimmed(s),
    ensures
        trim_of(s) == s,
{
    lemma_trim_between(Seq::empty(), s, Seq::empty());
    assert(Seq::<char>::empty() + s + Seq::<char>::empty() =~= s);
}

} // verus!
