//! Character-level text utilities: classes of characters, runs, lines,
//! trimming and whitespace-separated tokens.

use vstd::prelude::*;
use vstd::std_specs::iter::IteratorSpec;

verus! {

/// The characters that Unicode marks as white space.
pub open spec fn is_space(c: char) -> bool {
    let n = c as u32;
    ||| 0x09 <= n <= 0x0D
    ||| n == 0x20
    ||| n == 0x85
    ||| n == 0xA0
    ||| n == 0x1680
    ||| 0x2000 <= n <= 0x200A
    ||| n == 0x2028
    ||| n == 0x2029
    ||| n == 0x202F
    ||| n == 0x205F
    ||| n == 0x3000
}

/// The decimal digits `0` to `9`.
pub open spec fn is_digit(c: char) -> bool {
    48 <= c as u32 <= 57
}

/// A class of characters, used to measure runs.
pub enum CharClass {
    /// White space.
    Space,
    /// Anything but white space.
    NonSpace,
    /// Anything but the given character.
    Not(char),
    /// The decimal digits.
    Digit,
}

impl CharClass {
    /// Whether `c` belongs to the class.
    pub open spec fn holds(self, c: char) -> bool {
        match self {
            CharClass::Space => is_space(c),
            CharClass::NonSpace => !is_space(c),
            CharClass::Not(x) => c != x,
            CharClass::Digit => is_digit(c),
        }
    }

    /// Whether `c` belongs to the class.
    pub fn contains(&self, c: char) -> (b: bool)
        ensures
            b == self.holds(c),
    {
        match self {
            CharClass::Space => is_whitespace(c),
            CharClass::NonSpace => !is_whitespace(c),
            CharClass::Not(x) => c != *x,
            CharClass::Digit => is_digit_char(c),
        }
    }
}

/// Length of the longest prefix of `s` whose characters all belong to `k`.
pub open spec fn span(s: Seq<char>, k: CharClass) -> nat
    decreases s.len(),
{
    if s.len() == 0 || !k.holds(s[0]) {
        0
    } else {
        1 + span(s.drop_first(), k)
    }
}

/// Length of the longest suffix of `s` whose characters all belong to `k`.
pub open spec fn span_back(s: Seq<char>, k: CharClass) -> nat
    decreases s.len(),
{
    if s.len() == 0 || !k.holds(s.last()) {
        0
    } else {
        1 + span_back(s.drop_last(), k)
    }
}

/// `span` stops at the first character outside the class.
pub proof fn lemma_span(s: Seq<char>, k: CharClass)
    ensures
        span(s, k) <= s.len(),
        forall|i: int| 0 <= i < span(s, k) ==> k.holds(#[trigger] s[i]),
        span(s, k) < s.len() ==> !k.holds(s[span(s, k) as int]),
    decreases s.len(),
{
    if s.len() == 0 || !k.holds(s[0]) {
    } else {
        let t = s.drop_first();
        lemma_span(t, k);
        assert forall|i: int| 0 <= i < span(s, k) implies k.holds(#[trigger] s[i]) by {
            if i > 0 {
                assert(s[i] == t[i - 1]);
            }
        }
        if span(s, k) < s.len() {
            assert(s[span(s, k) as int] == t[span(t, k) as int]);
        }
    }
}

/// A prefix inside the class that ends at a character outside it, or at the
/// end, is the span.
pub proof fn lemma_span_is(s: Seq<char>, k: CharClass, n: int)
    requires
        0 <= n <= s.len(),
        forall|i: int| 0 <= i < n ==> k.holds(#[trigger] s[i]),
        n < s.len() ==> !k.holds(s[n]),
    ensures
        span(s, k) == n,
    decreases s.len(),
{
    if n == 0 {
    } else {
        let t = s.drop_first();
        assert(k.holds(s[0]));
        assert forall|i: int| 0 <= i < n - 1 implies k.holds(#[trigger] t[i]) by {
            assert(t[i] == s[i + 1]);
        }
        lemma_span_is(t, k, n - 1);
    }
}

/// `span_back` stops at the last character outside the class.
pub proof fn lemma_span_back(s: Seq<char>, k: CharClass)
    ensures
        span_back(s, k) <= s.len(),
        forall|i: int| s.len() - span_back(s, k) <= i < s.len() ==> k.holds(#[trigger] s[i]),
        span_back(s, k) < s.len() ==> !k.holds(s[s.len() - span_back(s, k) - 1]),
    decreases s.len(),
{
    if s.len() == 0 || !k.holds(s.last()) {
    } else {
        let t = s.drop_last();
        lemma_span_back(t, k);
        assert forall|i: int| s.len() - span_back(s, k) <= i < s.len() implies k.holds(
            #[trigger] s[i],
        ) by {
            if i < s.len() - 1 {
                assert(s[i] == t[i]);
            }
        }
        if span_back(s, k) < s.len() {
            assert(s[s.len() - span_back(s, k) - 1] == t[t.len() - span_back(t, k) - 1]);
        }
    }
}

/// A suffix inside the class that starts after a character outside it, or at
/// the start, is the backward span.
pub proof fn lemma_span_back_is(s: Seq<char>, k: CharClass, n: int)
    requires
        0 <= n <= s.len(),
        forall|i: int| s.len() - n <= i < s.len() ==> k.holds(#[trigger] s[i]),
        n < s.len() ==> !k.holds(s[s.len() - n - 1]),
    ensures
        span_back(s, k) == n,
    decreases s.len(),
{
    if n == 0 {
    } else {
        let t = s.drop_last();
        assert(k.holds(s[s.len() - 1]));
        assert forall|i: int| t.len() - (n - 1) <= i < t.len() implies k.holds(#[trigger] t[i]) by {
            assert(t[i] == s[i]);
        }
        lemma_span_back_is(t, k, n - 1);
    }
}

/// Whether `c` is white space, as `char::is_whitespace` defines it.
pub fn is_whitespace(c: char) -> (b: bool)
    ensures
        b == is_space(c),
{
    let n: u32 = c as u32;
    (0x09 <= n && n <= 0x0D) || n == 0x20 || n == 0x85 || n == 0xA0 || n == 0x1680 || (0x2000 <= n
        && n <= 0x200A) || n == 0x2028 || n == 0x2029 || n == 0x202F || n == 0x205F || n == 0x3000
}

/// Whether `c` is a decimal digit.
pub fn is_digit_char(c: char) -> (b: bool)
    ensures
        b == is_digit(c),
{
    let n: u32 = c as u32;
    48 <= n && n <= 57
}

/// The characters of a string slice, in order.
pub fn chars_of(s: &str) -> (v: Vec<char>)
    ensures
        v@ == s@,
{
    let mut v: Vec<char> = Vec::new();
    let mut it = s.chars();
    loop
        invariant
            v@ + it.remaining() == s@,
            it.obeys_prophetic_iter_laws(),
            it.decrease() is Some,
        ensures
            v@ == s@,
        decreases it.decrease()->0,
    {
        match it.next() {
            Some(c) => {
                v.push(c);
            },
            None => {
                assert(v@ + it.remaining() =~= v@);
                break ;
            },
        }
    }
    v
}

/// `String::push`, which appends the character to the end of the string.
#[verifier::external_body]
fn push_char(s: &mut String, c: char)
    ensures
        final(s)@ == old(s)@.push(c),
{
    s.push(c);
}

/// The string that holds the characters of `v`, in order.
pub fn string_from_chars(v: &[char]) -> (s: String)
    ensures
        s@ == v@,
{
    let mut s = String::new();
    let mut i: usize = 0;
    while i < v.len()
        invariant
            i <= v.len(),
            s@ == v@.take(i as int),
        decreases v.len() - i,
    {
        push_char(&mut s, v[i]);
        i += 1;
        assert(s@ =~= v@.take(i as int));
    }
    assert(v@.take(v.len() as int) =~= v@);
    s
}

/// Length of the run of characters of class `k` that starts at `from`.
pub fn run_length(s: &[char], from: usize, k: &CharClass) -> (n: usize)
    requires
        from <= s.len(),
    ensures
        n == span(s@.skip(from as int), *k),
        from + n <= s.len(),
{
    let mut i: usize = from;
    while i < s.len() && k.contains(s[i])
        invariant
            from <= i <= s.len(),
            forall|j: int| from <= j < i ==> k.holds(#[trigger] s@[j]),
        decreases s.len() - i,
    {
        i += 1;
    }
    proof {
        let t = s@.skip(from as int);
        assert forall|j: int| 0 <= j < i - from implies k.holds(#[trigger] t[j]) by {
            assert(t[j] == s@[from + j]);
        }
        lemma_span_is(t, *k, i - from);
    }
    i - from
}

/// Length of the run of characters of class `k` that ends just before `to`.
pub fn run_length_back(s: &[char], to: usize, k: &CharClass) -> (n: usize)
    requires
        to <= s.len(),
    ensures
        n == span_back(s@.take(to as int), *k),
        n <= to,
{
    let mut i: usize = to;
    while i > 0 && k.contains(s[i - 1])
        invariant
            0 <= i <= to <= s.len(),
            forall|j: int| i <= j < to ==> k.holds(#[trigger] s@[j]),
        decreases i,
    {
        i -= 1;
    }
    proof {
        let t = s@.take(to as int);
        assert forall|j: int| t.len() - (to - i) <= j < t.len() implies k.holds(#[trigger] t[j]) by {
            assert(t[j] == s@[j]);
        }
        lemma_span_back_is(t, *k, to - i);
    }
    to - i
}

/// A copy of the characters of `s` from `from` up to `to`.
pub fn copy_range(s: &[char], from: usize, to: usize) -> (v: Vec<char>)
    requires
        from <= to <= s.len(),
    ensures
        v@ == s@.subrange(from as int, to as int),
{
    let mut v: Vec<char> = Vec::new();
    let mut i: usize = from;
    while i < to
        invariant
            from <= i <= to <= s.len(),
            v@ == s@.subrange(from as int, i as int),
        decreases to - i,
    {
        v.push(s[i]);
        i += 1;
        assert(v@ =~= s@.subrange(from as int, i as int));
    }
    v
}


/// `l` without one trailing carriage return.
pub open spec fn strip_cr(l: Seq<char>) -> Seq<char> {
    if l.len() > 0 && l.last() == '\r' {
        l.drop_last()
    } else {
        l
    }
}

/// The lines of a text, as `str::lines` yields them: the text is cut after
/// each line feed, the line feed and a carriage return before it are
/// dropped, and nothing follows a final line feed.
pub open spec fn lines_of(s: Seq<char>) -> Seq<Seq<char>>
    decreases s.len(),
{
    if s.len() == 0 {
        Seq::empty()
    } else {
        let n = span(s, CharClass::Not('\n'));
        if n >= s.len() {
            seq![s]
        } else {
            seq![strip_cr(s.take(n as int))] + lines_of(s.skip(n as int + 1))
        }
    }
}

/// `s` without its leading and trailing white space, as `str::trim` gives it.
pub open spec fn trim_of(s: Seq<char>) -> Seq<char> {
    let t = s.skip(span(s, CharClass::Space) as int);
    t.take(t.len() - span_back(t, CharClass::Space))
}

/// The maximal runs of non-white-space characters of `s`, in order, as
/// `str::split_whitespace` yields them.
pub open spec fn tokens_of(s: Seq<char>) -> Seq<Seq<char>>
    decreases s.len(),
{
    if s.len() == 0 {
        Seq::empty()
    } else if is_space(s[0]) {
        tokens_of(s.drop_first())
    } else {
        let w = span(s, CharClass::NonSpace);
        if 0 < w <= s.len() {
            seq![s.take(w as int)] + tokens_of(s.skip(w as int))
        } else {
            Seq::empty()
        }
    }
}

/// The parts laid end to end with `sep` between neighbours.
pub open spec fn join_with(parts: Seq<Seq<char>>, sep: Seq<char>) -> Seq<char>
    decreases parts.len(),
{
    if parts.len() == 0 {
        Seq::empty()
    } else if parts.len() == 1 {
        parts[0]
    } else {
        parts[0] + sep + join_with(parts.drop_first(), sep)
    }
}

/// Joining one more part appends the separator and the part.
pub proof fn lemma_join_push(parts: Seq<Seq<char>>, sep: Seq<char>, x: Seq<char>)
    ensures
        join_with(parts.push(x), sep) == if parts.len() == 0 {
            x
        } else {
            join_with(parts, sep) + sep + x
        },
    decreases parts.len(),
{
    let all = parts.push(x);
    if parts.len() == 0 {
        assert(all[0] == x);
    } else if parts.len() == 1 {
        assert(all.drop_first() =~= seq![x]);
        assert(join_with(seq![x], sep) == x);
    } else {
        let rest = parts.drop_first();
        lemma_join_push(rest, sep, x);
        assert(all.drop_first() =~= rest.push(x));
        assert(all[0] == parts[0]);
        assert(join_with(all, sep) =~= join_with(parts, sep) + sep + x);
    }
}

/// The character sequences that the items of `v` hold.
pub open spec fn views(v: Seq<Vec<char>>) -> Seq<Seq<char>> {
    Seq::new(v.len(), |i: int| v[i]@)
}

/// One more item adds its characters at the end.
pub proof fn lemma_views_push(v: Seq<Vec<char>>, x: Vec<char>)
    ensures
        views(v.push(x)) == views(v).push(x@),
{
    assert(views(v.push(x)) =~= views(v).push(x@));
}

/// The lines of `s`.
pub fn split_lines(s: &[char]) -> (lines: Vec<Vec<char>>)
    ensures
        views(lines@) == lines_of(s@),
{
    let mut lines: Vec<Vec<char>> = Vec::new();
    let mut pos: usize = 0;
    let newline = CharClass::Not('\n');
    assert(s@.skip(0) =~= s@);
    assert(views(lines@) + lines_of(s@) =~= lines_of(s@));
    while pos < s.len()
        invariant
            pos <= s.len(),
            newline == CharClass::Not('\n'),
            lines_of(s@) == views(lines@) + lines_of(s@.skip(pos as int)),
        decreases s.len() - pos,
    {
        let n = run_length(s, pos, &newline);
        let end = pos + n;
        let ghost rest = s@.skip(pos as int);
        let ghost before = views(lines@);
        if end >= s.len() {
            let line = copy_range(s, pos, end);
            assert(line@ =~= rest);
            lines.push(line);
            pos = end;
            assert(views(lines@) =~= before + seq![rest]);
            assert(lines_of(s@.skip(pos as int)) =~= Seq::<Seq<char>>::empty());
        } else {
            let stop = if end > pos && s[end - 1] == '\r' {
                end - 1
            } else {
                end
            };
            let line = copy_range(s, pos, stop);
            assert(line@ =~= strip_cr(rest.take(n as int))) by {
                assert(rest.take(n as int) =~= s@.subrange(pos as int, end as int));
            }
            lines.push(line);
            pos = end + 1;
            assert(views(lines@) =~= before + seq![strip_cr(rest.take(n as int))]);
            assert(rest.skip(n + 1) =~= s@.skip(pos as int));
        }
    }
    assert(s@.skip(pos as int).len() == 0);
    assert(views(lines@) + Seq::<Seq<char>>::empty() =~= views(lines@));
    lines
}

/// `s` without its leading and trailing white space.
pub fn trim(s: &[char]) -> (t: Vec<char>)
    ensures
        t@ == trim_of(s@),
{
    let space = CharClass::Space;
    assert(s@.skip(0) =~= s@);
    assert(s@.take(s.len() as int) =~= s@);
    let a = run_length(s, 0, &space);
    let b = run_length_back(s, s.len(), &space);
    proof {
        // the leading run and the trailing run do not overlap, unless the
        // whole of `s` is white space
        lemma_trim_bounds(s@);
    }
    if a >= s.len() - b {
        let t = copy_range(s, a, a);
        assert(t@ =~= trim_of(s@));
        t
    } else {
        let t = copy_range(s, a, s.len() - b);
        assert(t@ =~= trim_of(s@));
        t
    }
}

/// How the trailing run of white space of `s` relates to that of `s` without
/// its leading run.
pub proof fn lemma_trim_bounds(s: Seq<char>)
    ensures
        ({
            let a = span(s, CharClass::Space);
            let b = span_back(s, CharClass::Space);
            let t = s.skip(a as int);
            &&& a <= s.len()
            &&& b <= s.len()
            &&& a + b >= s.len() ==> a == s.len() && b == s.len()
            &&& a + b < s.len() ==> span_back(t, CharClass::Space) == b
            &&& a == s.len() ==> span_back(t, CharClass::Space) == 0
        }),
{
    let k = CharClass::Space;
    let a = span(s, k);
    let b = span_back(s, k);
    let t = s.skip(a as int);
    lemma_span(s, k);
    lemma_span_back(s, k);
    if a + b >= s.len() {
        if a < s.len() {
            // the first character outside the leading run lies in the trailing run
            assert(k.holds(s[a as int]));
        }
        if b < s.len() {
            assert(k.holds(s[s.len() - b - 1]));
        }
    } else {
        assert forall|i: int| t.len() - b <= i < t.len() implies k.holds(#[trigger] t[i]) by {
            assert(t[i] == s[a + i]);
        }
        assert(t[t.len() - b - 1] == s[s.len() - b - 1]);
        lemma_span_back_is(t, k, b as int);
    }
}

/// The white-space-separated tokens of `s`.
pub fn split_whitespace(s: &[char]) -> (tokens: Vec<Vec<char>>)
    ensures
        views(tokens@) == tokens_of(s@),
{
    let mut tokens: Vec<Vec<char>> = Vec::new();
    let mut pos: usize = 0;
    let word = CharClass::NonSpace;
    assert(s@.skip(0) =~= s@);
    assert(views(tokens@) + tokens_of(s@) =~= tokens_of(s@));
    while pos < s.len()
        invariant
            pos <= s.len(),
            word == CharClass::NonSpace,
            tokens_of(s@) == views(tokens@) + tokens_of(s@.skip(pos as int)),
        decreases s.len() - pos,
    {
        let ghost rest = s@.skip(pos as int);
        let ghost before = views(tokens@);
        assert(rest[0] == s@[pos as int]);
        if is_whitespace(s[pos]) {
            pos += 1;
            assert(rest.drop_first() =~= s@.skip(pos as int));
        } else {
            let w = run_length(s, pos, &word);
            assert(w > 0);
            let token = copy_range(s, pos, pos + w);
            assert(token@ =~= rest.take(w as int));
            tokens.push(token);
            pos += w;
            assert(views(tokens@) =~= before + seq![rest.take(w as int)]);
            assert(rest.skip(w as int) =~= s@.skip(pos as int));
        }
    }
    assert(s@.skip(pos as int).len() == 0);
    assert(views(tokens@) + Seq::<Seq<char>>::empty() =~= views(tokens@));
    tokens
}

/// Whether two slices hold the same characters.
pub fn same_chars(a: &[char], b: &[char]) -> (r: bool)
    ensures
        r == (a@ == b@),
{
    if a.len() != b.len() {
        return false;
    }
    let mut i: usize = 0;
    while i < a.len()
        invariant
            i <= a.len() == b.len(),
            forall|j: int| 0 <= j < i ==> a@[j] == b@[j],
        decreases a.len() - i,
    {
        if a[i] != b[i] {
            return false;
        }
        i += 1;
    }
    assert(a@ =~= b@);
    true
}

/// Appends the characters of `tail` to `out`.
pub fn push_chars(out: &mut Vec<char>, tail: &[char])
    ensures
        final(out)@ == old(out)@ + tail@,
{
    let mut i: usize = 0;
    while i < tail.len()
        invariant
            i <= tail.len(),
            out@ == old(out)@ + tail@.take(i as int),
        decreases tail.len() - i,
    {
        out.push(tail[i]);
        i += 1;
        assert(out@ =~= old(out)@ + tail@.take(i as int));
    }
    assert(tail@.take(tail.len() as int) =~= tail@);
}

/// Appends the characters of the string slice `tail` to `out`.
pub fn push_str(out: &mut Vec<char>, tail: &str)
    ensures
        final(out)@ == old(out)@ + tail@,
{
    let chars = chars_of(tail);
    push_chars(out, chars.as_slice());
}

/// The lines laid end to end, each followed by a line feed.
pub open spec fn terminated(lines: Seq<Seq<char>>) -> Seq<char>
    decreases lines.len(),
{
    if lines.len() == 0 {
        Seq::empty()
    } else {
        lines[0] + seq!['\n'] + terminated(lines.drop_first())
    }
}

/// One more line adds the line and a line feed at the end.
pub proof fn lemma_terminated_push(lines: Seq<Seq<char>>, l: Seq<char>)
    ensures
        terminated(lines.push(l)) == terminated(lines) + l + seq!['\n'],
    decreases lines.len(),
{
    let all = lines.push(l);
    if lines.len() == 0 {
        assert(all.drop_first() =~= Seq::<Seq<char>>::empty());
        assert(all[0] == l);
        assert(terminated(all.drop_first()) =~= Seq::<char>::empty());
        assert(terminated(lines) =~= Seq::<char>::empty());
        assert(terminated(all) =~= terminated(lines) + l + seq!['\n']);
    } else {
        lemma_terminated_push(lines.drop_first(), l);
        assert(all.drop_first() =~= lines.drop_first().push(l));
        assert(all[0] == lines[0]);
        assert(terminated(all) =~= terminated(lines) + l + seq!['\n']);
    }
}

/// The parts laid end to end with `sep` between neighbours.
pub fn join(parts: &Vec<Vec<char>>, sep: &[char]) -> (r: Vec<char>)
    ensures
        r@ == join_with(views(parts@), sep@),
{
    let mut r: Vec<char> = Vec::new();
    let mut i: usize = 0;
    let ghost all = views(parts@);
    assert(all.take(0) =~= Seq::<Seq<char>>::empty());
    while i < parts.len()
        invariant
            i <= parts.len(),
            all == views(parts@),
            r@ == join_with(all.take(i as int), sep@),
        decreases parts.len() - i,
    {
        proof {
            lemma_join_push(all.take(i as int), sep@, all[i as int]);
            assert(all.take(i as int).push(all[i as int]) =~= all.take(i + 1));
        }
        if i > 0 {
            push_chars(&mut r, sep);
        }
        push_chars(&mut r, parts[i].as_slice());
        i += 1;
    }
    assert(all.take(i as int) =~= all);
    r
}

/// The lines laid end to end, each followed by a line feed.
pub fn terminate(lines: &Vec<Vec<char>>) -> (r: Vec<char>)
    ensures
        r@ == terminated(views(lines@)),
{
    let mut r: Vec<char> = Vec::new();
    let mut i: usize = 0;
    let ghost all = views(lines@);
    assert(all.take(0) =~= Seq::<Seq<char>>::empty());
    while i < lines.len()
        invariant
            i <= lines.len(),
            all == views(lines@),
            r@ == terminated(all.take(i as int)),
        decreases lines.len() - i,
    {
        proof {
            lemma_terminated_push(all.take(i as int), all[i as int]);
            assert(all.take(i as int).push(all[i as int]) =~= all.take(i + 1));
        }
        push_chars(&mut r, lines[i].as_slice());
        r.push('\n');
        i += 1;
    }
    assert(all.take(i as int) =~= all);
    r
}

/// The character sequences of the strings of `v`.
pub open spec fn string_views(v: Seq<String>) -> Seq<Seq<char>> {
    Seq::new(v.len(), |i: int| v[i]@)
}

/// The characters of each string of `v`.
pub fn chars_of_all(v: &Vec<String>) -> (r: Vec<Vec<char>>)
    ensures
        views(r@) == string_views(v@),
{
    let mut r: Vec<Vec<char>> = Vec::new();
    let mut i: usize = 0;
    while i < v.len()
        invariant
            i <= v.len(),
            r.len() == i,
            forall|j: int| 0 <= j < i ==> (#[trigger] r[j])@ == v[j]@,
        decreases v.len() - i,
    {
        r.push(chars_of(v[i].as_str()));
        i += 1;
    }
    assert(views(r@) =~= string_views(v@));
    r
}

/// The number of a character.
pub open spec fn code(c: char) -> u32 {
    c as u32
}

/// Different characters have different numbers.
pub proof fn lemma_code_injective(x: char, y: char)
    ensures
        code(x) == code(y) ==> x == y,
{
}

/// The number of a character.
pub fn code_of(c: char) -> (n: u32)
    ensures
        n == code(c),
{
    c as u32
}

/// Whether `a` comes before `b` in the order of strings: at the first place
/// where they differ `a` has the smaller character, or `a` ends there and
/// `b` does not.
pub open spec fn comes_before(a: Seq<char>, b: Seq<char>) -> bool
    decreases a.len(),
{
    if b.len() == 0 {
        false
    } else if a.len() == 0 {
        true
    } else if a[0] != b[0] {
        code(a[0]) < code(b[0])
    } else {
        comes_before(a.drop_first(), b.drop_first())
    }
}

/// Nothing comes before itself.
pub proof fn lemma_order_irreflexive(a: Seq<char>)
    ensures
        !comes_before(a, a),
    decreases a.len(),
{
    if a.len() > 0 {
        lemma_order_irreflexive(a.drop_first());
    }
}

/// What comes before something that comes before a third comes before the
/// third.
pub proof fn lemma_order_transitive(a: Seq<char>, b: Seq<char>, c: Seq<char>)
    requires
        comes_before(a, b),
        comes_before(b, c),
    ensures
        comes_before(a, c),
    decreases a.len(),
{
    if a.len() > 0 && a[0] == b[0] && b[0] == c[0] {
        lemma_order_transitive(a.drop_first(), b.drop_first(), c.drop_first());
    }
}

/// Of two different strings one comes before the other.
pub proof fn lemma_order_total(a: Seq<char>, b: Seq<char>)
    ensures
        a == b || comes_before(a, b) || comes_before(b, a),
    decreases a.len(),
{
    if a.len() > 0 && b.len() > 0 {
        if a[0] == b[0] {
            lemma_order_total(a.drop_first(), b.drop_first());
            if a.drop_first() == b.drop_first() {
                assert(a =~= seq![a[0]] + a.drop_first());
                assert(b =~= seq![b[0]] + b.drop_first());
            }
        } else {
            lemma_code_injective(a[0], b[0]);
        }
    } else if a.len() == 0 && b.len() == 0 {
        assert(a =~= b);
    }
}

/// How one string stands to another in the order of strings.
#[derive(Debug, Clone, Copy, PartialEq, Eq, Structural)]
pub enum Place {
    Before,
    Same,
    After,
}

/// How `a` stands to `b` in the order of strings.
pub fn place_of(a: &[char], b: &[char]) -> (r: Place)
    ensures
        match r {
            Place::Before => comes_before(a@, b@),
            Place::Same => a@ == b@,
            Place::After => comes_before(b@, a@),
        },
{
    let mut i: usize = 0;
    assert(a@.skip(0) =~= a@);
    assert(b@.skip(0) =~= b@);
    while i < a.len() && i < b.len()
        invariant
            i <= a.len(),
            i <= b.len(),
            a@.take(i as int) == b@.take(i as int),
            comes_before(a@, b@) == comes_before(a@.skip(i as int), b@.skip(i as int)),
            comes_before(b@, a@) == comes_before(b@.skip(i as int), a@.skip(i as int)),
        decreases a.len() - i,
    {
        let ghost x = a@.skip(i as int);
        let ghost y = b@.skip(i as int);
        assert(x[0] == a@[i as int] && y[0] == b@[i as int]);
        assert(x.drop_first() =~= a@.skip(i + 1));
        assert(y.drop_first() =~= b@.skip(i + 1));
        let x = code_of(a[i]);
        let y = code_of(b[i]);
        proof {
            lemma_code_injective(a@[i as int], b@[i as int]);
        }
        if x < y {
            return Place::Before;
        }
        if y < x {
            return Place::After;
        }
        assert(a@.take(i + 1) =~= a@.take(i as int).push(a@[i as int]));
        assert(b@.take(i + 1) =~= b@.take(i as int).push(b@[i as int]));
        i += 1;
    }
    if i < b.len() {
        assert(a@.skip(i as int).len() == 0);
        Place::Before
    } else if i < a.len() {
        assert(b@.skip(i as int).len() == 0);
        Place::After
    } else {
        assert(a@.take(i as int) =~= a@);
        assert(b@.take(i as int) =~= b@);
        Place::Same
    }
}

} // verus!
