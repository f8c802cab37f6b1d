//! What holds of reading and writing tag documents together.

use vstd::prelude::*;
use crate::decimal::{fixed_text, Decimal};
use crate::decimal_lemmas::{
    lemma_int_text, lemma_number_text_is_token, lemma_parse_decimal_text, lemma_parse_fixed_text,
    lemma_parse_i64_text,
};
use crate::incar::document::{
    by_name, document_of, has_name, lemma_by_name_insert, names_ascend, position,
    strict_document_of, tag_texts,
};
use crate::incar::schema::{lookup_in, IncarTagType};
use crate::incar::tag::{
    assignment, before_comment, bool_of, construct_spec, declaration_of, reals_of, tag_of_line,
    value_of, IncarFault, TagView, ARRAY_PLACES,
};
use crate::number::int_text;
use crate::text::{is_space, join_with, lines_of};
use crate::text_lemmas::{
    free_of, is_line, is_token, is_trimmed, lemma_joined_free_of, lemma_joined_trimmed,
    lemma_lines_of_joined, lemma_span_stops, lemma_span_whole, lemma_tokens_of_blank,
    lemma_tokens_of_joined, lemma_trim_between,
};

verus! {

/// Whether a text can be the value of a declaration and be read back as it
/// is: it neither starts nor ends with white space, and holds neither the
/// start of a comment nor a line feed.
pub open spec fn is_value_text(s: Seq<char>) -> bool {
    is_trimmed(s) && free_of(s, '#') && free_of(s, '\n')
}

/// Whether a text can be the name of a declaration and be read back as it
/// is: a value text without `=`.
pub open spec fn is_name_text(s: Seq<char>) -> bool {
    is_value_text(s) && free_of(s, '=')
}

/// The reals as an array keeps them: each with six digits after the point,
/// rounded half to even where it has more.
pub open spec fn kept_reals(v: Seq<Decimal>) -> Seq<Decimal> {
    Seq::new(v.len(), |i: int| v[i].rescale_spec(ARRAY_PLACES)->0)
}

impl TagView {
    /// Whether the line of the tag declares a tag of its name under the
    /// table `entries`: the table registers the name with the kind of the
    /// tag, the name and a string value are texts that read back, each
    /// element of an array of reals can be kept with six digits after the
    /// point, and an array of integers has no elements.
    pub open spec fn readable(self, entries: Seq<(Seq<char>, IncarTagType)>) -> bool {
        &&& lookup_in(entries, self.name()) == Some(self.kind())
        &&& is_name_text(self.name())
        &&& match self {
            TagView::String(_, v) => is_value_text(v),
            TagView::IntegerArray(_, v) => v.len() == 0,
            TagView::RealArray(_, v) => forall|i: int|
                0 <= i < v.len() ==> (#[trigger] v[i]).rescale_spec(ARRAY_PLACES) is Some,
            _ => true,
        }
    }

    /// Whether the line of the tag reads back as the tag: it is readable,
    /// and the elements of an array of reals have six digits after the
    /// point.
    pub open spec fn reads_back(self, entries: Seq<(Seq<char>, IncarTagType)>) -> bool {
        &&& self.readable(entries)
        &&& match self {
            TagView::RealArray(_, v) => forall|i: int|
                0 <= i < v.len() ==> (#[trigger] v[i]).scale == ARRAY_PLACES,
            _ => true,
        }
    }

    /// The tag that the line of this tag declares: the tag itself, with the
    /// elements of an array of reals as an array keeps them.
    pub open spec fn as_read(self) -> TagView {
        match self {
            TagView::RealArray(n, v) => TagView::RealArray(n, kept_reals(v)),
            _ => self,
        }
    }
}

/// The tags that the lines of these tags declare.
pub open spec fn all_as_read(es: Seq<TagView>) -> Seq<TagView> {
    Seq::new(es.len(), |i: int| es[i].as_read())
}

/// A tag that reads back is the tag that its line declares.
pub proof fn lemma_as_read_exact(entries: Seq<(Seq<char>, IncarTagType)>, t: TagView)
    requires
        t.reads_back(entries),
    ensures
        t.as_read() == t,
{
    match t {
        TagView::RealArray(n, v) => {
            assert forall|i: int| 0 <= i < v.len() implies kept_reals(v)[i] == v[i] by {
                let d = v[i];
                assert(d.scale == ARRAY_PLACES);
                let one = crate::number::pow10(0);
                assert(one == 1);
                assert(d.unscaled * one == d.unscaled) by (nonlinear_arith)
                    requires
                        one == 1,
                ;
            }
            assert(kept_reals(v) =~= v);
        },
        _ => {},
    }
}

/// Schema enforcement: under a table that does not register the name, no
/// kind and no text make a tag of that name.
pub proof fn lemma_unregistered_is_refused(
    entries: Seq<(Seq<char>, IncarTagType)>,
    name: Seq<char>,
    kind: IncarTagType,
    raw: Seq<char>,
)
    requires
        lookup_in(entries, name) is None,
    ensures
        construct_spec(entries, name, kind, raw) == Err::<TagView, IncarFault>(
            IncarFault::SchemaViolation(name),
        ),
{
}

/// A tag that a line declares has a name that the table registers, and the
/// kind with which it registers the name.
pub proof fn lemma_declared_tag_is_registered(
    entries: Seq<(Seq<char>, IncarTagType)>,
    line: Seq<char>,
)
    requires
        tag_of_line(entries, line) is Ok,
    ensures
        ({
            let t = tag_of_line(entries, line)->Ok_0;
            lookup_in(entries, t.name()) == Some(t.kind())
        }),
{
}

/// A tag that was made has the name and the kind that were asked for, and
/// the table registers the name with that kind.
pub proof fn lemma_made_tag_is_registered(
    entries: Seq<(Seq<char>, IncarTagType)>,
    name: Seq<char>,
    kind: IncarTagType,
    raw: Seq<char>,
)
    requires
        construct_spec(entries, name, kind, raw) is Ok,
    ensures
        ({
            let t = construct_spec(entries, name, kind, raw)->Ok_0;
            &&& t.name() == name
            &&& t.kind() == kind
            &&& lookup_in(entries, name) == Some(kind)
        }),
{
}

/// In a document that was read, each tag stands under its own name, and the
/// table registers that name with the kind of the tag.
pub proof fn lemma_document_keys(
    entries: Seq<(Seq<char>, IncarTagType)>,
    lines: Seq<Seq<char>>,
    name: Seq<char>,
)
    requires
        document_of(entries, lines).dom().contains(name),
    ensures
        document_of(entries, lines)[name].name() == name,
        lookup_in(entries, name) == Some(document_of(entries, lines)[name].kind()),
    decreases lines.len(),
{
    if lines.len() > 0 {
        match tag_of_line(entries, lines.last()) {
            Ok(t) => {
                lemma_declared_tag_is_registered(entries, lines.last());
                if t.name() != name {
                    lemma_document_keys(entries, lines.drop_last(), name);
                }
            },
            Err(_) => {
                lemma_document_keys(entries, lines.drop_last(), name);
            },
        }
    }
}

/// Comment stripping: what follows the first `#` of a line changes nothing
/// of what the line declares.
pub proof fn lemma_comment_is_ignored(
    entries: Seq<(Seq<char>, IncarTagType)>,
    line: Seq<char>,
    comment: Seq<char>,
)
    requires
        free_of(line, '#'),
    ensures
        tag_of_line(entries, line + seq!['#'] + comment) == tag_of_line(entries, line),
{
    let commented = line + seq!['#'] + comment;
    lemma_span_stops(line, '#', comment);
    lemma_span_whole(line, '#');
    assert(before_comment(commented) =~= line);
    assert(before_comment(line) =~= line);
}

/// The texts of the booleans read back.
pub proof fn lemma_bool_texts()
    ensures
        bool_of(".TRUE."@) == Some(true),
        bool_of(".FALSE."@) == Some(false),
        is_value_text(".TRUE."@),
        is_value_text(".FALSE."@),
        ".TRUE."@.len() > 0,
        ".FALSE."@.len() > 0,
{
    reveal_strlit(".TRUE.");
    reveal_strlit(".FALSE.");
    reveal_strlit("T");
    reveal_strlit("true");
    reveal_strlit("True");
    let f = ".FALSE."@;
    assert(f.len() == 7);
    assert(f != "T"@ && f != "true"@ && f != "True"@ && f != ".TRUE."@);
    assert(!is_space('.'));
}

/// The reals that were written with the digits that an array keeps read
/// back as the array keeps them.
pub proof fn lemma_reals_of_texts(v: Seq<Decimal>)
    requires
        forall|i: int| 0 <= i < v.len() ==> (#[trigger] v[i]).rescale_spec(ARRAY_PLACES) is Some,
    ensures
        reals_of(real_texts(v)) == Ok::<Seq<Decimal>, IncarFault>(kept_reals(v)),
        forall|i: int|
            0 <= i < v.len() ==> is_token(#[trigger] real_texts(v)[i]) && free_of(
                real_texts(v)[i],
                '#',
            ) && free_of(real_texts(v)[i], '\n'),
    decreases v.len(),
{
    let texts = real_texts(v);
    assert forall|i: int| 0 <= i < v.len() implies is_token(#[trigger] texts[i]) && free_of(
        texts[i],
        '#',
    ) && free_of(texts[i], '\n') by {
        lemma_parse_fixed_text(v[i], ARRAY_PLACES);
        lemma_number_text_is_token(texts[i]);
    }
    if v.len() == 0 {
        assert(kept_reals(v) =~= Seq::<Decimal>::empty());
    } else {
        let front = v.drop_last();
        assert forall|i: int| 0 <= i < front.len() implies (#[trigger] front[i]).rescale_spec(
            ARRAY_PLACES,
        ) is Some by {
            assert(front[i] == v[i]);
        }
        lemma_reals_of_texts(front);
        assert(texts.drop_last() =~= real_texts(front));
        lemma_parse_fixed_text(v.last(), ARRAY_PLACES);
        assert(texts.last() == fixed_text(v.last(), ARRAY_PLACES as nat));
        assert(kept_reals(front).push(v.last().rescale_spec(ARRAY_PLACES)->0) =~= kept_reals(v));
    }
}

/// The text of each real, with the digits that an array keeps.
pub open spec fn real_texts(v: Seq<Decimal>) -> Seq<Seq<char>> {
    Seq::new(v.len(), |i: int| fixed_text(v[i], ARRAY_PLACES as nat))
}

/// The text of the value of a readable tag is a value text, and reads back
/// as the value that the line of the tag declares.
pub proof fn lemma_value_reads_back(entries: Seq<(Seq<char>, IncarTagType)>, t: TagView)
    requires
        t.readable(entries),
    ensures
        is_value_text(t.value_text()),
        value_of(t.name(), t.kind(), t.value_text()) == Ok::<TagView, IncarFault>(t.as_read()),
{
    match t {
        TagView::Boolean(_, b) => {
            lemma_bool_texts();
        },
        TagView::Integer(_, i) => {
            lemma_int_text(i as int);
            lemma_number_text_is_token(int_text(i as int));
            lemma_parse_i64_text(i);
        },
        TagView::Real(_, d) => {
            lemma_parse_decimal_text(d);
            lemma_number_text_is_token(d.text());
        },
        TagView::String(_, s) => {},
        TagView::IntegerArray(n, v) => {
            let parts = Seq::new(v.len(), |i: int| assignment(n, int_text(v[i] as int)));
            assert(parts =~= Seq::<Seq<char>>::empty());
            let text = t.value_text();
            assert(text =~= Seq::<char>::empty());
            lemma_tokens_of_blank(text);
            assert(v =~= Seq::<i64>::empty());
        },
        TagView::RealArray(_, v) => {
            let texts = real_texts(v);
            lemma_reals_of_texts(v);
            lemma_tokens_of_joined(texts);
            lemma_joined_free_of(texts, '#');
            lemma_joined_free_of(texts, '\n');
            lemma_joined_trimmed(texts);
        },
    }
}

/// A name and a value that read back, written as a declaration, are what
/// the line declares; and the line can stand as a line.
pub proof fn lemma_declaration_reads_back(name: Seq<char>, value: Seq<char>)
    requires
        is_name_text(name),
        is_value_text(value),
    ensures
        declaration_of(assignment(name, value)) == Some((name, value)),
        is_line(assignment(name, value)),
        assignment(name, value).len() > 0,
{
    let line = assignment(name, value);
    let sign = seq![' ', '=', ' '];
    assert(is_space(' ') && is_space('\r'));
    assert forall|i: int| 0 <= i < line.len() implies #[trigger] line[i] != '#' && line[i]
        != '\n' by {
        if i < name.len() {
            assert(line[i] == name[i]);
        } else if i < name.len() + 3 {
            assert(line[i] == sign[i - name.len()]);
        } else {
            assert(line[i] == value[i - name.len() - 3]);
        }
    }
    if value.len() > 0 {
        assert(line.last() == value.last());
    } else {
        assert(line.last() == ' ');
    }
    lemma_span_whole(line, '#');
    assert(before_comment(line) =~= line);
    let head = name + seq![' '];
    assert forall|i: int| 0 <= i < head.len() implies #[trigger] head[i] != '=' by {
        if i < name.len() {
            assert(head[i] == name[i]);
        }
    }
    let tail = seq![' '] + value;
    lemma_span_stops(head, '=', tail);
    assert(line =~= head + seq!['='] + tail);
    let eq = head.len() as int;
    assert(line.take(eq) =~= head);
    assert(line.skip(eq + 1) =~= tail);
    let e = Seq::<char>::empty();
    lemma_trim_between(e, name, seq![' ']);
    assert(e + name + seq![' '] =~= head);
    lemma_trim_between(seq![' '], value, e);
    assert(seq![' '] + value + e =~= tail);
}

/// The line of a readable tag declares the tag as it is read.
pub proof fn lemma_tag_reads_back(entries: Seq<(Seq<char>, IncarTagType)>, t: TagView)
    requires
        t.readable(entries),
    ensures
        tag_of_line(entries, t.text()) == Ok::<TagView, IncarFault>(t.as_read()),
        t.as_read().name() == t.name(),
        is_line(t.text()),
        t.text().len() > 0,
{
    lemma_value_reads_back(entries, t);
    lemma_declaration_reads_back(t.name(), t.value_text());
}

/// In a document, each tag stands under its own name.
pub proof fn lemma_keys_are_names(es: Seq<TagView>, name: Seq<char>)
    requires
        by_name(es).dom().contains(name),
    ensures
        by_name(es)[name].name() == name,
{
    assert(has_name(es, name));
    let i = position(es, name);
    assert(es[i].name() == name);
}

/// Tags as they are read keep their names, and so the order of their names.
pub proof fn lemma_as_read_ascend(es: Seq<TagView>)
    requires
        names_ascend(es),
    ensures
        names_ascend(all_as_read(es)),
{
    let rs = all_as_read(es);
    assert forall|i: int, j: int| 0 <= i < j < rs.len() implies crate::text::comes_before(
        #[trigger] rs[i].name(),
        #[trigger] rs[j].name(),
    ) by {
        assert(rs[i].name() == es[i].name());
        assert(rs[j].name() == es[j].name());
    }
}

/// The lines of readable tags, of which none has the name of another,
/// declare the document that holds those tags as they are read, whether or
/// not every line must declare a tag.
pub proof fn lemma_tags_read_back(entries: Seq<(Seq<char>, IncarTagType)>, es: Seq<TagView>)
    requires
        names_ascend(es),
        forall|i: int| 0 <= i < es.len() ==> (#[trigger] es[i]).readable(entries),
    ensures
        document_of(entries, tag_texts(es)) == by_name(all_as_read(es)),
        strict_document_of(entries, tag_texts(es)) == Ok::<Map<Seq<char>, TagView>, IncarFault>(
            by_name(all_as_read(es)),
        ),
    decreases es.len(),
{
    if es.len() == 0 {
        assert(by_name(all_as_read(es)) =~= Map::<Seq<char>, TagView>::empty());
    } else {
        let front = es.drop_last();
        assert forall|i: int| 0 <= i < front.len() implies (#[trigger] front[i]).readable(
            entries,
        ) by {
            assert(front[i] == es[i]);
        }
        assert forall|i: int, j: int| 0 <= i < j < front.len() implies crate::text::comes_before(
            #[trigger] front[i].name(),
            #[trigger] front[j].name(),
        ) by {
            assert(front[i] == es[i] && front[j] == es[j]);
        }
        lemma_tags_read_back(entries, front);
        lemma_tag_reads_back(entries, es.last());
        assert(tag_texts(es).drop_last() =~= tag_texts(front));
        assert(tag_texts(es).last() == es.last().text());
        let read = all_as_read(front);
        let last = es.last().as_read();
        assert(read.insert(read.len() as int, last) =~= all_as_read(es));
        lemma_as_read_ascend(front);
        lemma_as_read_ascend(es);
        lemma_by_name_insert(read, read.len() as int, last);
    }
}

/// What is read of what was written: a document of readable tags, written
/// and read again, is the document of those tags as they are read, whether
/// or not every line must declare a tag.
pub proof fn lemma_incar_read_back(entries: Seq<(Seq<char>, IncarTagType)>, es: Seq<TagView>)
    requires
        names_ascend(es),
        forall|i: int| 0 <= i < es.len() ==> (#[trigger] es[i]).readable(entries),
    ensures
        document_of(entries, lines_of(join_with(tag_texts(es), seq!['\n']))) == by_name(
            all_as_read(es),
        ),
        strict_document_of(entries, lines_of(join_with(tag_texts(es), seq!['\n']))) == Ok::<
            Map<Seq<char>, TagView>,
            IncarFault,
        >(by_name(all_as_read(es))),
{
    let texts = tag_texts(es);
    assert forall|i: int| 0 <= i < texts.len() implies is_line(#[trigger] texts[i]) && texts[i].len()
        > 0 by {
        lemma_tag_reads_back(entries, es[i]);
    }
    lemma_lines_of_joined(texts);
    lemma_tags_read_back(entries, es);
}

/// Tags that read back are the tags that their lines declare.
pub proof fn lemma_all_as_read_exact(entries: Seq<(Seq<char>, IncarTagType)>, es: Seq<TagView>)
    requires
        forall|i: int| 0 <= i < es.len() ==> (#[trigger] es[i]).reads_back(entries),
    ensures
        all_as_read(es) == es,
        forall|i: int| 0 <= i < es.len() ==> (#[trigger] es[i]).readable(entries),
{
    assert forall|i: int| 0 <= i < es.len() implies all_as_read(es)[i] == es[i] && (
    #[trigger] es[i]).readable(entries) by {
        lemma_as_read_exact(entries, es[i]);
    }
    assert(all_as_read(es) =~= es);
}

/// Round trip: a document whose tags read back, written and read again, is
/// the document.
pub proof fn lemma_incar_round_trip(entries: Seq<(Seq<char>, IncarTagType)>, es: Seq<TagView>)
    requires
        names_ascend(es),
        forall|i: int| 0 <= i < es.len() ==> (#[trigger] es[i]).reads_back(entries),
    ensures
        document_of(entries, lines_of(join_with(tag_texts(es), seq!['\n']))) == by_name(es),
{
    lemma_all_as_read_exact(entries, es);
    lemma_incar_read_back(entries, es);
}

/// Round trip, where every line must declare a tag: a document whose tags
/// read back, written and read again, is the document.
pub proof fn lemma_incar_round_trip_strict(
    entries: Seq<(Seq<char>, IncarTagType)>,
    es: Seq<TagView>,
)
    requires
        names_ascend(es),
        forall|i: int| 0 <= i < es.len() ==> (#[trigger] es[i]).reads_back(entries),
    ensures
        strict_document_of(entries, lines_of(join_with(tag_texts(es), seq!['\n']))) == Ok::<
            Map<Seq<char>, TagView>,
            IncarFault,
        >(by_name(es)),
{
    lemma_all_as_read_exact(entries, es);
    lemma_incar_read_back(entries, es);
}

} // verus!
