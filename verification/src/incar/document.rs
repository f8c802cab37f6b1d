//! A tag document: at most one tag for each registered name, kept in the
//! order of the names.

use vstd::prelude::*;
use crate::incar::schema::{lookup_in, IncarTagType, TagSchema};
use crate::incar::tag::{
    before_comment, tag_of_line, IncarError, IncarFault, IncarTag, TagView,
};
use crate::text::{
    chars_of, comes_before, copy_range, join, join_with, lemma_order_irreflexive,
    lemma_order_transitive, lines_of, place_of, run_length, split_lines, string_from_chars, trim,
    trim_of, views, CharClass, Place,
};

verus! {

/// A tag document.
#[derive(Debug, Clone)]
pub struct Incar {
    tags: Vec<IncarTag>,
}

/// Whether the names of the tags ascend in the order of strings, so that no
/// name occurs twice.
pub open spec fn names_ascend(es: Seq<TagView>) -> bool {
    forall|i: int, j: int|
        0 <= i < j < es.len() ==> comes_before(#[trigger] es[i].name(), #[trigger] es[j].name())
}

/// Whether a tag of `es` has the name `n`.
pub open spec fn has_name(es: Seq<TagView>, n: Seq<char>) -> bool {
    exists|i: int| 0 <= i < es.len() && #[trigger] es[i].name() == n
}

/// The index of a tag of `es` that has the name `n`.
pub open spec fn position(es: Seq<TagView>, n: Seq<char>) -> int {
    choose|i: int| 0 <= i < es.len() && #[trigger] es[i].name() == n
}

/// The tags by their names.
pub open spec fn by_name(es: Seq<TagView>) -> Map<Seq<char>, TagView> {
    Map::new(|n: Seq<char>| has_name(es, n), |n: Seq<char>| es[position(es, n)])
}

/// Ascending names are distinct.
pub proof fn lemma_names_distinct(es: Seq<TagView>, i: int, j: int)
    requires
        names_ascend(es),
        0 <= i < es.len(),
        0 <= j < es.len(),
        es[i].name() == es[j].name(),
    ensures
        i == j,
{
    lemma_order_irreflexive(es[i].name());
}

/// Among ascending names, the tag of a name is the one tag that has it.
pub proof fn lemma_by_name(es: Seq<TagView>, i: int)
    requires
        names_ascend(es),
        0 <= i < es.len(),
    ensures
        by_name(es).dom().contains(es[i].name()),
        by_name(es)[es[i].name()] == es[i],
{
    let n = es[i].name();
    assert(has_name(es, n));
    lemma_names_distinct(es, i, position(es, n));
}

/// Putting a tag in its place among ascending names puts it under its name.
pub proof fn lemma_by_name_insert(es: Seq<TagView>, p: int, t: TagView)
    requires
        0 <= p <= es.len(),
        names_ascend(es),
        names_ascend(es.insert(p, t)),
    ensures
        by_name(es.insert(p, t)) == by_name(es).insert(t.name(), t),
{
    let es2 = es.insert(p, t);
    let a = by_name(es2);
    let b = by_name(es).insert(t.name(), t);
    assert(es2[p] == t);
    assert forall|n: Seq<char>| a.dom().contains(n) <==> b.dom().contains(n) by {
        if a.dom().contains(n) {
            let j = position(es2, n);
            if j < p {
                assert(es[j].name() == n);
            } else if j > p {
                assert(es[j - 1].name() == n);
            }
        }
        if b.dom().contains(n) {
            if n == t.name() {
                assert(es2[p].name() == n);
            } else {
                let i = position(es, n);
                if i < p {
                    assert(es2[i].name() == n);
                } else {
                    assert(es2[i + 1].name() == n);
                }
            }
        }
    }
    assert forall|n: Seq<char>| a.dom().contains(n) implies a[n] == b[n] by {
        let j = position(es2, n);
        if n == t.name() {
            lemma_names_distinct(es2, j, p);
        } else {
            let i = if j < p {
                j
            } else {
                j - 1
            };
            assert(es[i].name() == n);
            lemma_names_distinct(es, i, position(es, n));
        }
    }
    assert(a =~= b);
}

/// Putting a tag in the place of one of its name puts it under that name.
pub proof fn lemma_by_name_update(es: Seq<TagView>, p: int, t: TagView)
    requires
        0 <= p < es.len(),
        names_ascend(es),
        es[p].name() == t.name(),
    ensures
        names_ascend(es.update(p, t)),
        by_name(es.update(p, t)) == by_name(es).insert(t.name(), t),
{
    let es2 = es.update(p, t);
    let a = by_name(es2);
    let b = by_name(es).insert(t.name(), t);
    assert forall|i: int, j: int| 0 <= i < j < es2.len() implies comes_before(
        #[trigger] es2[i].name(),
        #[trigger] es2[j].name(),
    ) by {
        assert(es2[i].name() == es[i].name());
        assert(es2[j].name() == es[j].name());
    }
    assert forall|n: Seq<char>| a.dom().contains(n) <==> b.dom().contains(n) by {
        if a.dom().contains(n) {
            let j = position(es2, n);
            assert(es[j].name() == n);
        }
        if b.dom().contains(n) {
            if n == t.name() {
                assert(es2[p].name() == n);
            } else {
                let i = position(es, n);
                assert(es2[i].name() == n);
            }
        }
    }
    assert forall|n: Seq<char>| a.dom().contains(n) implies a[n] == b[n] by {
        let j = position(es2, n);
        if n == t.name() {
            lemma_names_distinct(es2, j, p);
        } else {
            assert(es[j].name() == n);
            lemma_names_distinct(es, j, position(es, n));
        }
    }
    assert(a =~= b);
}

/// The document that the lines declare: each line that declares a tag puts
/// it under its name, where it takes the place of an earlier one; every
/// other line is passed over.
pub open spec fn document_of(entries: Seq<(Seq<char>, IncarTagType)>, lines: Seq<Seq<char>>) -> Map<
    Seq<char>,
    TagView,
>
    decreases lines.len(),
{
    if lines.len() == 0 {
        Map::empty()
    } else {
        let before = document_of(entries, lines.drop_last());
        match tag_of_line(entries, lines.last()) {
            Ok(t) => before.insert(t.name(), t),
            Err(_) => before,
        }
    }
}

/// Whether a line holds nothing but white space before its comment.
pub open spec fn is_blank(line: Seq<char>) -> bool {
    trim_of(before_comment(line)).len() == 0
}

/// The document that the lines declare where each line that is not blank
/// must declare a tag: the first that declares none gives its fault.
pub open spec fn strict_document_of(
    entries: Seq<(Seq<char>, IncarTagType)>,
    lines: Seq<Seq<char>>,
) -> Result<Map<Seq<char>, TagView>, IncarFault>
    decreases lines.len(),
{
    if lines.len() == 0 {
        Ok(Map::empty())
    } else {
        match strict_document_of(entries, lines.drop_last()) {
            Err(e) => Err(e),
            Ok(before) => match tag_of_line(entries, lines.last()) {
                Ok(t) => Ok(before.insert(t.name(), t)),
                Err(e) => if is_blank(lines.last()) {
                    Ok(before)
                } else {
                    Err(e)
                },
            },
        }
    }
}

/// The name of the first of the tags that the table does not register.
pub open spec fn unregistered(entries: Seq<(Seq<char>, IncarTagType)>, tags: Seq<TagView>) -> Option<
    Seq<char>,
>
    decreases tags.len(),
{
    if tags.len() == 0 {
        None
    } else if lookup_in(entries, tags[0].name()) is None {
        Some(tags[0].name())
    } else {
        unregistered(entries, tags.drop_first())
    }
}

/// The document `m` after each of the tags, in order, was put under its
/// name.
pub open spec fn put_all(m: Map<Seq<char>, TagView>, tags: Seq<TagView>) -> Map<Seq<char>, TagView>
    decreases tags.len(),
{
    if tags.len() == 0 {
        m
    } else {
        put_all(m, tags.drop_last()).insert(tags.last().name(), tags.last())
    }
}

/// The tags as plain values.
pub open spec fn tag_views(tags: Seq<IncarTag>) -> Seq<TagView> {
    Seq::new(tags.len(), |i: int| tags[i]@)
}

/// The text of each tag.
pub open spec fn tag_texts(es: Seq<TagView>) -> Seq<Seq<char>> {
    Seq::new(es.len(), |i: int| es[i].text())
}

impl View for Incar {
    type V = Map<Seq<char>, TagView>;

    open spec fn view(&self) -> Map<Seq<char>, TagView> {
        by_name(self.entries())
    }
}

impl Incar {
    /// The tags of the document, in the order in which it keeps them.
    pub closed spec fn entries(&self) -> Seq<TagView> {
        Seq::new(self.tags.len() as nat, |i: int| self.tags[i]@)
    }

    /// The invariant of a document: the names of its tags ascend.
    pub open spec fn wf(&self) -> bool {
        names_ascend(self.entries())
    }

    /// The text of the document: the lines of its tags in the order of
    /// their names, with a line feed between them.
    pub open spec fn text(&self) -> Seq<char> {
        join_with(tag_texts(self.entries()), seq!['\n'])
    }

    /// A document without tags.
    pub fn new() -> (d: Incar)
        ensures
            d.wf(),
            d.entries() == Seq::<TagView>::empty(),
            d@ == Map::<Seq<char>, TagView>::empty(),
    {
        let d = Incar { tags: Vec::new() };
        assert(d.entries() =~= Seq::empty());
        assert(d@ =~= Map::empty());
        d
    }

    /// The number of tags.
    pub fn len(&self) -> (n: usize)
        ensures
            n == self.entries().len(),
    {
        self.tags.len()
    }

    /// The tags, in the order of their names.
    pub fn tags(&self) -> (r: &Vec<IncarTag>)
        ensures
            r.len() == self.entries().len(),
            forall|i: int| 0 <= i < r.len() ==> (#[trigger] r[i])@ == self.entries()[i],
    {
        &self.tags
    }

    /// Where the tag of name `name` stands, or where it would have to be
    /// put.
    fn find(&self, name: &[char]) -> (r: (usize, bool))
        requires
            self.wf(),
        ensures
            r.0 <= self.entries().len(),
            forall|i: int| 0 <= i < r.0 ==> comes_before(#[trigger] self.entries()[i].name(), name@),
            r.1 ==> r.0 < self.entries().len() && self.entries()[r.0 as int].name() == name@,
            !r.1 ==> forall|i: int|
                r.0 <= i < self.entries().len() ==> comes_before(
                    name@,
                    #[trigger] self.entries()[i].name(),
                ),
    {
        let mut i: usize = 0;
        while i < self.tags.len()
            invariant
                i <= self.tags.len(),
                self.wf(),
                forall|j: int| 0 <= j < i ==> comes_before(#[trigger] self.entries()[j].name(), name@),
            decreases self.tags.len() - i,
        {
            let current = chars_of(self.tags[i].name());
            assert(current@ == self.entries()[i as int].name());
            match place_of(current.as_slice(), name) {
                Place::Before => {},
                Place::Same => {
                    return (i, true);
                },
                Place::After => {
                    assert forall|j: int| i <= j < self.entries().len() implies comes_before(
                        name@,
                        #[trigger] self.entries()[j].name(),
                    ) by {
                        if j > i {
                            lemma_order_transitive(
                                name@,
                                self.entries()[i as int].name(),
                                self.entries()[j].name(),
                            );
                        }
                    }
                    return (i, false);
                },
            }
            i += 1;
        }
        (i, false)
    }

    /// The tag of name `name`, if the document has one.
    pub fn get(&self, name: &str) -> (r: Option<&IncarTag>)
        requires
            self.wf(),
        ensures
            match r {
                Some(t) => self@.dom().contains(name@) && self@[name@] == t@,
                None => !self@.dom().contains(name@),
            },
    {
        let n = chars_of(name);
        let (p, found) = self.find(n.as_slice());
        if found {
            proof {
                lemma_by_name(self.entries(), p as int);
            }
            Some(&self.tags[p])
        } else {
            proof {
                if has_name(self.entries(), name@) {
                    lemma_order_irreflexive(name@);
                }
            }
            None
        }
    }

    /// Puts `tag` under its name, in the place of the tag that the document
    /// has under that name, if any.
    fn put(&mut self, tag: IncarTag)
        requires
            old(self).wf(),
        ensures
            final(self).wf(),
            final(self)@ == old(self)@.insert(tag@.name(), tag@),
    {
        let name = chars_of(tag.name());
        let (p, found) = self.find(name.as_slice());
        let ghost es = self.entries();
        if found {
            self.tags[p] = tag;
            proof {
                assert(self.entries() =~= es.update(p as int, tag@));
                lemma_by_name_update(es, p as int, tag@);
            }
        } else {
            self.tags.insert(p, tag);
            proof {
                let es2 = es.insert(p as int, tag@);
                assert(self.entries() =~= es2);
                assert forall|i: int, j: int| 0 <= i < j < es2.len() implies comes_before(
                    #[trigger] es2[i].name(),
                    #[trigger] es2[j].name(),
                ) by {
                    if j < p {
                        assert(es2[i] == es[i] && es2[j] == es[j]);
                    } else if j == p {
                        assert(es2[i] == es[i]);
                    } else if i < p {
                        assert(es2[i] == es[i] && es2[j] == es[j - 1]);
                    } else if i == p {
                        assert(es2[j] == es[j - 1]);
                    } else {
                        assert(es2[i] == es[i - 1] && es2[j] == es[j - 1]);
                    }
                }
                lemma_by_name_insert(es, p as int, tag@);
            }
        }
    }

    /// Puts `tag` under its name, if the table registers the name; else the
    /// document stays as it is.
    pub fn update(&mut self, schema: &TagSchema, tag: IncarTag) -> (r: Result<(), IncarError>)
        requires
            old(self).wf(),
        ensures
            final(self).wf(),
            match schema.kind_of(tag@.name()) {
                Some(_) => r is Ok && final(self)@ == old(self)@.insert(tag@.name(), tag@),
                None => r is Err && r->Err_0@ == IncarFault::SchemaViolation(tag@.name())
                    && final(self).entries() == old(self).entries(),
            },
    {
        let name = chars_of(tag.name());
        match schema.lookup_chars(name.as_slice()) {
            Some(_) => {
                self.put(tag);
                Ok(())
            },
            None => Err(IncarError::SchemaViolation(string_from_chars(name.as_slice()))),
        }
    }
}

/// The name of the first of the tags that the table does not register.
fn first_unregistered(schema: &TagSchema, tags: &Vec<IncarTag>) -> (r: Option<String>)
    ensures
        match unregistered(schema@, tag_views(tags@)) {
            Some(n) => r is Some && r->0@ == n,
            None => r is None,
        },
{
    let ghost all = tag_views(tags@);
    let mut i: usize = 0;
    assert(all.skip(0) =~= all);
    while i < tags.len()
        invariant
            i <= tags.len(),
            all == tag_views(tags@),
            unregistered(schema@, all) == unregistered(schema@, all.skip(i as int)),
        decreases tags.len() - i,
    {
        let ghost rest = all.skip(i as int);
        assert(rest[0] == tags@[i as int]@);
        assert(rest.drop_first() =~= all.skip(i + 1));
        let name = chars_of(tags[i].name());
        if schema.lookup_chars(name.as_slice()).is_none() {
            return Some(string_from_chars(name.as_slice()));
        }
        i += 1;
    }
    None
}

/// The items of `v` in reverse.
fn reversed(v: Vec<IncarTag>) -> (r: Vec<IncarTag>)
    ensures
        r.len() == v.len(),
        forall|i: int| 0 <= i < r.len() ==> #[trigger] r[i] == v[v.len() - 1 - i],
{
    let mut v = v;
    let ghost orig = v@;
    let mut r: Vec<IncarTag> = Vec::new();
    while v.len() > 0
        invariant
            v@ == orig.take(orig.len() - r.len()),
            r.len() <= orig.len(),
            forall|i: int| 0 <= i < r.len() ==> #[trigger] r[i] == orig[orig.len() - 1 - i],
        decreases v.len(),
    {
        match v.pop() {
            Some(t) => {
                r.push(t);
                assert(v@ =~= orig.take(orig.len() - r.len()));
            },
            None => {},
        }
    }
    r
}

impl Incar {
    /// Puts each of `tags`, in order, under its name, if the table registers
    /// all their names; else the document stays as it is, and the error
    /// names the first that is not registered.
    pub fn extend(&mut self, schema: &TagSchema, tags: Vec<IncarTag>) -> (r: Result<(), IncarError>)
        requires
            old(self).wf(),
        ensures
            final(self).wf(),
            match unregistered(schema@, tag_views(tags@)) {
                None => r is Ok && final(self)@ == put_all(old(self)@, tag_views(tags@)),
                Some(n) => r is Err && r->Err_0@ == IncarFault::SchemaViolation(n)
                    && final(self).entries() == old(self).entries(),
            },
    {
        match first_unregistered(schema, &tags) {
            Some(n) => {
                return Err(IncarError::SchemaViolation(n));
            },
            None => {},
        }
        let ghost all = tag_views(tags@);
        let n = tags.len();
        let mut rest = reversed(tags);
        let mut k: usize = 0;
        assert(all.take(0) =~= Seq::<TagView>::empty());
        while k < n
            invariant
                k <= n,
                n == all.len(),
                rest.len() == n - k,
                forall|i: int| 0 <= i < rest.len() ==> (#[trigger] rest[i])@ == all[n - 1 - i],
                self.wf(),
                self@ == put_all(old(self)@, all.take(k as int)),
            decreases n - k,
        {
            match rest.pop() {
                Some(t) => {
                    assert(t@ == all[k as int]);
                    assert(all.take(k + 1).drop_last() =~= all.take(k as int));
                    self.put(t);
                },
                None => {},
            }
            k += 1;
        }
        assert(all.take(k as int) =~= all);
        Ok(())
    }

    /// The document that holds the given tags, if the table registers all
    /// their names.
    pub fn from_tags(schema: &TagSchema, tags: Vec<IncarTag>) -> (r: Result<Incar, IncarError>)
        ensures
            match unregistered(schema@, tag_views(tags@)) {
                None => r is Ok && r->Ok_0.wf() && r->Ok_0@ == put_all(
                    Map::empty(),
                    tag_views(tags@),
                ),
                Some(n) => r is Err && r->Err_0@ == IncarFault::SchemaViolation(n),
            },
    {
        let mut incar = Incar::new();
        match incar.extend(schema, tags) {
            Ok(()) => Ok(incar),
            Err(e) => Err(e),
        }
    }

    /// Reads a document. Where `strict` holds, every line that is not blank
    /// must declare a tag, and the first that declares none gives its
    /// error. Where it does not hold, such lines are passed over, and the
    /// result is never an error.
    pub fn parse(schema: &TagSchema, s: &str, strict: bool) -> (r: Result<Incar, IncarError>)
        ensures
            !strict ==> r is Ok && r->Ok_0.wf() && r->Ok_0@ == document_of(schema@, lines_of(s@)),
            strict ==> match strict_document_of(schema@, lines_of(s@)) {
                Ok(m) => r is Ok && r->Ok_0.wf() && r->Ok_0@ == m,
                Err(f) => r is Err && r->Err_0@ == f,
            },
    {
        let text = chars_of(s);
        let lines = split_lines(text.as_slice());
        let ghost all = views(lines@);
        let mut incar = Incar::new();
        let mut i: usize = 0;
        assert(all.take(0) =~= Seq::<Seq<char>>::empty());
        while i < lines.len()
            invariant
                i <= lines.len(),
                all == views(lines@),
                all == lines_of(s@),
                incar.wf(),
                !strict ==> incar@ == document_of(schema@, all.take(i as int)),
                strict ==> strict_document_of(schema@, all.take(i as int)) == Ok::<
                    Map<Seq<char>, TagView>,
                    IncarFault,
                >(incar@),
            decreases lines.len() - i,
        {
            proof {
                assert(all.take(i + 1).drop_last() =~= all.take(i as int));
                assert(all.take(i + 1).last() == lines@[i as int]@);
            }
            match IncarTag::from_chars(schema, lines[i].as_slice()) {
                Ok(tag) => {
                    incar.put(tag);
                },
                Err(e) => {
                    if strict && !blank(lines[i].as_slice()) {
                        proof {
                            let upto = all.take(i + 1);
                            assert(strict_document_of(schema@, upto.drop_last()) is Ok);
                            assert(tag_of_line(schema@, upto.last()) is Err);
                            assert(strict_document_of(schema@, upto) == Err::<
                                Map<Seq<char>, TagView>,
                                IncarFault,
                            >(e@));
                            lemma_strict_fault(schema@, all, i + 1);
                        }
                        return Err(e);
                    }
                },
            }
            i += 1;
        }
        assert(all.take(i as int) =~= all);
        Ok(incar)
    }

    /// Reads a document, passing over the lines that declare no tag.
    pub fn from_str(schema: &TagSchema, s: &str) -> (r: Result<Incar, IncarError>)
        ensures
            r is Ok,
            r->Ok_0.wf(),
            r->Ok_0@ == document_of(schema@, lines_of(s@)),
    {
        Incar::parse(schema, s, false)
    }

    /// The text of the document.
    pub fn to_string(&self) -> (s: String)
        ensures
            s@ == self.text(),
    {
        let mut lines: Vec<Vec<char>> = Vec::new();
        let mut i: usize = 0;
        while i < self.tags.len()
            invariant
                i <= self.tags.len(),
                lines.len() == i,
                forall|j: int| 0 <= j < i ==> (#[trigger] lines[j])@ == self.entries()[j].text(),
            decreases self.tags.len() - i,
        {
            lines.push(self.tags[i].to_chars());
            i += 1;
        }
        assert(views(lines@) =~= tag_texts(self.entries()));
        let feed: Vec<char> = vec!['\n'];
        assert(feed@ =~= seq!['\n']);
        string_from_chars(join(&lines, feed.as_slice()).as_slice())
    }
}

/// Whether a line holds nothing but white space before its comment.
fn blank(line: &[char]) -> (r: bool)
    ensures
        r == is_blank(line@),
{
    let comment = CharClass::Not('#');
    assert(line@.skip(0) =~= line@);
    let end = run_length(line, 0, &comment);
    let head = copy_range(line, 0, end);
    assert(head@ =~= before_comment(line@));
    trim(head.as_slice()).len() == 0
}

/// A fault in a prefix of the lines is the fault of all of them.
pub proof fn lemma_strict_fault(
    entries: Seq<(Seq<char>, IncarTagType)>,
    lines: Seq<Seq<char>>,
    k: int,
)
    requires
        0 <= k <= lines.len(),
        strict_document_of(entries, lines.take(k)) is Err,
    ensures
        strict_document_of(entries, lines) == strict_document_of(entries, lines.take(k)),
    decreases lines.len() - k,
{
    if k == lines.len() {
        assert(lines.take(k) =~= lines);
    } else {
        assert(lines.drop_last().take(k) =~= lines.take(k));
        lemma_strict_fault(entries, lines.drop_last(), k);
    }
}

} // verus!
