//! Choosing the pseudopotential of each element of a structure.

use vstd::prelude::*;
use crate::text::{chars_of, same_chars, string_from_chars};

verus! {

/// A pseudopotential of the library of the electronic-structure code.
#[derive(Debug, Clone)]
pub struct PotcarData {
    pub element: String,
    pub potcar_name: String,
    pub enmax: i32,
    pub recommended: bool,
}

/// How the pseudopotentials are chosen.
#[derive(Debug, Clone)]
pub enum PotcarMode {
    /// For each element the one that the library recommends.
    Recommended,
    /// For each element the one that the list gives it; the first entry of
    /// an element counts.
    Custom(Vec<(String, String)>),
}

/// Why no pseudopotential was chosen.
#[derive(Debug, Clone, PartialEq, Eq)]
pub enum PotcarError {
    /// Nothing is on offer for the element.
    UnknownElement(String),
}

impl PotcarError {
    /// The element that the error names.
    pub open spec fn element(self) -> Seq<char> {
        match self {
            PotcarError::UnknownElement(n) => n@,
        }
    }
}

/// Each element that has a recommended entry, with the name of that entry,
/// in the order of the library.
pub open spec fn recommended_pairs(data: Seq<PotcarData>) -> Seq<(Seq<char>, Seq<char>)>
    decreases data.len(),
{
    if data.len() == 0 {
        Seq::empty()
    } else {
        let rest = recommended_pairs(data.drop_last());
        if data.last().recommended {
            rest.push((data.last().element@, data.last().potcar_name@))
        } else {
            rest
        }
    }
}

/// The elements of the list with what it gives them.
pub open spec fn pair_views(pairs: Seq<(String, String)>) -> Seq<(Seq<char>, Seq<char>)> {
    Seq::new(pairs.len(), |i: int| (pairs[i].0@, pairs[i].1@))
}

/// What the first pair of the element `elem` gives it.
pub open spec fn choice_of(pairs: Seq<(Seq<char>, Seq<char>)>, elem: Seq<char>) -> Option<
    Seq<char>,
>
    decreases pairs.len(),
{
    if pairs.len() == 0 {
        None
    } else if pairs[0].0 == elem {
        Some(pairs[0].1)
    } else {
        choice_of(pairs.drop_first(), elem)
    }
}

/// What the pairs give each of the elements, or the first element to which
/// they give nothing.
pub open spec fn choices_of(pairs: Seq<(Seq<char>, Seq<char>)>, elems: Seq<Seq<char>>) -> Result<
    Seq<Seq<char>>,
    Seq<char>,
>
    decreases elems.len(),
{
    if elems.len() == 0 {
        Ok(Seq::empty())
    } else {
        match choices_of(pairs, elems.drop_last()) {
            Err(e) => Err(e),
            Ok(before) => match choice_of(pairs, elems.last()) {
                Some(name) => Ok(before.push(name)),
                None => Err(elems.last()),
            },
        }
    }
}

/// The strings as plain values.
pub open spec fn names(v: Seq<String>) -> Seq<Seq<char>> {
    Seq::new(v.len(), |i: int| v[i]@)
}

/// A fault in a prefix of the elements is the fault of all of them.
pub proof fn lemma_choices_fault(
    pairs: Seq<(Seq<char>, Seq<char>)>,
    elems: Seq<Seq<char>>,
    k: int,
)
    requires
        0 <= k <= elems.len(),
        choices_of(pairs, elems.take(k)) is Err,
    ensures
        choices_of(pairs, elems) == choices_of(pairs, elems.take(k)),
    decreases elems.len() - k,
{
    if k == elems.len() {
        assert(elems.take(k) =~= elems);
    } else {
        assert(elems.drop_last().take(k) =~= elems.take(k));
        lemma_choices_fault(pairs, elems.drop_last(), k);
    }
}

/// What the library recommends for the element `elem`.
fn recommended_for(elem: &[char], data: &[PotcarData]) -> (r: Option<String>)
    ensures
        match choice_of(recommended_pairs(data@), elem@) {
            Some(n) => r is Some && r->0@ == n,
            None => r is None,
        },
{
    let mut i: usize = 0;
    assert(data@.take(0) =~= Seq::<PotcarData>::empty());
    while i < data.len()
        invariant
            i <= data.len(),
            choice_of(recommended_pairs(data@.take(i as int)), elem@) is None,
        decreases data.len() - i,
    {
        let ghost upto = data@.take(i + 1);
        assert(upto.drop_last() =~= data@.take(i as int));
        assert(upto.last() == data@[i as int]);
        if data[i].recommended {
            let element = chars_of(data[i].element.as_str());
            if same_chars(element.as_slice(), elem) {
                proof {
                    let before = recommended_pairs(data@.take(i as int));
                    let found = (data@[i as int].element@, data@[i as int].potcar_name@);
                    lemma_choice_push_found(before, found, elem@);
                    lemma_recommended_prefix(data@, i + 1, elem@);
                }
                return Some(data[i].potcar_name.clone());
            }
            proof {
                let before = recommended_pairs(data@.take(i as int));
                let other = (data@[i as int].element@, data@[i as int].potcar_name@);
                lemma_choice_push_other(before, other, elem@);
            }
        }
        i += 1;
    }
    assert(data@.take(i as int) =~= data@);
    None
}

/// A pair of the element, put after pairs that give it nothing, gives it
/// its choice.
pub proof fn lemma_choice_push_found(
    pairs: Seq<(Seq<char>, Seq<char>)>,
    pair: (Seq<char>, Seq<char>),
    elem: Seq<char>,
)
    requires
        choice_of(pairs, elem) is None,
        pair.0 == elem,
    ensures
        choice_of(pairs.push(pair), elem) == Some(pair.1),
    decreases pairs.len(),
{
    if pairs.len() > 0 {
        lemma_choice_push_found(pairs.drop_first(), pair, elem);
        assert(pairs.push(pair).drop_first() =~= pairs.drop_first().push(pair));
    } else {
        assert(pairs.push(pair)[0] == pair);
    }
}

/// A pair of another element changes nothing for this one.
pub proof fn lemma_choice_push_other(
    pairs: Seq<(Seq<char>, Seq<char>)>,
    pair: (Seq<char>, Seq<char>),
    elem: Seq<char>,
)
    requires
        pair.0 != elem,
    ensures
        choice_of(pairs.push(pair), elem) == choice_of(pairs, elem),
    decreases pairs.len(),
{
    if pairs.len() > 0 {
        lemma_choice_push_other(pairs.drop_first(), pair, elem);
        assert(pairs.push(pair).drop_first() =~= pairs.drop_first().push(pair));
    } else {
        assert(pairs.push(pair)[0] == pair);
        assert(pairs.push(pair).drop_first() =~= pairs);
    }
}

/// A pair that follows changes nothing for an element that has its choice.
pub proof fn lemma_choice_push_kept(
    pairs: Seq<(Seq<char>, Seq<char>)>,
    pair: (Seq<char>, Seq<char>),
    elem: Seq<char>,
)
    requires
        choice_of(pairs, elem) is Some,
    ensures
        choice_of(pairs.push(pair), elem) == choice_of(pairs, elem),
    decreases pairs.len(),
{
    if pairs.len() > 0 {
        assert(pairs.push(pair)[0] == pairs[0]);
        if pairs[0].0 != elem {
            lemma_choice_push_kept(pairs.drop_first(), pair, elem);
            assert(pairs.push(pair).drop_first() =~= pairs.drop_first().push(pair));
        }
    }
}

/// What the first `k` entries recommend for an element, all of them do.
pub proof fn lemma_recommended_prefix(data: Seq<PotcarData>, k: int, elem: Seq<char>)
    requires
        0 <= k <= data.len(),
        choice_of(recommended_pairs(data.take(k)), elem) is Some,
    ensures
        choice_of(recommended_pairs(data), elem) == choice_of(
            recommended_pairs(data.take(k)),
            elem,
        ),
    decreases data.len() - k,
{
    if k == data.len() {
        assert(data.take(k) =~= data);
    } else {
        assert(data.drop_last().take(k) =~= data.take(k));
        lemma_recommended_prefix(data.drop_last(), k, elem);
        if data.last().recommended {
            lemma_choice_push_kept(
                recommended_pairs(data.drop_last()),
                (data.last().element@, data.last().potcar_name@),
                elem,
            );
        }
    }
}

/// What the list gives the element `elem`.
fn custom_for(elem: &[char], pairs: &Vec<(String, String)>) -> (r: Option<String>)
    ensures
        match choice_of(pair_views(pairs@), elem@) {
            Some(n) => r is Some && r->0@ == n,
            None => r is None,
        },
{
    let ghost all = pair_views(pairs@);
    let mut i: usize = 0;
    assert(all.skip(0) =~= all);
    while i < pairs.len()
        invariant
            i <= pairs.len(),
            all == pair_views(pairs@),
            choice_of(all, elem@) == choice_of(all.skip(i as int), elem@),
        decreases pairs.len() - i,
    {
        let ghost rest = all.skip(i as int);
        assert(rest[0] == all[i as int]);
        assert(rest.drop_first() =~= all.skip(i + 1));
        let key = chars_of(pairs[i].0.as_str());
        if same_chars(key.as_slice(), elem) {
            return Some(pairs[i].1.clone());
        }
        i += 1;
    }
    None
}

/// For each element the name of the pseudopotential that the library
/// recommends; the error names the first element for which it recommends
/// none.
pub fn get_recommended_potcars(elems: &[String], data: &[PotcarData]) -> (r: Result<
    Vec<String>,
    PotcarError,
>)
    ensures
        match choices_of(recommended_pairs(data@), names(elems@)) {
            Ok(v) => r is Ok && names(r->Ok_0@) == v,
            Err(e) => r is Err && r->Err_0.element() == e,
        },
{
    let ghost all = names(elems@);
    let ghost pairs = recommended_pairs(data@);
    let mut out: Vec<String> = Vec::new();
    let mut i: usize = 0;
    assert(all.take(0) =~= Seq::<Seq<char>>::empty());
    assert(names(out@) =~= Seq::<Seq<char>>::empty());
    while i < elems.len()
        invariant
            i <= elems.len(),
            all == names(elems@),
            pairs == recommended_pairs(data@),
            choices_of(pairs, all.take(i as int)) == Ok::<Seq<Seq<char>>, Seq<char>>(names(out@)),
        decreases elems.len() - i,
    {
        let ghost upto = all.take(i + 1);
        assert(upto.drop_last() =~= all.take(i as int));
        assert(upto.last() == elems@[i as int]@);
        let elem = chars_of(elems[i].as_str());
        match recommended_for(elem.as_slice(), data) {
            Some(name) => {
                let ghost before = names(out@);
                out.push(name);
                assert(names(out@) =~= before.push(name@));
            },
            None => {
                proof {
                    lemma_choices_fault(pairs, all, i + 1);
                }
                return Err(PotcarError::UnknownElement(string_from_chars(elem.as_slice())));
            },
        }
        i += 1;
    }
    assert(all.take(i as int) =~= all);
    Ok(out)
}

/// For each element the name that the list gives it; the error names the
/// first element to which it gives none.
pub fn get_potcars_from_map(elems: &[String], potcar_map: &Vec<(String, String)>) -> (r: Result<
    Vec<String>,
    PotcarError,
>)
    ensures
        match choices_of(pair_views(potcar_map@), names(elems@)) {
            Ok(v) => r is Ok && names(r->Ok_0@) == v,
            Err(e) => r is Err && r->Err_0.element() == e,
        },
{
    let ghost all = names(elems@);
    let ghost pairs = pair_views(potcar_map@);
    let mut out: Vec<String> = Vec::new();
    let mut i: usize = 0;
    assert(all.take(0) =~= Seq::<Seq<char>>::empty());
    assert(names(out@) =~= Seq::<Seq<char>>::empty());
    while i < elems.len()
        invariant
            i <= elems.len(),
            all == names(elems@),
            pairs == pair_views(potcar_map@),
            choices_of(pairs, all.take(i as int)) == Ok::<Seq<Seq<char>>, Seq<char>>(names(out@)),
        decreases elems.len() - i,
    {
        let ghost upto = all.take(i + 1);
        assert(upto.drop_last() =~= all.take(i as int));
        assert(upto.last() == elems@[i as int]@);
        let elem = chars_of(elems[i].as_str());
        match custom_for(elem.as_slice(), potcar_map) {
            Some(name) => {
                let ghost before = names(out@);
                out.push(name);
                assert(names(out@) =~= before.push(name@));
            },
            None => {
                proof {
                    lemma_choices_fault(pairs, all, i + 1);
                }
                return Err(PotcarError::UnknownElement(string_from_chars(elem.as_slice())));
            },
        }
        i += 1;
    }
    assert(all.take(i as int) =~= all);
    Ok(out)
}

/// The labels of the species of a structure file, which stand on its sixth
/// line; `None` where the text has fewer lines.
pub fn extract_elements(poscar: &str) -> (r: Option<Vec<String>>)
    ensures
        ({
            let lines = crate::text::lines_of(poscar@);
            if lines.len() > 5 {
                r is Some && names(r->0@) == crate::text::tokens_of(lines[5])
            } else {
                r is None
            }
        }),
{
    let text = chars_of(poscar);
    let lines = crate::text::split_lines(text.as_slice());
    if lines.len() <= 5 {
        return None;
    }
    let tokens = crate::text::split_whitespace(lines[5].as_slice());
    let mut out: Vec<String> = Vec::new();
    let mut i: usize = 0;
    while i < tokens.len()
        invariant
            i <= tokens.len(),
            out.len() == i,
            forall|j: int| 0 <= j < i ==> (#[trigger] out[j])@ == tokens[j]@,
        decreases tokens.len() - i,
    {
        out.push(string_from_chars(tokens[i].as_slice()));
        i += 1;
    }
    assert(names(out@) =~= crate::text::views(tokens@));
    Some(out)
}

} // verus!
