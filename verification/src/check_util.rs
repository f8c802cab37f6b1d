//! Checks of what a job asks for against what is installed: the versions of
//! the electronic-structure code, its binaries, and the tasks for which
//! there is a template.

use vstd::prelude::*;
use crate::text::{
    chars_of, chars_of_all, copy_range, join, join_with, push_chars, push_str, run_length_back,
    same_chars, span_back, string_from_chars, string_views, views, CharClass,
};

verus! {

/// Whether `x` is one of `list`.
pub open spec fn lists(list: Seq<Seq<char>>, x: Seq<char>) -> bool {
    exists|i: int| 0 <= i < list.len() && #[trigger] list[i] == x
}

/// What follows the last `sep` of `s`; all of `s` where it has none.
pub open spec fn last_part(s: Seq<char>, sep: char) -> Seq<char> {
    s.skip(s.len() - span_back(s, CharClass::Not(sep)))
}

/// Whether `pat` occurs in `s`.
pub open spec fn occurs_in(s: Seq<char>, pat: Seq<char>) -> bool {
    exists|i: int| 0 <= i <= s.len() - pat.len() && #[trigger] s.subrange(i, i + pat.len()) == pat
}

/// The separator of the items of a list in a message.
pub open spec fn comma() -> Seq<char> {
    seq![',', ' ']
}

/// The tasks for which there is a template: of each template name that
/// holds `INCAR`, what follows its last underscore.
pub open spec fn tasks_of(templates: Seq<Seq<char>>) -> Seq<Seq<char>>
    decreases templates.len(),
{
    if templates.len() == 0 {
        Seq::empty()
    } else {
        let before = tasks_of(templates.drop_last());
        if occurs_in(templates.last(), "INCAR"@) {
            before.push(last_part(templates.last(), '_'))
        } else {
            before
        }
    }
}

/// The binaries of the first entry of the version `version`.
pub open spec fn binaries_of(table: Seq<(Seq<char>, Seq<Seq<char>>)>, version: Seq<char>) -> Option<
    Seq<Seq<char>>,
>
    decreases table.len(),
{
    if table.len() == 0 {
        None
    } else if table[0].0 == version {
        Some(table[0].1)
    } else {
        binaries_of(table.drop_first(), version)
    }
}

/// The table of binaries as plain values.
pub open spec fn table_view(table: Seq<(String, Vec<String>)>) -> Seq<(Seq<char>, Seq<Seq<char>>)> {
    Seq::new(table.len(), |i: int| (table[i].0@, string_views(table[i].1@)))
}

/// What `check_vasp_version` says of a version that is not installed.
pub open spec fn version_message(version: Seq<char>, versions: Seq<Seq<char>>) -> Seq<char> {
    "Vasp version "@ + version + " not found. Currently available versions: "@ + join_with(
        versions,
        comma(),
    )
}

/// What `check_task` says of a task without a template.
pub open spec fn task_message(task: Seq<char>, tasks: Seq<Seq<char>>) -> Seq<char> {
    "Task '"@ + task + "' not found. Available tasks: "@ + join_with(tasks, comma())
}

/// What `check_vasp_bin` says of a binary that the version does not have.
pub open spec fn binary_message(task: Seq<char>, version: Seq<char>, binaries: Seq<Seq<char>>) -> Seq<
    char,
> {
    "Vasp binary '"@ + task + "' not found. Currently available binaries for VASP "@ + version
        + ":\n"@ + join_with(binaries, comma())
}

/// What `check_vasp_bin` says of a version that is not installed.
pub open spec fn missing_version_message(version: Seq<char>, versions: Seq<Seq<char>>) -> Seq<
    char,
> {
    "Vasp version "@ + version + " not found. Currently available versions: \n"@ + join_with(
        versions,
        comma(),
    )
}

/// Whether `x` is one of `list`.
fn is_listed(list: &Vec<Vec<char>>, x: &[char]) -> (r: bool)
    ensures
        r == lists(views(list@), x@),
{
    let mut i: usize = 0;
    while i < list.len()
        invariant
            i <= list.len(),
            forall|j: int| 0 <= j < i ==> #[trigger] views(list@)[j] != x@,
        decreases list.len() - i,
    {
        if same_chars(list[i].as_slice(), x) {
            assert(views(list@)[i as int] == x@);
            return true;
        }
        i += 1;
    }
    false
}

/// What follows the last `sep` of `s`.
fn tail_after(s: &[char], sep: char) -> (r: Vec<char>)
    ensures
        r@ == last_part(s@, sep),
{
    let class = CharClass::Not(sep);
    assert(s@.take(s.len() as int) =~= s@);
    let n = run_length_back(s, s.len(), &class);
    let r = copy_range(s, s.len() - n, s.len());
    assert(r@ =~= last_part(s@, sep));
    r
}

/// Whether `pat` occurs in `s`.
fn has_text(s: &[char], pat: &[char]) -> (r: bool)
    ensures
        r == occurs_in(s@, pat@),
{
    if pat.len() > s.len() {
        return false;
    }
    let last = s.len() - pat.len();
    let mut i: usize = 0;
    loop
        invariant
            i <= last,
            last == s.len() - pat.len(),
            forall|j: int| 0 <= j < i ==> #[trigger] s@.subrange(j, j + pat.len()) != pat@,
        decreases last - i,
    {
        let part = copy_range(s, i, i + pat.len());
        if same_chars(part.as_slice(), pat) {
            return true;
        }
        if i == last {
            return false;
        }
        i += 1;
    }
}

/// The parts laid end to end, with a comma and a space between neighbours.
fn listing(parts: &Vec<Vec<char>>) -> (r: Vec<char>)
    ensures
        r@ == join_with(views(parts@), comma()),
{
    let sep: Vec<char> = vec![',', ' '];
    assert(sep@ =~= comma());
    join(parts, sep.as_slice())
}

/// The versions that the paths of their directories name: of each path,
/// what follows its last slash.
pub fn vasp_versions(paths: &Vec<String>) -> (r: Vec<String>)
    ensures
        r.len() == paths.len(),
        forall|i: int| 0 <= i < r.len() ==> (#[trigger] r[i])@ == last_part(paths[i]@, '/'),
{
    let mut r: Vec<String> = Vec::new();
    let mut i: usize = 0;
    while i < paths.len()
        invariant
            i <= paths.len(),
            r.len() == i,
            forall|j: int| 0 <= j < i ==> (#[trigger] r[j])@ == last_part(paths[j]@, '/'),
        decreases paths.len() - i,
    {
        let path = chars_of(paths[i].as_str());
        r.push(string_from_chars(tail_after(path.as_slice(), '/').as_slice()));
        i += 1;
    }
    r
}

/// Checks that the version is installed: gives it back if it is one of
/// `versions`, else a message that lists them.
pub fn check_vasp_version(version: &str, versions: &Vec<String>) -> (r: Result<String, String>)
    ensures
        lists(string_views(versions@), version@) ==> r is Ok && r->Ok_0@ == version@,
        !lists(string_views(versions@), version@) ==> r is Err && r->Err_0@ == version_message(
            version@,
            string_views(versions@),
        ),
{
    let v = chars_of(version);
    let all = chars_of_all(versions);
    if is_listed(&all, v.as_slice()) {
        Ok(string_from_chars(v.as_slice()))
    } else {
        let mut out: Vec<char> = Vec::new();
        push_str(&mut out, "Vasp version ");
        push_chars(&mut out, v.as_slice());
        push_str(&mut out, " not found. Currently available versions: ");
        push_chars(&mut out, listing(&all).as_slice());
        assert(out@ =~= version_message(version@, string_views(versions@)));
        Err(string_from_chars(out.as_slice()))
    }
}

/// The tasks for which there is a template.
fn available_tasks(templates: &Vec<String>) -> (r: Vec<Vec<char>>)
    ensures
        views(r@) == tasks_of(string_views(templates@)),
{
    let ghost all = string_views(templates@);
    let mut r: Vec<Vec<char>> = Vec::new();
    let marker = chars_of("INCAR");
    let mut i: usize = 0;
    assert(all.take(0) =~= Seq::<Seq<char>>::empty());
    assert(views(r@) =~= Seq::<Seq<char>>::empty());
    while i < templates.len()
        invariant
            i <= templates.len(),
            all == string_views(templates@),
            marker@ == "INCAR"@,
            views(r@) == tasks_of(all.take(i as int)),
        decreases templates.len() - i,
    {
        let ghost upto = all.take(i + 1);
        assert(upto.drop_last() =~= all.take(i as int));
        assert(upto.last() == templates@[i as int]@);
        let name = chars_of(templates[i].as_str());
        if has_text(name.as_slice(), marker.as_slice()) {
            let ghost before = r@;
            let task = tail_after(name.as_slice(), '_');
            r.push(task);
            proof {
                crate::text::lemma_views_push(before, task);
            }
        }
        i += 1;
    }
    assert(all.take(i as int) =~= all);
    r
}

/// Checks that there is a template for the task: gives the task back if one
/// of `templates` is for it, else a message that lists the tasks.
pub fn check_task(task: &str, templates: &Vec<String>) -> (r: Result<String, String>)
    ensures
        ({
            let tasks = tasks_of(string_views(templates@));
            &&& lists(tasks, task@) ==> r is Ok && r->Ok_0@ == task@
            &&& !lists(tasks, task@) ==> r is Err && r->Err_0@ == task_message(task@, tasks)
        }),
{
    let t = chars_of(task);
    let tasks = available_tasks(templates);
    if is_listed(&tasks, t.as_slice()) {
        Ok(string_from_chars(t.as_slice()))
    } else {
        let mut out: Vec<char> = Vec::new();
        push_str(&mut out, "Task '");
        push_chars(&mut out, t.as_slice());
        push_str(&mut out, "' not found. Available tasks: ");
        push_chars(&mut out, listing(&tasks).as_slice());
        assert(out@ =~= task_message(task@, tasks_of(string_views(templates@))));
        Err(string_from_chars(out.as_slice()))
    }
}

/// The index of the first entry of the version `version`.
fn find_version(table: &Vec<(String, Vec<String>)>, version: &[char]) -> (r: Option<usize>)
    ensures
        match binaries_of(table_view(table@), version@) {
            Some(b) => r is Some && r->0 < table.len() && string_views(table[r->0 as int].1@) == b,
            None => r is None,
        },
{
    let ghost all = table_view(table@);
    let mut i: usize = 0;
    assert(all.skip(0) =~= all);
    while i < table.len()
        invariant
            i <= table.len(),
            all == table_view(table@),
            binaries_of(all, version@) == binaries_of(all.skip(i as int), version@),
        decreases table.len() - i,
    {
        let ghost rest = all.skip(i as int);
        assert(rest[0] == all[i as int]);
        assert(rest.drop_first() =~= all.skip(i + 1));
        let key = chars_of(table[i].0.as_str());
        if same_chars(key.as_slice(), version) {
            return Some(i);
        }
        i += 1;
    }
    None
}

/// Checks that the version has the binary: gives the binary back if the
/// entry of the version in `table` lists it, else a message that lists the
/// binaries of the version or, where the table has no such entry, the
/// versions.
pub fn check_vasp_bin(
    version: &str,
    task: &str,
    table: &Vec<(String, Vec<String>)>,
    versions: &Vec<String>,
) -> (r: Result<String, String>)
    ensures
        match binaries_of(table_view(table@), version@) {
            Some(b) => if lists(b, task@) {
                r is Ok && r->Ok_0@ == task@
            } else {
                r is Err && r->Err_0@ == binary_message(task@, version@, b)
            },
            None => r is Err && r->Err_0@ == missing_version_message(
                version@,
                string_views(versions@),
            ),
        },
{
    let v = chars_of(version);
    let t = chars_of(task);
    let mut out: Vec<char> = Vec::new();
    match find_version(table, v.as_slice()) {
        Some(i) => {
            let binaries = chars_of_all(&table[i].1);
            if is_listed(&binaries, t.as_slice()) {
                return Ok(string_from_chars(t.as_slice()));
            }
            push_str(&mut out, "Vasp binary '");
            push_chars(&mut out, t.as_slice());
            push_str(&mut out, "' not found. Currently available binaries for VASP ");
            push_chars(&mut out, v.as_slice());
            push_str(&mut out, ":\n");
            push_chars(&mut out, listing(&binaries).as_slice());
            assert(out@ =~= binary_message(task@, version@, string_views(table[i as int].1@)));
        },
        None => {
            let all = chars_of_all(versions);
            push_str(&mut out, "Vasp version ");
            push_chars(&mut out, v.as_slice());
            push_str(&mut out, " not found. Currently available versions: \n");
            push_chars(&mut out, listing(&all).as_slice());
            assert(out@ =~= missing_version_message(version@, string_views(versions@)));
        },
    }
    Err(string_from_chars(out.as_slice()))
}

} // verus!
