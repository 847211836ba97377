//! Word lists as read from a dictionary directory, and which of them a
//! selection keeps.

use vstd::prelude::*;
use crate::text::{push_char, str_eq};

verus! {

/// A word-list file: its file name, its path and its lines.
#[derive(Debug, Clone)]
pub struct DictFile {
    pub name: String,
    pub path: String,
    pub lines: Vec<String>,
}

impl DictFile {
    /// The lines of the file, as character sequences.
    pub open spec fn line_views(&self) -> Seq<Seq<char>> {
        self.lines@.map_values(|l: String| l@)
    }
}

/// The views of a list of strings.
pub open spec fn str_views(v: Seq<&str>) -> Seq<Seq<char>> {
    v.map_values(|t: &str| t@)
}

/// The views of a list of owned strings.
pub open spec fn string_views(v: Seq<String>) -> Seq<Seq<char>> {
    v.map_values(|t: String| t@)
}

/// Whether a selection item asks to leave a list out (it starts with `'!'`).
pub open spec fn is_exclusion(t: Seq<char>) -> bool {
    t.len() > 0 && t[0] == '!'
}

/// The selection item that leaves out the list called `name`.
pub open spec fn exclusion_of(name: Seq<char>) -> Seq<char> {
    seq!['!'] + name
}

/// Whether a non-empty selection keeps the list called `name`: when some item
/// starts with `'!'`, every list is kept but those named by an exclusion;
/// otherwise exactly the lists the selection names are kept.
pub open spec fn keeps(sel: Seq<Seq<char>>, name: Seq<char>) -> bool {
    if exists|i: int| 0 <= i < sel.len() && is_exclusion(#[trigger] sel[i]) {
        !sel.contains(exclusion_of(name))
    } else {
        sel.contains(name)
    }
}

/// Whether the selection of the word-list loader keeps `name`: an empty
/// selection keeps every list.
pub open spec fn selected(sel: Seq<Seq<char>>, name: Seq<char>) -> bool {
    sel.len() == 0 || keeps(sel, name)
}

/// Whether an optional selection keeps `name`: no selection keeps every list, and
/// an empty one keeps none.
pub open spec fn chosen(sel: Option<Seq<Seq<char>>>, name: Seq<char>) -> bool {
    match sel {
        None => true,
        Some(s) => keeps(s, name),
    }
}

/// The exclusion item for `name`: `'!'` followed by the name.
pub fn exclusion_for(name: &str) -> (r: String)
    ensures
        r@ == exclusion_of(name@),
{
    let mut r = String::new();
    push_char(&mut r, '!');
    r.append(name);
    r
}

/// Whether `t` starts with `'!'`.
fn starts_with_bang(t: &str) -> (r: bool)
    ensures
        r == is_exclusion(t@),
{
    let cs = crate::text::chars_of(t);
    cs.len() > 0 && cs[0] == '!'
}

/// Whether a non-empty selection keeps the list called `name` (see [`keeps`]).
pub fn keeps_name(sel: &Vec<&str>, name: &str) -> (r: bool)
    ensures
        r == keeps(str_views(sel@), name@),
{
    let ghost views = str_views(sel@);
    let excl = exclusion_for(name);
    let mut any_exclusion = false;
    let mut has_name = false;
    let mut has_exclusion = false;
    let mut i: usize = 0;
    while i < sel.len()
        invariant
            i <= sel.len(),
            views == str_views(sel@),
            excl@ == exclusion_of(name@),
            any_exclusion == exists|k: int| 0 <= k < i && is_exclusion(#[trigger] views[k]),
            has_name == exists|k: int| 0 <= k < i && #[trigger] views[k] == name@,
            has_exclusion == exists|k: int| 0 <= k < i && #[trigger] views[k] == excl@,
        decreases sel.len() - i,
    {
        let t = sel[i];
        assert(views[i as int] == t@);
        if starts_with_bang(t) {
            any_exclusion = true;
        }
        if str_eq(t, name) {
            has_name = true;
        }
        if str_eq(t, excl.as_str()) {
            has_exclusion = true;
        }
        i = i + 1;
    }
    proof {
        if has_name {
            let k = choose|k: int| 0 <= k < i && #[trigger] views[k] == name@;
            assert(views.contains(name@));
        }
        if has_exclusion {
            let k = choose|k: int| 0 <= k < i && #[trigger] views[k] == excl@;
            assert(views.contains(exclusion_of(name@)));
        }
        if views.contains(name@) {
            let k = choose|k: int| 0 <= k < views.len() && views[k] == name@;
            assert(views[k] == name@);
        }
        if views.contains(exclusion_of(name@)) {
            let k = choose|k: int| 0 <= k < views.len() && views[k] == exclusion_of(name@);
            assert(views[k] == excl@);
        }
    }
    if any_exclusion {
        !has_exclusion
    } else {
        has_name
    }
}

/// Whether the word-list loader's selection keeps `name` (see [`selected`]).
pub fn is_selected(sel: &Vec<&str>, name: &str) -> (r: bool)
    ensures
        r == selected(str_views(sel@), name@),
{
    sel.len() == 0 || keeps_name(sel, name)
}

/// Borrowed views of owned strings.
pub fn as_strs(v: &Vec<String>) -> (r: Vec<&str>)
    ensures
        str_views(r@) == string_views(v@),
{
    let mut r: Vec<&str> = Vec::new();
    let mut i: usize = 0;
    while i < v.len()
        invariant
            i <= v.len(),
            str_views(r@) == string_views(v@).take(i as int),
        decreases v.len() - i,
    {
        let ghost before = r@;
        let s = v[i].as_str();
        r.push(s);
        assert(r@ == before.push(s));
        assert(str_views(r@) =~= str_views(before).push(s@));
        i = i + 1;
        assert(str_views(r@) =~= string_views(v@).take(i as int));
    }
    assert(string_views(v@).take(v.len() as int) == string_views(v@));
    r
}

/// Whether an optional selection keeps `name` (see [`chosen`]).
pub fn is_chosen(sel: &Option<Vec<String>>, name: &str) -> (r: bool)
    ensures
        r == chosen(
            match sel {
                Some(s) => Some(string_views(s@)),
                None => None,
            },
            name@,
        ),
{
    match sel {
        None => true,
        Some(s) => {
            let strs = as_strs(s);
            keeps_name(&strs, name)
        },
    }
}

/// A list named by an exclusion (`!` and its name) is never kept, whatever
/// else the selection holds.
pub proof fn law_exclusion_wins(sel: Seq<Seq<char>>, name: Seq<char>)
    requires
        sel.contains(exclusion_of(name)),
    ensures
        !selected(sel, name),
        !chosen(Some(sel), name),
{
    let k = choose|k: int| 0 <= k < sel.len() && sel[k] == exclusion_of(name);
    assert(is_exclusion(sel[k]));
}

/// Without exclusions, a selection keeps exactly the lists it names (and the
/// loader's empty selection keeps all).
pub proof fn law_named_lists_kept(sel: Seq<Seq<char>>, name: Seq<char>)
    requires
        forall|i: int| 0 <= i < sel.len() ==> !is_exclusion(#[trigger] sel[i]),
    ensures
        selected(sel, name) == (sel.len() == 0 || sel.contains(name)),
        chosen(Some(sel), name) == sel.contains(name),
{
}

} // verus!
