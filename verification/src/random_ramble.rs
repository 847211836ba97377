//! The word-list generator: adjectives and themes come from lists, filtered
//! by a case-insensitive prefix, and are paired at random or fed to a template.

use vstd::prelude::*;
use crate::chance::{choose_multiple, choose_one, distinct_positions, min_len};
use crate::classic::pair_line;
use crate::dict::{is_selected, selected, str_views, string_views, DictFile};
use crate::engine::{context_entries, context_of, members_map, one_off};
use crate::error::RambleError;
use crate::json::{number_free, Json};
use crate::refactor::map::{is_string_list, strings_json};
use crate::text::{
    center, centered, contains_str, matching_lines, occurs_in, opt_view, push_char,
    push_matching,
};

verus! {

/// Whether the regular expression compiled from `pattern` matches somewhere in
/// `text`.
pub uninterp spec fn regex_is_match(pattern: Seq<char>, text: Seq<char>) -> bool;

/// Calls `regex::Regex::new` on `pattern` and `Regex::is_match` on `text`;
/// nothing when the pattern does not compile. The answer is named `regex_is_match`.
/// The two patterns `adj[^s]` and `theme[^s]` are valid regular expressions, so
/// they always compile; each matches where its word is followed by any
/// character but `s` (see [`asks`]).
#[verifier::external_body]
pub fn regex_find(pattern: &str, text: &str) -> (r: Option<bool>)
    ensures
        r matches Some(b) ==> b == regex_is_match(pattern@, text@),
        pattern@ == "adj[^s]"@ ==> r == Some(asks("adj"@, text@)),
        pattern@ == "theme[^s]"@ ==> r == Some(asks("theme"@, text@)),
{
    regex::Regex::new(pattern).ok().map(|re| re.is_match(text))
}

/// Whether `text` holds `word` followed by a character other than `s`, as the
/// regular expression of the word followed by `[^s]` finds it.
pub open spec fn asks(word: Seq<char>, text: Seq<char>) -> bool {
    exists|i: int| 0 <= i && i + word.len() < text.len() && #[trigger] text.subrange(i, i + word.len()) == word
        && text[i + word.len()] != 's'
}

/// Whether `text` asks for a value of the regular expression `pattern`, one of
/// the two fixed patterns `adj[^s]` and `theme[^s]`.
pub fn asks_for(pattern: &str, text: &str) -> (b: bool)
    requires
        pattern@ == "adj[^s]"@ || pattern@ == "theme[^s]"@,
    ensures
        b == regex_is_match(pattern@, text@),
        pattern@ == "adj[^s]"@ ==> b == asks("adj"@, text@),
        pattern@ == "theme[^s]"@ ==> b == asks("theme"@, text@),
{
    match regex_find(pattern, text) {
        Some(b) => b,
        None => false,
    }
}

/// Whether `s` is what one draw from the passing entries of `t` gives: the
/// entry [`choose_one`] picked out of them.
pub open spec fn entry_chosen(t: Type, pattern: Option<Seq<char>>, s: Seq<char>) -> bool {
    exists|all: Vec<String>, x: &String|
        all@.map_values(|e: String| e@) == passing(t, pattern) && #[trigger] call_ensures(choose_one::<String>, (&all,), Some(x))
            && x@ == s
}

/// Whether `v` is what a sample of `number` passing entries of `t` gives: the
/// entries [`choose_multiple`] picked out of them, in the order picked.
pub open spec fn subset_sampled(t: Type, pattern: Option<Seq<char>>, number: usize, v: Seq<Seq<char>>) -> bool {
    exists|all: Vec<String>, picked: Vec<&String>|
        all@.map_values(|e: String| e@) == passing(t, pattern)
            && #[trigger] call_ensures(choose_multiple::<String>, (&all, number), picked)
            && v == picked@.map_values(|x: &String| x@)
}

/// A word list: its name, its path and its entries.
#[derive(Debug)]
pub struct Type {
    name: String,
    path: String,
    entries: Vec<String>,
}

/// The entries of a list that pass `pattern`.
pub open spec fn passing(t: Type, pattern: Option<Seq<char>>) -> Seq<Seq<char>> {
    matching_lines(t.entry_views(), pattern)
}

impl Type {
    /// The name of the list.
    pub closed spec fn name_view(&self) -> Seq<char> {
        self.name@
    }

    /// The path of the list.
    pub closed spec fn path_view(&self) -> Seq<char> {
        self.path@
    }

    /// The entries of the list.
    pub closed spec fn entry_views(&self) -> Seq<Seq<char>> {
        self.entries@.map_values(|e: String| e@)
    }

    /// The list read from `file`: named after it, with its lines as entries.
    pub fn new(file: &DictFile) -> (t: Type)
        ensures
            t.name_view() == file.name@,
            t.path_view() == file.path@,
            t.entry_views() == file.line_views(),
    {
        let mut entries: Vec<String> = Vec::new();
        push_matching(&mut entries, &file.lines, None);
        proof {
            lemma_matching_none(file.line_views());
        }
        Type { name: file.name.clone(), path: file.path.clone(), entries }
    }

    /// The name of the list.
    pub fn name(&self) -> (r: &str)
        ensures
            r@ == self.name_view(),
    {
        self.name.as_str()
    }

    /// The path of the list.
    pub fn path(&self) -> (r: &str)
        ensures
            r@ == self.path_view(),
    {
        self.path.as_str()
    }

    /// Copies of the entries that pass `pattern`, in order.
    pub fn entries(&self, pattern: Option<&str>) -> (r: Vec<String>)
        ensures
            r@.map_values(|s: String| s@) == passing(*self, opt_view(pattern)),
    {
        let mut r: Vec<String> = Vec::new();
        push_matching(&mut r, &self.entries, pattern);
        assert(r@.map_values(|s: String| s@) =~= passing(*self, opt_view(pattern)));
        r
    }

    /// Up to `number` passing entries, drawn without repetition (see
    /// [`is_subset_draw`]).
    pub fn random_entries(&self, pattern: Option<&str>, number: usize) -> (r: Vec<String>)
        ensures
            is_subset_draw(*self, opt_view(pattern), number as int, r@.map_values(|s: String| s@)),
            subset_sampled(*self, opt_view(pattern), number, r@.map_values(|s: String| s@)),
    {
        let all = self.entries(pattern);
        let ghost pv = passing(*self, opt_view(pattern));
        let picked = choose_multiple(&all, number);
        let ghost idx = choose|idx: Seq<int>|
            idx.len() == picked@.len() && distinct_positions(idx, all@.len() as int) && forall|k: int|
                0 <= k < picked@.len() ==> *picked@[k] == all@[#[trigger] idx[k]];
        let mut r: Vec<String> = Vec::new();
        let mut i: usize = 0;
        while i < picked.len()
            invariant
                i <= picked@.len(),
                r@.len() == i,
                pv == all@.map_values(|s: String| s@),
                idx.len() == picked@.len(),
                forall|k: int| 0 <= k < picked@.len() ==> *picked@[k] == all@[#[trigger] idx[k]],
                distinct_positions(idx, all@.len() as int),
                forall|k: int| 0 <= k < i ==> (#[trigger] r@[k])@ == pv[idx[k]],
            decreases picked@.len() - i,
        {
            r.push(picked[i].clone());
            i = i + 1;
        }
        proof {
            let v = r@.map_values(|s: String| s@);
            assert forall|k: int| 0 <= k < v.len() implies #[trigger] v[k] == pv[idx[k]] by {
                assert(v[k] == r@[k]@);
            }
            assert(distinct_positions(idx, pv.len() as int));
            assert(v =~= picked@.map_values(|x: &String| x@)) by {
                assert forall|k: int| 0 <= k < v.len() implies v[k] == picked@.map_values(|x: &String| x@)[k] by {
                    assert(v[k] == pv[idx[k]]);
                    assert(*picked@[k] == all@[idx[k]]);
                }
            }
            assert(subset_sampled(*self, opt_view(pattern), number, v));
        }
        r
    }

    /// One passing entry drawn at random; an error naming the list (and the
    /// pattern) when no entry passes.
    pub fn random_entry(&self, pattern: Option<&str>) -> (r: Result<String, RambleError>)
        ensures
            passing(*self, opt_view(pattern)).len() > 0 ==> (r matches Ok(s) && passing(*self, opt_view(pattern)).contains(s@)),
            r matches Ok(s) ==> entry_chosen(*self, opt_view(pattern), s@),
            passing(*self, opt_view(pattern)).len() == 0 ==> (r matches Err(e) && e.is_custom(match pattern {
                Some(p) => "could not find any entry in "@ + self.name_view() + " with pattern '"@ + p@ + "'"@,
                None => "could not find any entry in "@ + self.name_view(),
            })),
    {
        let all = self.entries(pattern);
        match choose_one(&all) {
            Some(s) => {
                proof {
                    let i = choose|i: int| 0 <= i < all@.len() && *s == all@[i];
                    assert(all@.map_values(|x: String| x@)[i] == s@);
                }
                let c = s.clone();
                assert(entry_chosen(*self, opt_view(pattern), c@));
                Ok(c)
            },
            None => {
                let mut m = String::from_str("could not find any entry in ");
                m.append(self.name.as_str());
                match pattern {
                    Some(p) => {
                        m.append(" with pattern '");
                        m.append(p);
                        m.append("'");
                    },
                    None => {},
                }
                Err(RambleError::Custom(m))
            },
        }
    }
}

/// Passing every line keeps every line.
proof fn lemma_matching_none(lines: Seq<Seq<char>>)
    ensures
        matching_lines(lines, None) == lines,
    decreases lines.len(),
{
    if lines.len() > 0 {
        lemma_matching_none(lines.drop_last());
        assert(lines.drop_last().push(lines.last()) == lines);
    }
}

/// The files that the loader's selection keeps, in order.
pub open spec fn selected_files(files: Seq<DictFile>, sel: Seq<Seq<char>>) -> Seq<DictFile>
    decreases files.len(),
{
    if files.len() == 0 {
        seq![]
    } else {
        let rest = selected_files(files.drop_last(), sel);
        if selected(sel, files.last().name@) { rest.push(files.last()) } else { rest }
    }
}

/// Whether `ts` are the lists read from `files`, one for one and in order.
pub open spec fn read_from(ts: Seq<Type>, files: Seq<DictFile>) -> bool {
    &&& ts.len() == files.len()
    &&& forall|i: int| 0 <= i < ts.len() ==> (#[trigger] ts[i]).name_view() == files[i].name@
        && ts[i].path_view() == files[i].path@ && ts[i].entry_views() == files[i].line_views()
}

/// A line with its lists' names: `[ adjective-list | theme-list ]`, two tabs,
/// then the pair.
pub open spec fn detailed_line(adj_list: Seq<char>, theme_list: Seq<char>, adj: Seq<char>, theme: Seq<char>) -> Seq<char> {
    seq!['[', ' '] + centered(adj_list, 12) + seq![' ', '|', ' '] + centered(theme_list, 12) + seq![' ', ']', '\t', '\t']
        + pair_line(adj, theme)
}

/// The generator: adjective lists and theme lists.
#[derive(Debug)]
pub struct RandomRamble {
    adjs: Vec<Type>,
    themes: Vec<Type>,
}

impl RandomRamble {
    /// The adjective lists.
    pub closed spec fn adj_types(&self) -> Seq<Type> {
        self.adjs@
    }

    /// The theme lists.
    pub closed spec fn theme_types(&self) -> Seq<Type> {
        self.themes@
    }

    /// Whether `s` is a line a draw without template may give: a passing entry
    /// of an adjective list and one of a theme list, paired, with the lists'
    /// names when `with_details` is set.
    pub open spec fn plain_draw(&self, pattern: Option<Seq<char>>, with_details: bool, s: Seq<char>) -> bool {
        exists|i: int, j: int, x: int, y: int|
            0 <= i < self.adj_types().len() && 0 <= j < self.theme_types().len()
                && 0 <= x < passing(self.adj_types()[i], pattern).len()
                && 0 <= y < passing(self.theme_types()[j], pattern).len() && s == #[trigger] draw_line(
                self.adj_types()[i],
                self.theme_types()[j],
                passing(self.adj_types()[i], pattern)[x],
                passing(self.theme_types()[j], pattern)[y],
                with_details,
            )
    }

    /// Whether `s` is what one round without template gives: a position drawn by
    /// [`choose_one`] among the positions of all the adjective lists with a
    /// passing entry and an entry drawn from that list (see [`entry_chosen`]),
    /// the same for themes, paired as [`draw_line`] says.
    pub open spec fn plain_round(&self, pattern: Option<Seq<char>>, with_details: bool, s: Seq<char>) -> bool {
        exists|ac: Vec<usize>, tc: Vec<usize>, ai: &usize, ti: &usize, adj: Seq<char>, theme: Seq<char>|
            #![trigger call_ensures(choose_one::<usize>, (&ac,), Some(ai)), call_ensures(choose_one::<usize>, (&tc,), Some(ti)), entry_chosen(self.adj_types()[*ai as int], pattern, adj), entry_chosen(self.theme_types()[*ti as int], pattern, theme)]
            drawable_positions(self.adj_types(), pattern, ac@) && drawable_positions(self.theme_types(), pattern, tc@)
                && call_ensures(choose_one::<usize>, (&ac,), Some(ai)) && call_ensures(choose_one::<usize>, (&tc,), Some(ti))
                && *ai < self.adj_types().len() && *ti < self.theme_types().len()
                && entry_chosen(self.adj_types()[*ai as int], pattern, adj)
                && entry_chosen(self.theme_types()[*ti as int], pattern, theme)
                && s == draw_line(self.adj_types()[*ai as int], self.theme_types()[*ti as int], adj, theme, with_details)
    }

    /// Whether lines are asked for with a template that asks for an adjective
    /// while there is no adjective list, or for a theme while there is no theme
    /// list.
    pub open spec fn lacks_lists(&self, number: usize, template: Option<Seq<char>>) -> bool {
        match template {
            Some(t) => number > 0 && ((asks("adj"@, t) && self.adj_types().len() == 0)
                || (asks("theme"@, t) && self.theme_types().len() == 0)),
            None => false,
        }
    }

    /// Whether `r` is what [`RandomRamble::randomize`] may give.
    ///
    /// Without template, every round draws a list among the lists of each side
    /// that have a passing entry, and a passing entry of it: so `number` lines,
    /// each a plain draw, when both sides have such a list, and none otherwise.
    /// With a template, at most `number` renderings. It never fails.
    pub open spec fn randomized(
        &self,
        pattern: Option<Seq<char>>,
        number: usize,
        template: Option<Seq<char>>,
        with_details: bool,
        r: Result<Vec<String>, RambleError>,
    ) -> bool {
        &&& template is None ==> (r matches Ok(v) && {
            &&& v@.len() == if any_candidate(self.adj_types(), pattern) && any_candidate(self.theme_types(), pattern) {
                number as int
            } else {
                0
            }
            &&& forall|k: int| 0 <= k < v@.len() ==> self.plain_draw(pattern, with_details, (#[trigger] v@[k])@)
            &&& forall|k: int| 0 <= k < v@.len() ==> self.plain_round(pattern, with_details, (#[trigger] v@[k])@)
        })
        &&& template is Some ==> (r matches Ok(v) && v@.len() <= number)
    }

    /// The lists the selections keep of the directories' files: an empty
    /// selection keeps all; items starting with `'!'` leave lists out;
    /// otherwise the named lists are kept.
    pub fn new(
        adj_files: &Vec<DictFile>,
        adjs: Vec<&str>,
        theme_files: &Vec<DictFile>,
        themes: Vec<&str>,
    ) -> (r: Result<Self, RambleError>)
        ensures
            r matches Ok(rr) && read_from(rr.adj_types(), selected_files(adj_files@, str_views(adjs@)))
                && read_from(rr.theme_types(), selected_files(theme_files@, str_views(themes@))),
    {
        let a = selected_types(adj_files, &adjs);
        let t = selected_types(theme_files, &themes);
        Ok(RandomRamble { adjs: a, themes: t })
    }

    /// Random lines. Without template: `number` pairs of a passing adjective and
    /// a passing theme from lists that have one (see [`RandomRamble::plain_draw`]),
    /// or none when no list of a side has one. With a template: up to `number`
    /// renderings, each with random picks from the lists under `adj`, `theme`,
    /// `adjs` and `themes` as the template asks for them; failed renderings are
    /// left out.
    pub fn randomize(
        &self,
        pattern: Option<&str>,
        number: usize,
        template: Option<&str>,
        with_details: bool,
    ) -> (r: Result<Vec<String>, RambleError>)
        requires
            !self.lacks_lists(number, opt_view(template)),
        ensures
            self.randomized(opt_view(pattern), number, opt_view(template), with_details, r),
            template matches Some(t) ==> (r matches Ok(v) ==> rendered_rounds(*self, opt_view(pattern), number, t, v@.map_values(|s: String| s@))),
    {
        match template {
            None => Ok(self.plain_lines(pattern, number, with_details)),
            Some(t) => self.templated_lines(pattern, number, t),
        }
    }
}


/// The line of a draw: the pair, after the lists' names when `with_details` is set.
pub open spec fn draw_line(a: Type, t: Type, adj: Seq<char>, theme: Seq<char>, with_details: bool) -> Seq<char> {
    if with_details {
        detailed_line(a.name_view(), t.name_view(), adj, theme)
    } else {
        pair_line(adj, theme)
    }
}

/// Whether `pos` are the positions of exactly the lists of `ts` that may be
/// drawn (see [`is_candidate`]).
pub open spec fn drawable_positions(ts: Seq<Type>, pattern: Option<Seq<char>>, pos: Seq<usize>) -> bool {
    &&& forall|k: int| 0 <= k < pos.len() ==> (#[trigger] pos[k]) < ts.len() && is_candidate(ts[pos[k] as int], pattern)
    &&& forall|i: int| 0 <= i < ts.len() && is_candidate(#[trigger] ts[i], pattern) ==> pos.contains(i as usize)
}

/// Whether a list may be drawn without template: it has a passing entry.
pub open spec fn is_candidate(t: Type, pattern: Option<Seq<char>>) -> bool {
    passing(t, pattern).len() > 0
}

/// Whether some list may be drawn.
pub open spec fn any_candidate(ts: Seq<Type>, pattern: Option<Seq<char>>) -> bool {
    exists|i: int| 0 <= i < ts.len() && is_candidate(#[trigger] ts[i], pattern)
}

/// The lists of the files the selection keeps, in order.
fn selected_types(files: &Vec<DictFile>, sel: &Vec<&str>) -> (r: Vec<Type>)
    ensures
        read_from(r@, selected_files(files@, str_views(sel@))),
{
    let mut r: Vec<Type> = Vec::new();
    let mut i: usize = 0;
    while i < files.len()
        invariant
            i <= files@.len(),
            read_from(r@, selected_files(files@.take(i as int), str_views(sel@))),
        decreases files@.len() - i,
    {
        assert(files@.take(i + 1).drop_last() == files@.take(i as int));
        assert(files@.take(i + 1).last() == files@[i as int]);
        if is_selected(sel, files[i].name.as_str()) {
            let t = Type::new(&files[i]);
            r.push(t);
        }
        i = i + 1;
    }
    assert(files@.take(files@.len() as int) == files@);
    r
}

/// The positions of the lists that may be drawn (see [`is_candidate`]), in order:
/// exactly the lists with a passing entry.
pub fn candidate_positions(types: &Vec<Type>, pattern: Option<&str>) -> (r: Vec<usize>)
    ensures
        forall|k: int| 0 <= k < r@.len() ==> (#[trigger] r@[k]) < types@.len() && is_candidate(types@[r@[k] as int], opt_view(pattern)),
        forall|i: int| 0 <= i < types@.len() && is_candidate(#[trigger] types@[i], opt_view(pattern)) ==> r@.contains(i as usize),
        any_candidate(types@, opt_view(pattern)) ==> r@.len() > 0,
{
    let mut r: Vec<usize> = Vec::new();
    let mut i: usize = 0;
    while i < types.len()
        invariant
            i <= types@.len(),
            forall|k: int| 0 <= k < r@.len() ==> (#[trigger] r@[k]) < types@.len() && is_candidate(types@[r@[k] as int], opt_view(pattern)),
            (exists|j: int| 0 <= j < i && is_candidate(#[trigger] types@[j], opt_view(pattern))) ==> r@.len() > 0,
            forall|j: int| 0 <= j < i && is_candidate(#[trigger] types@[j], opt_view(pattern)) ==> r@.contains(j as usize),
        decreases types@.len() - i,
    {
        let keep = types[i].entries(pattern).len() > 0;
        let ghost before = r@;
        if keep {
            r.push(i);
            assert(r@[r@.len() - 1] == i);
        }
        assert(keep == is_candidate(types@[i as int], opt_view(pattern)));
        assert forall|j: int| 0 <= j < i + 1 && is_candidate(#[trigger] types@[j], opt_view(pattern)) implies r@.contains(j as usize) by {
            if j < i {
                let k = choose|k: int| 0 <= k < before.len() && before[k] == j as usize;
                assert(r@[k] == before[k]);
            }
        }
        i = i + 1;
    }
    r
}

/// The line of a draw (see [`draw_line`]).
fn line_for(a: &Type, t: &Type, adj: &String, theme: &String, with_details: bool) -> (s: String)
    ensures
        s@ == draw_line(*a, *t, adj@, theme@, with_details),
{
    let mut s = String::new();
    if with_details {
        push_char(&mut s, '[');
        push_char(&mut s, ' ');
        let c1 = center(a.name(), 12);
        s.append(c1.as_str());
        push_char(&mut s, ' ');
        push_char(&mut s, '|');
        push_char(&mut s, ' ');
        let c2 = center(t.name(), 12);
        s.append(c2.as_str());
        push_char(&mut s, ' ');
        push_char(&mut s, ']');
        push_char(&mut s, '\t');
        push_char(&mut s, '\t');
    }
    s.append(adj.as_str());
    push_char(&mut s, ' ');
    s.append(theme.as_str());
    s
}

/// Whether `v` is what [`Type::random_entries`] may give: as many passing
/// entries of `t` as `number` asks and it has, from distinct positions.
pub open spec fn is_subset_draw(t: Type, pattern: Option<Seq<char>>, number: int, v: Seq<Seq<char>>) -> bool {
    &&& v.len() == min_len(number, passing(t, pattern).len() as int)
    &&& exists|idx: Seq<int>|
        idx.len() == v.len() && distinct_positions(idx, passing(t, pattern).len() as int) && forall|k: int|
            0 <= k < v.len() ==> #[trigger] v[k] == passing(t, pattern)[idx[k]]
}

/// A table of subsets as plain values: list names with their entries.
pub open spec fn table_view(m: Seq<(String, Vec<String>)>) -> Seq<(Seq<char>, Seq<Seq<char>>)> {
    m.map_values(|e: (String, Vec<String>)| (e.0@, e.1@.map_values(|s: String| s@)))
}

/// Whether no two rows of a table have the same name.
pub open spec fn names_distinct(t: Seq<(Seq<char>, Seq<Seq<char>>)>) -> bool {
    forall|i: int, j: int| 0 <= i < j < t.len() ==> (#[trigger] t[i]).0 != (#[trigger] t[j]).0
}

/// Whether `row` is a draw from the list `t` under its name.
pub open spec fn row_drawn_from(row: (Seq<char>, Seq<Seq<char>>), t: Type, pattern: Option<Seq<char>>, number: int) -> bool {
    row.0 == t.name_view() && is_subset_draw(t, pattern, number, row.1) && subset_sampled(t, pattern, number as usize, row.1)
}

/// Whether `row` is named after the list `t`.
pub open spec fn row_named(row: (Seq<char>, Seq<Seq<char>>), t: Type) -> bool {
    row.0 == t.name_view()
}

/// Whether the list at `j` is the last of its name among the first `n` lists.
pub open spec fn last_of_name(types: Seq<Type>, j: int, n: int) -> bool {
    forall|k: int| j < k < n ==> (#[trigger] types[k]).name_view() != types[j].name_view()
}

/// Whether each row of `t` is a draw from the last of the first `n` lists with
/// its name, and each of those lists has a row.
pub open spec fn table_covers(types: Seq<Type>, p: Option<Seq<char>>, number: int, n: int, t: Seq<(Seq<char>, Seq<Seq<char>>)>) -> bool {
    &&& forall|r: int| 0 <= r < t.len() ==> exists|j: int| 0 <= j < n
        && row_drawn_from(#[trigger] t[r], #[trigger] types[j], p, number) && last_of_name(types, j, n)
    &&& forall|j: int| 0 <= j < n ==> exists|r: int| 0 <= r < t.len()
        && row_named(#[trigger] t[r], #[trigger] types[j])
}

/// Whether `t` is a table of random subsets of the lists `types`, keyed by list
/// name as in an ordered map: one row per name, each a draw from the last list
/// of that name.
pub open spec fn is_subset_table(types: Seq<Type>, pattern: Option<Seq<char>>, number: int, t: Seq<(Seq<char>, Seq<Seq<char>>)>) -> bool {
    names_distinct(t) && table_covers(types, pattern, number, types.len() as int, t)
}

/// Sets the row of the list called `name` to `subset`, replacing the one it had.
fn put_subset(m: &mut Vec<(String, Vec<String>)>, name: &String, subset: Vec<String>)
    requires
        names_distinct(table_view(old(m)@)),
    ensures
        names_distinct(table_view(final(m)@)),
        table_view(final(m)@).contains((name@, subset@.map_values(|s: String| s@))),
        forall|i: int| 0 <= i < final(m)@.len() && (#[trigger] table_view(final(m)@)[i]).0 != name@
            ==> table_view(old(m)@).contains(table_view(final(m)@)[i]),
        forall|j: int| 0 <= j < old(m)@.len() && (#[trigger] table_view(old(m)@)[j]).0 != name@
            ==> table_view(final(m)@).contains(table_view(old(m)@)[j]),
{
    let ghost old_t = table_view(m@);
    let ghost row = (name@, subset@.map_values(|s: String| s@));
    let mut i: usize = 0;
    while i < m.len()
        invariant
            i <= m@.len(),
            m@ == old(m)@,
            old_t == table_view(m@),
            names_distinct(old_t),
            row == (name@, subset@.map_values(|s: String| s@)),
            forall|k: int| 0 <= k < i ==> (#[trigger] old_t[k]).0 != name@,
        decreases m@.len() - i,
    {
        if crate::text::str_eq(m[i].0.as_str(), name.as_str()) {
            let n = name.clone();
            m.set(i, (n, subset));
            proof {
                let new_t = table_view(m@);
                assert(new_t =~= old_t.update(i as int, row));
                assert(new_t[i as int] == row);
                assert forall|j: int| 0 <= j < old_t.len() && (#[trigger] old_t[j]).0 != name@
                    implies new_t.contains(old_t[j]) by {
                    assert(new_t[j] == old_t[j]);
                }
                assert forall|a: int, b: int| 0 <= a < b < new_t.len()
                    implies (#[trigger] new_t[a]).0 != (#[trigger] new_t[b]).0 by {
                    if a != i && b != i {
                        assert(old_t[a].0 != old_t[b].0);
                    } else if a == i {
                        assert(old_t[a].0 != old_t[b].0);
                    } else {
                        assert(old_t[a].0 != old_t[b].0);
                    }
                }
                assert forall|k: int| 0 <= k < new_t.len() && (#[trigger] new_t[k]).0 != name@
                    implies old_t.contains(new_t[k]) by {
                    assert(new_t[k] == old_t[k]);
                }
            }
            return;
        }
        i = i + 1;
    }
    m.push((name.clone(), subset));
    proof {
        let new_t = table_view(m@);
        assert(new_t =~= old_t.push(row));
        assert(new_t[old_t.len() as int] == row);
        assert forall|j: int| 0 <= j < old_t.len() && (#[trigger] old_t[j]).0 != name@
            implies new_t.contains(old_t[j]) by {
            assert(new_t[j] == old_t[j]);
        }
        assert forall|k: int| 0 <= k < new_t.len() && (#[trigger] new_t[k]).0 != name@
            implies old_t.contains(new_t[k]) by {
            assert(new_t[k] == old_t[k]);
        }
    }
}

/// Whether `j` is the JSON object of a table: one member per row, in order,
/// each the row's name with the list of its entries.
pub open spec fn is_table_json(j: Json, t: Seq<(Seq<char>, Seq<Seq<char>>)>) -> bool {
    j matches Json::Object(m) && m@.len() == t.len() && forall|i: int|
        0 <= i < t.len() ==> (#[trigger] m@[i]).0@ == t[i].0 && is_string_list(m@[i].1, t[i].1)
}

/// The JSON object of a table of subsets (see [`is_table_json`]).
pub fn table_json(m: &Vec<(String, Vec<String>)>) -> (j: Json)
    ensures
        is_table_json(j, table_view(m@)),
{
    let mut members: Vec<(String, Json)> = Vec::new();
    let mut i: usize = 0;
    while i < m.len()
        invariant
            i <= m@.len(),
            members@.len() == i,
            forall|k: int| 0 <= k < i ==> (#[trigger] members@[k]).0@ == table_view(m@)[k].0
                && is_string_list(members@[k].1, table_view(m@)[k].1),
        decreases m@.len() - i,
    {
        members.push((m[i].0.clone(), strings_json(&m[i].1)));
        i = i + 1;
    }
    Json::Object(members)
}

/// The names a templated round fills, in order: `adj`, `theme`, `adjs`, `themes`,
/// each when asked for.
pub open spec fn round_keys(adj: bool, theme: bool, adjs: bool, themes: bool) -> Seq<Seq<char>> {
    (if adj { seq!["adj"@] } else { seq![] }) + (if theme { seq!["theme"@] } else { seq![] })
        + (if adjs { seq!["adjs"@] } else { seq![] }) + (if themes { seq!["themes"@] } else { seq![] })
}

/// Whether `j` is what a round may pick from a table: an entry of some row, or
/// null, which only a table with an empty row gives.
pub open spec fn picked_from(t: Seq<(Seq<char>, Seq<Seq<char>>)>, j: Json) -> bool {
    ||| (j is Null && exists|r: int| 0 <= r < t.len() && (#[trigger] t[r]).1.len() == 0)
    ||| (j matches Json::Str(s) && exists|r: int| 0 <= r < t.len() && (#[trigger] t[r]).1.contains(s@))
}

/// Whether `members` is the context of a templated round over the adjective
/// table `adj_t` and the theme table `theme_t`: the names of [`round_keys`], `adj`
/// and `theme` picked from their table, `adjs` and `themes` the tables themselves.
pub open spec fn is_round_context(
    adj_t: Seq<(Seq<char>, Seq<Seq<char>>)>,
    theme_t: Seq<(Seq<char>, Seq<Seq<char>>)>,
    adj: bool,
    theme: bool,
    adjs: bool,
    themes: bool,
    members: Seq<(String, Json)>,
) -> bool {
    &&& members.map_values(|p: (String, Json)| p.0@) == round_keys(adj, theme, adjs, themes)
    &&& forall|i: int| 0 <= i < members.len() ==> member_fits(adj_t, theme_t, #[trigger] members[i])
}

/// Whether a member of a round's context holds what its name asks for: `adj`
/// and `theme` a pick from their table, `adjs` and `themes` the table itself.
pub open spec fn member_fits(
    adj_t: Seq<(Seq<char>, Seq<Seq<char>>)>,
    theme_t: Seq<(Seq<char>, Seq<Seq<char>>)>,
    m: (String, Json),
) -> bool {
    &&& m.0@ == "adj"@ ==> picked_from(adj_t, m.1)
    &&& m.0@ == "theme"@ ==> picked_from(theme_t, m.1)
    &&& m.0@ == "adjs"@ ==> is_table_json(m.1, adj_t)
    &&& m.0@ == "themes"@ ==> is_table_json(m.1, theme_t)
}

/// The four names of a round's context are distinct.
proof fn lemma_round_keys_distinct()
    ensures
        "adj"@ != "theme"@,
        "adj"@ != "adjs"@,
        "adj"@ != "themes"@,
        "theme"@ != "adjs"@,
        "theme"@ != "themes"@,
        "adjs"@ != "themes"@,
{
    reveal_strlit("adj");
    reveal_strlit("theme");
    reveal_strlit("adjs");
    reveal_strlit("themes");
    assert("adj"@.len() == 3);
    assert("theme"@.len() == 5);
    assert("adjs"@.len() == 4);
    assert("themes"@.len() == 6);
}

/// Appends a member that holds what its name asks for to members that do.
fn push_member(
    members: &mut Vec<(String, Json)>,
    key: String,
    value: Json,
    Ghost(at): Ghost<Seq<(Seq<char>, Seq<Seq<char>>)>>,
    Ghost(tt): Ghost<Seq<(Seq<char>, Seq<Seq<char>>)>>,
)
    requires
        forall|i: int| 0 <= i < old(members)@.len() ==> member_fits(at, tt, #[trigger] old(members)@[i]),
        member_fits(at, tt, (key, value)),
    ensures
        final(members)@ == old(members)@.push((key, value)),
        forall|i: int| 0 <= i < final(members)@.len() ==> member_fits(at, tt, #[trigger] final(members)@[i]),
{
    let ghost before = members@;
    members.push((key, value));
    assert forall|i: int| 0 <= i < members@.len() implies member_fits(at, tt, #[trigger] members@[i]) by {
        if i < before.len() {
            assert(members@[i] == before[i]);
        }
    }
}

/// Whether `r` is what one pick from `table` gives: the row [`choose_one`]
/// picked, then the entry it picked in that row; nothing exactly when that row
/// is empty.
pub open spec fn row_entry_picked(table: Vec<(String, Vec<String>)>, r: Option<String>) -> bool {
    exists|row: &(String, Vec<String>)|
        #[trigger] call_ensures(choose_one::<(String, Vec<String>)>, (&table,), Some(row))
            && (r is None <==> row.1@.len() == 0)
            && (r matches Some(s) ==> exists|a: &String| #[trigger] call_ensures(choose_one::<String>, (&row.1,), Some(a)) && s@ == a@)
}

/// One pick from a table: a random row, then a random entry of it; nothing when
/// that row is empty (see [`row_entry_picked`]).
pub fn pick_row_entry(table: &Vec<(String, Vec<String>)>) -> (r: Option<String>)
    requires
        table@.len() > 0,
    ensures
        r is None ==> exists|k: int| 0 <= k < table@.len() && (#[trigger] table_view(table@)[k]).1.len() == 0,
        r matches Some(s) ==> exists|k: int| 0 <= k < table@.len() && (#[trigger] table_view(table@)[k]).1.contains(s@),
        row_entry_picked(*table, r),
{
    let row = match choose_one(table) {
        Some(row) => row,
        None => return None,
    };
    let ghost k = choose|k: int| 0 <= k < table@.len() && *row == table@[k];
    assert(table_view(table@)[k].1 == row.1@.map_values(|s: String| s@));
    match choose_one(&row.1) {
        Some(a) => {
            proof {
                let x = choose|x: int| 0 <= x < row.1@.len() && *a == row.1@[x];
                assert(table_view(table@)[k].1[x] == a@);
            }
            let r = Some(a.clone());
            assert(row_entry_picked(*table, r));
            r
        },
        None => {
            assert(row_entry_picked(*table, None));
            None
        },
    }
}

/// The entries among the outcomes of picks, in order.
pub open spec fn picked_entries(outs: Seq<Option<String>>) -> Seq<Seq<char>>
    decreases outs.len(),
{
    if outs.len() == 0 {
        seq![]
    } else {
        let rest = picked_entries(outs.drop_last());
        match outs.last() {
            Some(s) => rest.push(s@),
            None => rest,
        }
    }
}

/// Whether `j` is the adjective of a round over `table`: fifteen picks from the
/// table (see [`row_entry_picked`]), then one of the entries they gave, picked
/// by [`choose_one`]; null exactly when none of the fifteen gave an entry.
pub open spec fn adjective_drawn(table: Vec<(String, Vec<String>)>, j: Json) -> bool {
    exists|outs: Seq<Option<String>>, picks: Vec<String>|
        #![trigger picked_entries(outs), string_views(picks@)]
        outs.len() == 15 && (forall|i: int| 0 <= i < 15 ==> #[trigger] call_ensures(pick_row_entry, (&table,), outs[i]))
            && string_views(picks@) == picked_entries(outs)
            && (j is Null <==> picks@.len() == 0)
            && (j matches Json::Str(s) ==> exists|x: &String| #[trigger] call_ensures(choose_one::<String>, (&picks,), Some(x)) && s@ == x@)
}

/// Whether `j` is the theme of a round over `table`: one pick from the table,
/// null when it gave nothing.
pub open spec fn theme_drawn(table: Vec<(String, Vec<String>)>, j: Json) -> bool {
    exists|o: Option<String>| #[trigger] call_ensures(pick_row_entry, (&table,), o)
        && match o {
            Some(t) => j matches Json::Str(x) && x@ == t@,
            None => j is Null,
        }
}

/// The context of one templated round (see [`is_round_context`]), given the
/// round's random tables: `adj` a random pick among fifteen random draws from
/// the adjective table, `theme` one random draw from the theme table (null when
/// none gave an entry), and the tables themselves under `adjs` and `themes`.
pub fn round_context(
    adj_table: &Vec<(String, Vec<String>)>,
    theme_table: &Vec<(String, Vec<String>)>,
    adj: bool,
    theme: bool,
    adjs: bool,
    themes: bool,
) -> (members: Vec<(String, Json)>)
    requires
        adj ==> adj_table@.len() > 0,
        theme ==> theme_table@.len() > 0,
    ensures
        is_round_context(table_view(adj_table@), table_view(theme_table@), adj, theme, adjs, themes, members@),
        adj ==> adjective_drawn(*adj_table, members@[0].1),
        theme ==> theme_drawn(*theme_table, members@[if adj { 1int } else { 0int }].1),
{
    let ghost at = table_view(adj_table@);
    let ghost tt = table_view(theme_table@);
    proof {
        lemma_round_keys_distinct();
    }
    let mut members: Vec<(String, Json)> = Vec::new();
    if adj {
        let mut picks: Vec<String> = Vec::new();
        let ghost mut outs: Seq<Option<String>> = seq![];
        let mut n: usize = 0;
        while n < 15
            invariant
                n <= 15,
                adj_table@.len() > 0,
                at == table_view(adj_table@),
                forall|x: int| 0 <= x < picks@.len() ==> exists|k: int| 0 <= k < at.len()
                    && (#[trigger] at[k]).1.contains((#[trigger] picks@[x])@),
                picks@.len() < n ==> exists|k: int| 0 <= k < at.len() && (#[trigger] at[k]).1.len() == 0,
                outs.len() == n,
                forall|i: int| 0 <= i < n ==> #[trigger] call_ensures(pick_row_entry, (adj_table,), outs[i]),
                picks@.map_values(|s: String| s@) == picked_entries(outs),
            decreases 15 - n,
        {
            let o = pick_row_entry(adj_table);
            let ghost before = outs;
            let ghost old_picks = picks@;
            proof {
                outs = outs.push(o);
                assert(outs.drop_last() == before);
            }
            match o {
                Some(a) => {
                    picks.push(a);
                    assert(picks@.map_values(|s: String| s@) =~= old_picks.map_values(|s: String| s@).push(a@));
                },
                None => {},
            }
            n = n + 1;
        }
        let value = match choose_one(&picks) {
            Some(a) => {
                proof {
                    let x = choose|x: int| 0 <= x < picks@.len() && *a == picks@[x];
                    assert(exists|k: int| 0 <= k < at.len() && (#[trigger] at[k]).1.contains(picks@[x]@));
                }
                let v = Json::Str(a.clone());
                assert(string_views(picks@) == picked_entries(outs));
                assert(adjective_drawn(*adj_table, v));
                v
            },
            None => {
                assert(string_views(picks@) == picked_entries(outs));
                assert(adjective_drawn(*adj_table, Json::Null));
                Json::Null
            },
        };
        let key = String::from_str("adj");
        push_member(&mut members, key, value, Ghost(at), Ghost(tt));
    }
    let ghost m1 = members@;
    if theme {
        let o = pick_row_entry(theme_table);
        let ghost og = o;
        let value = match o {
            Some(t) => Json::Str(t),
            None => Json::Null,
        };
        assert(theme_drawn(*theme_table, value)) by {
            assert(call_ensures(pick_row_entry, (theme_table,), og));
        }
        let key = String::from_str("theme");
        push_member(&mut members, key, value, Ghost(at), Ghost(tt));
    }
    let ghost m2 = members@;
    if adjs {
        let key = String::from_str("adjs");
        let value = table_json(adj_table);
        push_member(&mut members, key, value, Ghost(at), Ghost(tt));
    }
    let ghost m3 = members@;
    if themes {
        let key = String::from_str("themes");
        let value = table_json(theme_table);
        push_member(&mut members, key, value, Ghost(at), Ghost(tt));
    }
    proof {
        let keys = members@.map_values(|p: (String, Json)| p.0@);
        assert(m1.map_values(|p: (String, Json)| p.0@) =~= (if adj { seq!["adj"@] } else { seq![] }));
        assert(m2.map_values(|p: (String, Json)| p.0@) =~= (if adj { seq!["adj"@] } else { seq![] })
            + (if theme { seq!["theme"@] } else { seq![] }));
        assert(m3.map_values(|p: (String, Json)| p.0@) =~= (if adj { seq!["adj"@] } else { seq![] })
            + (if theme { seq!["theme"@] } else { seq![] }) + (if adjs { seq!["adjs"@] } else { seq![] }));
        assert(keys =~= round_keys(adj, theme, adjs, themes));
    }
    members
}

/// Each row of the table after a step is a draw from a list of its name.
proof fn lemma_step_rows(
    types: Seq<Type>,
    p: Option<Seq<char>>,
    number: int,
    i: int,
    old_t: Seq<(Seq<char>, Seq<Seq<char>>)>,
    new_t: Seq<(Seq<char>, Seq<Seq<char>>)>,
    row: (Seq<char>, Seq<Seq<char>>),
)
    requires
        0 <= i < types.len(),
        row.0 == types[i].name_view(),
        is_subset_draw(types[i], p, number, row.1),
        subset_sampled(types[i], p, number as usize, row.1),
        table_covers(types, p, number, i, old_t),
        names_distinct(new_t),
        new_t.contains(row),
        forall|k: int| 0 <= k < new_t.len() && (#[trigger] new_t[k]).0 != row.0 ==> old_t.contains(new_t[k]),
    ensures
        forall|r: int| 0 <= r < new_t.len() ==> exists|j: int| 0 <= j < i + 1
            && row_drawn_from(#[trigger] new_t[r], #[trigger] types[j], p, number) && last_of_name(types, j, i + 1),
{
    let ri = choose|ri: int| 0 <= ri < new_t.len() && new_t[ri] == row;
    assert forall|r: int| 0 <= r < new_t.len() implies exists|j: int| 0 <= j < i + 1
        && row_drawn_from(#[trigger] new_t[r], #[trigger] types[j], p, number) && last_of_name(types, j, i + 1) by {
        if new_t[r].0 == row.0 {
            if r != ri {
                if r < ri {
                    assert(new_t[r].0 != new_t[ri].0);
                } else {
                    assert(new_t[ri].0 != new_t[r].0);
                }
            }
            assert(row_drawn_from(new_t[r], types[i], p, number));
            assert(last_of_name(types, i, i + 1));
        } else {
            assert(old_t.contains(new_t[r]));
            let r0 = choose|r0: int| 0 <= r0 < old_t.len() && old_t[r0] == new_t[r];
            let j = choose|j: int| 0 <= j < i && row_drawn_from(#[trigger] old_t[r0], #[trigger] types[j], p, number)
                && last_of_name(types, j, i);
            assert(row_drawn_from(new_t[r], types[j], p, number));
            assert(last_of_name(types, j, i + 1)) by {
                assert forall|k: int| j < k < i + 1 implies (#[trigger] types[k]).name_view() != types[j].name_view() by {
                    if k == i {
                        assert(types[j].name_view() == new_t[r].0);
                    }
                }
            }
        }
    }
}

/// Each of the lists up to `i` has a row in the table after a step.
proof fn lemma_step_names(
    types: Seq<Type>,
    p: Option<Seq<char>>,
    number: int,
    i: int,
    old_t: Seq<(Seq<char>, Seq<Seq<char>>)>,
    new_t: Seq<(Seq<char>, Seq<Seq<char>>)>,
    row: (Seq<char>, Seq<Seq<char>>),
)
    requires
        0 <= i < types.len(),
        row.0 == types[i].name_view(),
        table_covers(types, p, number, i, old_t),
        new_t.contains(row),
        forall|j: int| 0 <= j < old_t.len() && (#[trigger] old_t[j]).0 != row.0 ==> new_t.contains(old_t[j]),
    ensures
        forall|j: int| 0 <= j < i + 1 ==> exists|r: int| 0 <= r < new_t.len()
            && row_named(#[trigger] new_t[r], #[trigger] types[j]),
{
    let ri = choose|ri: int| 0 <= ri < new_t.len() && new_t[ri] == row;
    assert forall|j: int| 0 <= j < i + 1 implies exists|r: int| 0 <= r < new_t.len()
        && row_named(#[trigger] new_t[r], #[trigger] types[j]) by {
        if j == i {
            assert(row_named(new_t[ri], types[j]));
        } else {
            let r0 = choose|r0: int| 0 <= r0 < old_t.len() && row_named(#[trigger] old_t[r0], #[trigger] types[j]);
            if old_t[r0].0 == row.0 {
                assert(row_named(new_t[ri], types[j]));
            } else {
                assert(new_t.contains(old_t[r0]));
                let r1 = choose|r1: int| 0 <= r1 < new_t.len() && new_t[r1] == old_t[r0];
                assert(row_named(new_t[r1], types[j]));
            }
        }
    }
}

/// One step of filling a table of subsets: after the row of list `i` is put,
/// the table covers the lists up to `i` included.
proof fn lemma_table_step(
    types: Seq<Type>,
    p: Option<Seq<char>>,
    number: int,
    i: int,
    old_t: Seq<(Seq<char>, Seq<Seq<char>>)>,
    new_t: Seq<(Seq<char>, Seq<Seq<char>>)>,
    row: (Seq<char>, Seq<Seq<char>>),
)
    requires
        0 <= i < types.len(),
        row.0 == types[i].name_view(),
        is_subset_draw(types[i], p, number, row.1),
        subset_sampled(types[i], p, number as usize, row.1),
        table_covers(types, p, number, i, old_t),
        names_distinct(new_t),
        new_t.contains(row),
        forall|k: int| 0 <= k < new_t.len() && (#[trigger] new_t[k]).0 != row.0 ==> old_t.contains(new_t[k]),
        forall|j: int| 0 <= j < old_t.len() && (#[trigger] old_t[j]).0 != row.0 ==> new_t.contains(old_t[j]),
    ensures
        table_covers(types, p, number, i + 1, new_t),
{
    lemma_step_rows(types, p, number, i, old_t, new_t, row);
    lemma_step_names(types, p, number, i, old_t, new_t, row);
}

/// Whether `out` is what one templated round of `rr` may give: `template`
/// rendered once, escaping HTML, with a context holding the values of a round
/// (see [`is_round_context`]) drawn from tables of random subsets of the lists,
/// the adjective and the theme picked as [`adjective_drawn`] and
/// [`theme_drawn`] say.
pub open spec fn round_rendering(
    rr: RandomRamble,
    pattern: Option<Seq<char>>,
    number: int,
    template: &str,
    out: Result<String, tera::Error>,
) -> bool {
    exists|av: Vec<(String, Vec<String>)>, tv: Vec<(String, Vec<String>)>, members: Seq<(String, Json)>, ctx: tera::Context|
        #![trigger is_subset_table(rr.adj_types(), pattern, number, table_view(av@)), is_subset_table(rr.theme_types(), pattern, number, table_view(tv@)), members_map(members), context_entries(ctx)]
        is_subset_table(rr.adj_types(), pattern, number, table_view(av@))
        && is_subset_table(rr.theme_types(), pattern, number, table_view(tv@))
        && is_round_context(
            table_view(av@),
            table_view(tv@),
            asks("adj"@, template@),
            asks("theme"@, template@),
            occurs_in("adjs"@, template@),
            occurs_in("themes"@, template@),
            members,
        )
        && (asks("adj"@, template@) ==> adjective_drawn(av, members[0].1))
        && (asks("theme"@, template@) ==> theme_drawn(tv, members[if asks("adj"@, template@) { 1int } else { 0int }].1))
        && context_entries(ctx) == members_map(members)
        && call_ensures(one_off, (template, &ctx, true), out)
}

/// Whether `v` is what `number` templated rounds of `rr` give: the renderings
/// that succeeded, in order, each round rendered as [`round_rendering`] says.
pub open spec fn rendered_rounds(rr: RandomRamble, pattern: Option<Seq<char>>, number: usize, template: &str, v: Seq<Seq<char>>) -> bool {
    exists|outs: Seq<Result<String, tera::Error>>|
        outs.len() == number
        && (forall|i: int| 0 <= i < outs.len() ==> round_rendering(rr, pattern, number as int, template, #[trigger] outs[i]))
        && v == renderings(outs)
}

/// The renderings among the outcomes of rendering rounds, in order.
pub open spec fn renderings(outs: Seq<Result<String, tera::Error>>) -> Seq<Seq<char>>
    decreases outs.len(),
{
    if outs.len() == 0 {
        seq![]
    } else {
        let rest = renderings(outs.drop_last());
        match outs.last() {
            Ok(s) => rest.push(s@),
            Err(_) => rest,
        }
    }
}

/// A value a round puts in its context holds no number.
proof fn lemma_fitting_member_number_free(
    at: Seq<(Seq<char>, Seq<Seq<char>>)>,
    tt: Seq<(Seq<char>, Seq<Seq<char>>)>,
    m: (String, Json),
)
    requires
        member_fits(at, tt, m),
        m.0@ == "adj"@ || m.0@ == "theme"@ || m.0@ == "adjs"@ || m.0@ == "themes"@,
    ensures
        number_free(m.1),
{
    if m.0@ == "adjs"@ || m.0@ == "themes"@ {
        let t = if m.0@ == "adjs"@ { at } else { tt };
        assert(is_table_json(m.1, t));
        if let Json::Object(rows) = m.1 {
            assert forall|i: int| 0 <= i < rows@.len() implies number_free((#[trigger] rows@[i]).1) by {
                assert(is_string_list(rows@[i].1, t[i].1));
                if let Json::Array(a) = rows@[i].1 {
                    assert forall|j: int| 0 <= j < a@.len() implies number_free(#[trigger] a@[j]) by {
                        assert(a@[j] matches Json::Str(_));
                    }
                }
            }
        }
    }
}

/// The context of a round holds no number.
proof fn lemma_round_context_number_free(
    at: Seq<(Seq<char>, Seq<Seq<char>>)>,
    tt: Seq<(Seq<char>, Seq<Seq<char>>)>,
    adj: bool,
    theme: bool,
    adjs: bool,
    themes: bool,
    members: Seq<(String, Json)>,
)
    requires
        is_round_context(at, tt, adj, theme, adjs, themes, members),
    ensures
        forall|k: int| 0 <= k < members.len() ==> number_free(#[trigger] members[k].1),
{
    let keys = members.map_values(|p: (String, Json)| p.0@);
    assert forall|k: int| 0 <= k < members.len() implies number_free(#[trigger] members[k].1) by {
        assert(keys[k] == members[k].0@);
        assert(round_keys(adj, theme, adjs, themes).contains(keys[k]));
        assert(member_fits(at, tt, members[k]));
        lemma_fitting_member_number_free(at, tt, members[k]);
    }
}

impl RandomRamble {
    /// The draws without template (see [`RandomRamble::randomized`]).
    #[verifier::rlimit(40)]
    fn plain_lines(&self, pattern: Option<&str>, number: usize, with_details: bool) -> (v: Vec<String>)
        ensures
            self.randomized(opt_view(pattern), number, None, with_details, Ok(v)),
    {
        let adjs = candidate_positions(&self.adjs, pattern);
        let themes = candidate_positions(&self.themes, pattern);
        let ghost p = opt_view(pattern);
        let ghost full = any_candidate(self.adj_types(), p) && any_candidate(self.theme_types(), p);
        let mut v: Vec<String> = Vec::new();
        let mut k: usize = 0;
        while k < number
            invariant
                k <= number,
                v@.len() <= k,
                full ==> v@.len() == k,
                full == (any_candidate(self.adj_types(), p) && any_candidate(self.theme_types(), p)),
                p == opt_view(pattern),
                (!any_candidate(self.adj_types(), p) || !any_candidate(self.theme_types(), p)) ==> v@.len() == 0,
                forall|j: int| 0 <= j < adjs@.len() ==> (#[trigger] adjs@[j]) < self.adjs@.len() && is_candidate(self.adjs@[adjs@[j] as int], p),
                forall|j: int| 0 <= j < themes@.len() ==> (#[trigger] themes@[j]) < self.themes@.len() && is_candidate(self.themes@[themes@[j] as int], p),
                any_candidate(self.adjs@, p) ==> adjs@.len() > 0,
                any_candidate(self.themes@, p) ==> themes@.len() > 0,
                forall|j: int| 0 <= j < v@.len() ==> self.plain_draw(p, with_details, (#[trigger] v@[j])@),
                forall|j: int| 0 <= j < v@.len() ==> self.plain_round(p, with_details, (#[trigger] v@[j])@),
                drawable_positions(self.adj_types(), p, adjs@),
                drawable_positions(self.theme_types(), p, themes@),
            decreases number - k,
        {
            k = k + 1;
            let ai_ref = match choose_one(&adjs) {
                Some(i) => i,
                None => continue,
            };
            let ai = *ai_ref;
            let adj = match self.adjs[ai].random_entry(pattern) {
                Ok(a) => a,
                Err(_) => continue,
            };
            let ti_ref = match choose_one(&themes) {
                Some(i) => i,
                None => continue,
            };
            let ti = *ti_ref;
            let theme = match self.themes[ti].random_entry(pattern) {
                Ok(t) => t,
                Err(_) => continue,
            };
            let line = line_for(&self.adjs[ai], &self.themes[ti], &adj, &theme, with_details);
            proof {
                let pa = passing(self.adjs@[ai as int], p);
                let pt = passing(self.themes@[ti as int], p);
                let x = choose|x: int| 0 <= x < pa.len() && pa[x] == adj@;
                let y = choose|y: int| 0 <= y < pt.len() && pt[y] == theme@;
                assert(line@ == draw_line(self.adj_types()[ai as int], self.theme_types()[ti as int], pa[x], pt[y], with_details));
                assert(self.plain_draw(p, with_details, line@));
                assert(drawable_positions(self.adj_types(), p, adjs@));
                assert(drawable_positions(self.theme_types(), p, themes@));
                assert(entry_chosen(self.adj_types()[ai as int], p, adj@));
                assert(entry_chosen(self.theme_types()[ti as int], p, theme@));
                assert(self.plain_round(p, with_details, line@));
            }
            v.push(line);
        }
        v
    }

    /// The random subsets of every list, by name, for one templated round.
    fn subsets(types: &Vec<Type>, pattern: Option<&str>, number: usize) -> (m: Vec<(String, Vec<String>)>)
        ensures
            is_subset_table(types@, opt_view(pattern), number as int, table_view(m@)),
    {
        let ghost p = opt_view(pattern);
        let mut m: Vec<(String, Vec<String>)> = Vec::new();
        let mut i: usize = 0;
        while i < types.len()
            invariant
                i <= types@.len(),
                p == opt_view(pattern),
                names_distinct(table_view(m@)),
                table_covers(types@, p, number as int, i as int, table_view(m@)),
            decreases types@.len() - i,
        {
            let ghost old_t = table_view(m@);
            let subset = types[i].random_entries(pattern, number);
            let ghost row = (types@[i as int].name_view(), subset@.map_values(|s: String| s@));
            assert(is_subset_draw(types@[i as int], p, number as int, row.1));
            assert(subset_sampled(types@[i as int], p, number as int as usize, row.1));
            put_subset(&mut m, &types[i].name, subset);
            proof {
                lemma_table_step(types@, p, number as int, i as int, old_t, table_view(m@), row);
            }
            i = i + 1;
        }
        m
    }

    /// One templated round (see [`round_rendering`]): fresh random tables, the
    /// round's context over them, and `template` rendered once with it.
    fn render_round(
        &self,
        pattern: Option<&str>,
        number: usize,
        template: &str,
        adj_needed: bool,
        theme_needed: bool,
        wants_adjs: bool,
        wants_themes: bool,
    ) -> (res: Result<String, tera::Error>)
        requires
            adj_needed == asks("adj"@, template@),
            theme_needed == asks("theme"@, template@),
            wants_adjs == occurs_in("adjs"@, template@),
            wants_themes == occurs_in("themes"@, template@),
            adj_needed ==> self.adj_types().len() > 0,
            theme_needed ==> self.theme_types().len() > 0,
        ensures
            round_rendering(*self, opt_view(pattern), number as int, template, res),
    {
        let ghost p = opt_view(pattern);
        let adj_map = Self::subsets(&self.adjs, pattern, number);
        let theme_map = Self::subsets(&self.themes, pattern, number);
        proof {
            // A table has a row for each list, so a side with a list has a row.
            if adj_needed {
                let first = self.adjs@[0];
                assert(table_view(adj_map@).len() > 0);
            }
            if theme_needed {
                let first = self.themes@[0];
                assert(table_view(theme_map@).len() > 0);
            }
        }
        let members = round_context(&adj_map, &theme_map, adj_needed, theme_needed, wants_adjs, wants_themes);
        proof {
            lemma_round_context_number_free(
                table_view(adj_map@),
                table_view(theme_map@),
                adj_needed,
                theme_needed,
                wants_adjs,
                wants_themes,
                members@,
            );
        }
        let c = match context_of(&members) {
            Some(c) => c,
            None => {
                assert(false);
                return Err(crate::refactor::filter::tera_error(crate::refactor::filter::FilterError::BadNumber.message()));
            },
        };
        let res = one_off(template, &c, true);
        assert(is_subset_table(self.adj_types(), p, number as int, table_view(adj_map@)));
        assert(is_subset_table(self.theme_types(), p, number as int, table_view(theme_map@)));
        assert(context_entries(c) == members_map(members@));
        res
    }

    /// The templated renderings (see [`RandomRamble::randomized`]).
    #[verifier::rlimit(40)]
    fn templated_lines(&self, pattern: Option<&str>, number: usize, template: &str) -> (r: Result<Vec<String>, RambleError>)
        requires
            number > 0 && asks("adj"@, template@) ==> self.adj_types().len() > 0,
            number > 0 && asks("theme"@, template@) ==> self.theme_types().len() > 0,
        ensures
            r matches Ok(v) && v@.len() <= number,
            r matches Ok(v) ==> rendered_rounds(*self, opt_view(pattern), number, template, v@.map_values(|s: String| s@)),
    {
        let adj_needed = asks_for("adj[^s]", template);
        let theme_needed = asks_for("theme[^s]", template);
        let wants_adjs = contains_str(template, "adjs");
        let wants_themes = contains_str(template, "themes");
        let ghost p = opt_view(pattern);
        let ghost mut outs: Seq<Result<String, tera::Error>> = seq![];
        let mut out: Vec<String> = Vec::new();
        let mut k: usize = 0;
        while k < number
            invariant
                k <= number,
                out@.len() <= k,
                p == opt_view(pattern),
                adj_needed == asks("adj"@, template@),
                theme_needed == asks("theme"@, template@),
                wants_adjs == occurs_in("adjs"@, template@),
                wants_themes == occurs_in("themes"@, template@),
                number > 0 && adj_needed ==> self.adjs@.len() > 0,
                number > 0 && theme_needed ==> self.themes@.len() > 0,
                outs.len() == k,
                forall|i: int| 0 <= i < outs.len() ==> round_rendering(*self, p, number as int, template, #[trigger] outs[i]),
                out@.map_values(|s: String| s@) == renderings(outs),
            decreases number - k,
        {
            k = k + 1;
            let res = self.render_round(pattern, number, template, adj_needed, theme_needed, wants_adjs, wants_themes);
            proof {
                let ghost before = outs;
                outs = outs.push(res);
                assert(outs.drop_last() == before);
            }
            let ghost old_out = out@;
            match res {
                Ok(s) => {
                    out.push(s);
                    assert(out@.map_values(|s: String| s@) =~= old_out.map_values(|s: String| s@).push(s@));
                },
                Err(_) => {},
            }
        }
        Ok(out)
    }

    /// [`RandomRamble::randomize`] where the template allows it; nothing when
    /// lines are asked for and the template asks for an adjective (`adj`
    /// followed by anything but `s`) while there is no adjective list, or for a
    /// theme while there is no theme list.
    pub fn try_randomize(
        &self,
        pattern: Option<&str>,
        number: usize,
        template: Option<&str>,
        with_details: bool,
    ) -> (r: Option<Result<Vec<String>, RambleError>>)
        ensures
            r matches Some(x) ==> self.randomized(opt_view(pattern), number, opt_view(template), with_details, x),
            r matches Some(Ok(v)) ==> (template matches Some(t) ==> rendered_rounds(*self, opt_view(pattern), number, t, v@.map_values(|s: String| s@))),
            r is None <==> self.lacks_lists(number, opt_view(template)),
    {
        match template {
            None => Some(self.randomize(pattern, number, None, with_details)),
            Some(t) => {
                let adj_needed = asks_for("adj[^s]", t);
                let theme_needed = asks_for("theme[^s]", t);
                if number > 0 && ((adj_needed && self.adjs.len() == 0) || (theme_needed && self.themes.len() == 0)) {
                    None
                } else {
                    Some(self.randomize(pattern, number, template, with_details))
                }
            },
        }
    }
}

/// Every line drawn without template pairs an entry of an adjective list and
/// one of a theme list, and both pass the pattern.
pub proof fn law_draws_pass_pattern(rr: RandomRamble, pattern: Option<Seq<char>>, with_details: bool, s: Seq<char>)
    requires
        rr.plain_draw(pattern, with_details, s),
    ensures
        exists|i: int, j: int, a: Seq<char>, t: Seq<char>|
            0 <= i < rr.adj_types().len() && 0 <= j < rr.theme_types().len()
                && #[trigger] rr.adj_types()[i].entry_views().contains(a) && #[trigger] rr.theme_types()[j].entry_views().contains(t)
                && crate::text::pattern_accepts(pattern, a) && crate::text::pattern_accepts(pattern, t)
                && s == draw_line(rr.adj_types()[i], rr.theme_types()[j], a, t, with_details),
{
    let (i, j, x, y) = choose|i: int, j: int, x: int, y: int|
        0 <= i < rr.adj_types().len() && 0 <= j < rr.theme_types().len()
            && 0 <= x < passing(rr.adj_types()[i], pattern).len()
            && 0 <= y < passing(rr.theme_types()[j], pattern).len() && s == #[trigger] draw_line(
            rr.adj_types()[i],
            rr.theme_types()[j],
            passing(rr.adj_types()[i], pattern)[x],
            passing(rr.theme_types()[j], pattern)[y],
            with_details,
        );
    crate::text::law_matching_lines_pass(rr.adj_types()[i].entry_views(), pattern);
    crate::text::law_matching_lines_pass(rr.theme_types()[j].entry_views(), pattern);
    let a = passing(rr.adj_types()[i], pattern)[x];
    let t = passing(rr.theme_types()[j], pattern)[y];
    assert(rr.adj_types()[i].entry_views().contains(a));
    assert(rr.theme_types()[j].entry_views().contains(t));
}


/// Every value a templated round picks from a table of subsets is an entry of
/// one of the lists, and it passes the pattern.
pub proof fn law_round_picks_pass_pattern(
    types: Seq<Type>,
    pattern: Option<Seq<char>>,
    number: int,
    t: Seq<(Seq<char>, Seq<Seq<char>>)>,
    picked: Json,
    s: Seq<char>,
)
    requires
        is_subset_table(types, pattern, number, t),
        picked_from(t, picked),
        picked matches Json::Str(x) && x@ == s,
    ensures
        exists|i: int| 0 <= i < types.len() && #[trigger] types[i].entry_views().contains(s),
        crate::text::pattern_accepts(pattern, s),
{
    let r = choose|r: int| 0 <= r < t.len() && (#[trigger] t[r]).1.contains(s);
    let j = choose|j: int| 0 <= j < types.len() && row_drawn_from(#[trigger] t[r], #[trigger] types[j], pattern, number);
    let p = passing(types[j], pattern);
    let idx = choose|idx: Seq<int>|
        idx.len() == t[r].1.len() && distinct_positions(idx, p.len() as int) && forall|k: int|
            0 <= k < t[r].1.len() ==> #[trigger] t[r].1[k] == p[idx[k]];
    let k = choose|k: int| 0 <= k < t[r].1.len() && t[r].1[k] == s;
    assert(t[r].1[k] == p[idx[k]]);
    crate::text::law_matching_lines_pass(types[j].entry_views(), pattern);
    assert(types[j].entry_views().contains(p[idx[k]]));
}

/// The outcomes of picks hold no entry exactly when every pick gave nothing.
proof fn lemma_picked_entries_empty(outs: Seq<Option<String>>)
    ensures
        picked_entries(outs).len() == 0 <==> forall|i: int| 0 <= i < outs.len() ==> (#[trigger] outs[i]) is None,
    decreases outs.len(),
{
    if outs.len() > 0 {
        lemma_picked_entries_empty(outs.drop_last());
        if picked_entries(outs).len() == 0 {
            assert forall|i: int| 0 <= i < outs.len() implies (#[trigger] outs[i]) is None by {
                if i < outs.len() - 1 {
                    assert(outs.drop_last()[i] == outs[i]);
                }
            }
        } else {
            if forall|i: int| 0 <= i < outs.len() ==> (#[trigger] outs[i]) is None {
                assert(outs[outs.len() - 1] is None);
                assert forall|i: int| 0 <= i < outs.drop_last().len() implies (#[trigger] outs.drop_last()[i]) is None by {
                    assert(outs[i] is None);
                }
            }
        }
    }
}

/// In a templated round that asks for an adjective, the adjective comes from
/// fifteen picks of a row and an entry of it, made by [`pick_row_entry`] on the
/// adjective table; it is null exactly when every one of the fifteen picks gave
/// nothing, so a table with a non-empty row gives null only when all fifteen
/// picks chose an empty row.
pub proof fn law_round_adjective_from_fifteen_picks(
    adj_table: &Vec<(String, Vec<String>)>,
    theme_table: &Vec<(String, Vec<String>)>,
    theme: bool,
    adjs: bool,
    themes: bool,
    members: Vec<(String, Json)>,
)
    requires
        call_ensures(round_context, (adj_table, theme_table, true, theme, adjs, themes), members),
    ensures
        exists|outs: Seq<Option<String>>|
            outs.len() == 15 && (forall|i: int| 0 <= i < 15 ==> #[trigger] call_ensures(pick_row_entry, (adj_table,), outs[i]))
                && (members@[0].1 is Null <==> forall|i: int| 0 <= i < 15 ==> (#[trigger] outs[i]) is None),
{
    assert(adjective_drawn(*adj_table, members@[0].1));
    let (outs, picks) = choose|outs: Seq<Option<String>>, picks: Vec<String>|
        #![trigger picked_entries(outs), string_views(picks@)]
        outs.len() == 15 && (forall|i: int| 0 <= i < 15 ==> #[trigger] call_ensures(pick_row_entry, (adj_table,), outs[i]))
            && string_views(picks@) == picked_entries(outs)
            && (members@[0].1 is Null <==> picks@.len() == 0)
            && (members@[0].1 matches Json::Str(s) ==> exists|x: &String| #[trigger] call_ensures(choose_one::<String>, (&picks,), Some(x)) && s@ == x@);
    lemma_picked_entries_empty(outs);
    assert(picks@.len() == string_views(picks@).len());
}

/// A pick from a table gives nothing only when the row it chose is empty.
pub proof fn law_pick_nothing_only_from_an_empty_row(table: &Vec<(String, Vec<String>)>)
    requires
        call_ensures(pick_row_entry, (table,), None::<String>),
    ensures
        exists|row: &(String, Vec<String>)|
            #[trigger] call_ensures(choose_one::<(String, Vec<String>)>, (table,), Some(row)) && row.1@.len() == 0,
{
    assert(row_entry_picked(*table, None));
}

/// Every list that has an entry passing the pattern is among the positions a
/// round without template draws from, and only those are.
pub proof fn law_every_candidate_list_can_be_drawn(types: &Vec<Type>, pattern: Option<&str>, r: Vec<usize>)
    requires
        call_ensures(candidate_positions, (types, pattern), r),
    ensures
        forall|i: int| 0 <= i < types@.len() && passing(#[trigger] types@[i], opt_view(pattern)).len() > 0 ==> r@.contains(i as usize),
        forall|k: int| 0 <= k < r@.len() ==> (#[trigger] r@[k]) < types@.len() && passing(types@[r@[k] as int], opt_view(pattern)).len() > 0,
{
    assert forall|i: int| 0 <= i < types@.len() && passing(#[trigger] types@[i], opt_view(pattern)).len() > 0 implies r@.contains(i as usize) by {
        assert(is_candidate(types@[i], opt_view(pattern)));
    }
}

} // verus!
