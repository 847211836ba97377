//! The first generator: every chosen list's lines go into one pool of
//! adjectives and one pool of themes, and random pairs are drawn from the two
//! pools without repetition.

use vstd::prelude::*;
use crate::chance::{choose_multiple, distinct_positions, min_len};
use crate::dict::{chosen, is_chosen, string_views, DictFile};
use crate::text::{
    center, centered, matching_lines, opt_view, push_char, push_matching, pattern_accepts,
};

verus! {

/// A word list known by its file name and path.
#[derive(Debug)]
pub struct Type {
    name: String,
    path: String,
    entries: Vec<String>,
}

impl Type {
    /// The name of the list.
    pub closed spec fn name_view(&self) -> Seq<char> {
        self.name@
    }

    /// The path of the list.
    pub closed spec fn path_view(&self) -> Seq<char> {
        self.path@
    }

    /// The entries the list holds.
    pub closed spec fn entry_views(&self) -> Seq<Seq<char>> {
        self.entries@.map_values(|e: String| e@)
    }

    /// A list named after `file`, with its path and, as the first generator
    /// records it, no entries.
    pub fn new(file: &DictFile) -> (t: Type)
        ensures
            t.name_view() == file.name@,
            t.path_view() == file.path@,
            t.entry_views() == Seq::<Seq<char>>::empty(),
    {
        let t = Type { name: file.name.clone(), path: file.path.clone(), entries: Vec::new() };
        assert(t.entry_views() =~= Seq::<Seq<char>>::empty());
        t
    }

    /// The name of the list.
    pub fn name(&self) -> (r: &str)
        ensures
            r@ == self.name_view(),
    {
        self.name.as_str()
    }

    /// The path of the list.
    pub fn path(&self) -> (r: &str)
        ensures
            r@ == self.path_view(),
    {
        self.path.as_str()
    }
}

/// The optional selection, as character sequences.
pub open spec fn sel_view(sel: Option<Vec<String>>) -> Option<Seq<Seq<char>>> {
    match sel {
        Some(s) => Some(string_views(s@)),
        None => None,
    }
}

/// The names of the files a selection keeps, in order.
pub open spec fn chosen_names(files: Seq<DictFile>, sel: Option<Seq<Seq<char>>>) -> Seq<Seq<char>>
    decreases files.len(),
{
    if files.len() == 0 {
        seq![]
    } else {
        let rest = chosen_names(files.drop_last(), sel);
        if chosen(sel, files.last().name@) { rest.push(files.last().name@) } else { rest }
    }
}

/// The files a selection keeps, in order.
pub open spec fn chosen_files(files: Seq<DictFile>, sel: Option<Seq<Seq<char>>>) -> Seq<DictFile>
    decreases files.len(),
{
    if files.len() == 0 {
        seq![]
    } else {
        let rest = chosen_files(files.drop_last(), sel);
        if chosen(sel, files.last().name@) { rest.push(files.last()) } else { rest }
    }
}

/// Whether `ts` are the lists named after `files`, one for one and in order,
/// with their paths and no entries.
pub open spec fn named_after(ts: Seq<Type>, files: Seq<DictFile>) -> bool {
    &&& ts.len() == files.len()
    &&& forall|i: int| 0 <= i < ts.len() ==> (#[trigger] ts[i]).name_view() == files[i].name@
        && ts[i].path_view() == files[i].path@ && ts[i].entry_views() == Seq::<Seq<char>>::empty()
}

/// The adjectives pool: the lines passing `pattern` of every kept file, file after file.
pub open spec fn adjective_pool(files: Seq<DictFile>, sel: Option<Seq<Seq<char>>>, pattern: Option<Seq<char>>) -> Seq<Seq<char>>
    decreases files.len(),
{
    if files.len() == 0 {
        seq![]
    } else {
        adjective_pool(files.drop_last(), sel, pattern) + if chosen(sel, files.last().name@) {
            matching_lines(files.last().line_views(), pattern)
        } else {
            seq![]
        }
    }
}

/// Each line paired with the name of the file it comes from.
pub open spec fn with_origin(lines: Seq<Seq<char>>, name: Seq<char>) -> Seq<(Seq<char>, Seq<char>)> {
    lines.map_values(|l: Seq<char>| (l, name))
}

/// The themes pool: like the adjectives pool, each line with its file name.
pub open spec fn theme_pool(files: Seq<DictFile>, sel: Option<Seq<Seq<char>>>, pattern: Option<Seq<char>>) -> Seq<(Seq<char>, Seq<char>)>
    decreases files.len(),
{
    if files.len() == 0 {
        seq![]
    } else {
        theme_pool(files.drop_last(), sel, pattern) + if chosen(sel, files.last().name@) {
            with_origin(matching_lines(files.last().line_views(), pattern), files.last().name@)
        } else {
            seq![]
        }
    }
}

/// An adjective and a theme, with a space between.
pub open spec fn pair_line(adj: Seq<char>, theme: Seq<char>) -> Seq<char> {
    adj + seq![' '] + theme
}

/// A pair preceded by the name of the theme's list, centred in brackets.
pub open spec fn provenance_line(adj: Seq<char>, theme: Seq<char>, origin: Seq<char>) -> Seq<char> {
    seq!['['] + centered(origin, 15) + seq![']', '\t'] + pair_line(adj, theme)
}

/// The generator: the adjective lists and the theme lists it was given.
#[derive(Debug)]
pub struct RandomRamble {
    adjs: Vec<Type>,
    themes: Vec<Type>,
}

impl RandomRamble {
    /// The adjective lists.
    pub closed spec fn adj_types(&self) -> Seq<Type> {
        self.adjs@
    }

    /// The theme lists.
    pub closed spec fn theme_types(&self) -> Seq<Type> {
        self.themes@
    }

    /// The names of the adjective lists.
    pub closed spec fn adj_names(&self) -> Seq<Seq<char>> {
        self.adjs@.map_values(|t: Type| t.name_view())
    }

    /// The names of the theme lists.
    pub closed spec fn theme_names(&self) -> Seq<Seq<char>> {
        self.themes@.map_values(|t: Type| t.name_view())
    }

    /// The lists of the directories' files that the selections keep: no
    /// selection keeps all; items starting with `'!'` leave lists out; otherwise
    /// the named lists are kept.
    pub fn new(
        adj_files: &Vec<DictFile>,
        adjs: Option<Vec<String>>,
        theme_files: &Vec<DictFile>,
        themes: Option<Vec<String>>,
    ) -> (r: Self)
        ensures
            r.adj_names() == chosen_names(adj_files@, sel_view(adjs)),
            r.theme_names() == chosen_names(theme_files@, sel_view(themes)),
            named_after(r.adj_types(), chosen_files(adj_files@, sel_view(adjs))),
            named_after(r.theme_types(), chosen_files(theme_files@, sel_view(themes))),
    {
        let a = kept_types(adj_files, &adjs);
        let t = kept_types(theme_files, &themes);
        RandomRamble { adjs: a, themes: t }
    }

    /// The adjective lists.
    pub fn adjectives(&self) -> (r: &Vec<Type>)
        ensures
            r@ == self.adj_types(),
    {
        &self.adjs
    }

    /// The theme lists.
    pub fn themes(&self) -> (r: &Vec<Type>)
        ensures
            r@ == self.theme_types(),
    {
        &self.themes
    }
}

/// A list for every file the selection keeps, in order.
fn kept_types(files: &Vec<DictFile>, sel: &Option<Vec<String>>) -> (r: Vec<Type>)
    ensures
        r@.map_values(|t: Type| t.name_view()) == chosen_names(files@, sel_view(*sel)),
        named_after(r@, chosen_files(files@, sel_view(*sel))),
{
    let mut r: Vec<Type> = Vec::new();
    let mut i: usize = 0;
    while i < files.len()
        invariant
            i <= files.len(),
            r@.map_values(|t: Type| t.name_view()) == chosen_names(files@.take(i as int), sel_view(*sel)),
            named_after(r@, chosen_files(files@.take(i as int), sel_view(*sel))),
        decreases files.len() - i,
    {
        assert(files@.take(i + 1).drop_last() == files@.take(i as int));
        assert(files@.take(i + 1).last() == files@[i as int]);
        if is_chosen(sel, files[i].name.as_str()) {
            let ghost before = r@;
            r.push(Type::new(&files[i]));
            assert(r@.map_values(|t: Type| t.name_view()) =~= before.map_values(|t: Type| t.name_view()).push(files@[i as int].name@));
        }
        i = i + 1;
    }
    assert(files@.take(files.len() as int) == files@);
    r
}

/// The adjectives pool of the files (see [`adjective_pool`]).
pub fn get_adjs(adj_files: &Vec<DictFile>, adjs: &Option<Vec<String>>, pattern: Option<&str>) -> (r: Vec<String>)
    ensures
        r@.map_values(|s: String| s@) == adjective_pool(adj_files@, sel_view(*adjs), opt_view(pattern)),
{
    let mut r: Vec<String> = Vec::new();
    let mut i: usize = 0;
    assert(r@.map_values(|s: String| s@) =~= Seq::<Seq<char>>::empty());
    while i < adj_files.len()
        invariant
            i <= adj_files.len(),
            r@.map_values(|s: String| s@) == adjective_pool(adj_files@.take(i as int), sel_view(*adjs), opt_view(pattern)),
        decreases adj_files.len() - i,
    {
        assert(adj_files@.take(i + 1).drop_last() == adj_files@.take(i as int));
        if is_chosen(adjs, adj_files[i].name.as_str()) {
            push_matching(&mut r, &adj_files[i].lines, pattern);
        } else {
            assert(adjective_pool(adj_files@.take(i + 1), sel_view(*adjs), opt_view(pattern))
                =~= adjective_pool(adj_files@.take(i as int), sel_view(*adjs), opt_view(pattern)));
        }
        i = i + 1;
    }
    assert(adj_files@.take(adj_files.len() as int) == adj_files@);
    r
}

/// The pairs of each kept file's passing lines and the file's name, appended to `out`.
fn push_with_origin(out: &mut Vec<(String, String)>, file: &DictFile, pattern: Option<&str>)
    ensures
        final(out)@.map_values(|p: (String, String)| (p.0@, p.1@)) == old(out)@.map_values(|p: (String, String)| (p.0@, p.1@))
            + with_origin(matching_lines(file.line_views(), opt_view(pattern)), file.name@),
{
    let mut lines: Vec<String> = Vec::new();
    push_matching(&mut lines, &file.lines, pattern);
    assert(lines@.map_values(|s: String| s@) =~= matching_lines(file.line_views(), opt_view(pattern)));
    let ghost start = out@.map_values(|p: (String, String)| (p.0@, p.1@));
    let ghost views = lines@.map_values(|s: String| s@);
    let mut i: usize = 0;
    while i < lines.len()
        invariant
            i <= lines.len(),
            views == lines@.map_values(|s: String| s@),
            out@.map_values(|p: (String, String)| (p.0@, p.1@)) == start + with_origin(views.take(i as int), file.name@),
        decreases lines.len() - i,
    {
        let ghost before = out@;
        out.push((lines[i].clone(), file.name.clone()));
        assert(out@.map_values(|p: (String, String)| (p.0@, p.1@)) =~= before.map_values(|p: (String, String)| (p.0@, p.1@)).push((lines[i as int]@, file.name@)));
        assert(with_origin(views.take(i + 1), file.name@) =~= with_origin(views.take(i as int), file.name@).push((views[i as int], file.name@)));
        i = i + 1;
    }
    assert(views.take(lines.len() as int) == views);
}

/// The themes pool of the files (see [`theme_pool`]).
pub fn get_themes(theme_files: &Vec<DictFile>, themes: &Option<Vec<String>>, pattern: Option<&str>) -> (r: Vec<(String, String)>)
    ensures
        r@.map_values(|p: (String, String)| (p.0@, p.1@)) == theme_pool(theme_files@, sel_view(*themes), opt_view(pattern)),
{
    let mut r: Vec<(String, String)> = Vec::new();
    let mut i: usize = 0;
    assert(r@.map_values(|p: (String, String)| (p.0@, p.1@)) =~= Seq::<(Seq<char>, Seq<char>)>::empty());
    while i < theme_files.len()
        invariant
            i <= theme_files.len(),
            r@.map_values(|p: (String, String)| (p.0@, p.1@)) == theme_pool(theme_files@.take(i as int), sel_view(*themes), opt_view(pattern)),
        decreases theme_files.len() - i,
    {
        assert(theme_files@.take(i + 1).drop_last() == theme_files@.take(i as int));
        if is_chosen(themes, theme_files[i].name.as_str()) {
            push_with_origin(&mut r, &theme_files[i], pattern);
        } else {
            assert(theme_pool(theme_files@.take(i + 1), sel_view(*themes), opt_view(pattern))
                =~= theme_pool(theme_files@.take(i as int), sel_view(*themes), opt_view(pattern)));
        }
        i = i + 1;
    }
    assert(theme_files@.take(theme_files.len() as int) == theme_files@);
    r
}

/// `adj`, a space and `theme`.
fn pair_string(adj: &String, theme: &String) -> (r: String)
    ensures
        r@ == pair_line(adj@, theme@),
{
    let mut r = adj.clone();
    push_char(&mut r, ' ');
    r.append(theme.as_str());
    r
}

/// Whether `r` is made of pairs drawn from the two pools without repetition.
pub open spec fn drawn_pairs(
    r: Seq<Seq<char>>,
    adjs: Seq<Seq<char>>,
    themes: Seq<(Seq<char>, Seq<char>)>,
    with_provenance: bool,
) -> bool {
    exists|ia: Seq<int>, it: Seq<int>|
        ia.len() == r.len() && it.len() == r.len() && distinct_positions(ia, adjs.len() as int)
            && distinct_positions(it, themes.len() as int) && forall|k: int| 0 <= k < r.len() ==>
                #[trigger] r[k] == if with_provenance {
                    provenance_line(adjs[ia[k]], themes[it[k]].0, themes[it[k]].1)
                } else {
                    pair_line(adjs[ia[k]], themes[it[k]].0)
                }
}

/// Whether `r` is the lines made of the draws `asel` of adjectives and `tsel` of
/// themes, paired in the order drawn, as many as the shorter draw.
pub open spec fn lines_of_draws(asel: Seq<&String>, tsel: Seq<&(String, String)>, with_provenance: bool, r: Seq<Seq<char>>) -> bool {
    &&& r.len() == min_len(asel.len() as int, tsel.len() as int)
    &&& forall|k: int| 0 <= k < r.len() ==> #[trigger] r[k] == if with_provenance {
        provenance_line(asel[k]@, tsel[k].0@, tsel[k].1@)
    } else {
        pair_line(asel[k]@, tsel[k].0@)
    }
}

/// Whether `r` is the lines of a draw of `number` adjectives out of `adjs` and
/// `number` themes out of `themes`, each made by [`choose_multiple`].
pub open spec fn drawn_by_sampling(adjs: Vec<String>, themes: Vec<(String, String)>, number: usize, with_provenance: bool, r: Seq<Seq<char>>) -> bool {
    exists|asel: Vec<&String>, tsel: Vec<&(String, String)>|
        #[trigger] call_ensures(choose_multiple::<String>, (&adjs, number), asel)
            && #[trigger] call_ensures(choose_multiple::<(String, String)>, (&themes, number), tsel)
            && lines_of_draws(asel@, tsel@, with_provenance, r)
}

/// Draws `number` adjectives and `number` themes without repetition and pairs them up.
fn draw_pairs(adjs: &Vec<String>, themes: &Vec<(String, String)>, number: usize, with_provenance: bool) -> (r: Vec<String>)
    ensures
        r@.len() == min_len(min_len(number as int, adjs@.len() as int), min_len(number as int, themes@.len() as int)),
        drawn_pairs(
            r@.map_values(|s: String| s@),
            adjs@.map_values(|s: String| s@),
            themes@.map_values(|p: (String, String)| (p.0@, p.1@)),
            with_provenance,
        ),
        drawn_by_sampling(*adjs, *themes, number, with_provenance, r@.map_values(|s: String| s@)),
{
    let ghost av = adjs@.map_values(|s: String| s@);
    let ghost tv = themes@.map_values(|p: (String, String)| (p.0@, p.1@));
    let asel = choose_multiple(adjs, number);
    let tsel = choose_multiple(themes, number);
    let ghost ia0 = choose|idx: Seq<int>|
        idx.len() == asel@.len() && distinct_positions(idx, adjs@.len() as int) && forall|k: int|
            0 <= k < asel@.len() ==> *asel@[k] == adjs@[#[trigger] idx[k]];
    let ghost it0 = choose|idx: Seq<int>|
        idx.len() == tsel@.len() && distinct_positions(idx, themes@.len() as int) && forall|k: int|
            0 <= k < tsel@.len() ==> *tsel@[k] == themes@[#[trigger] idx[k]];
    let n = if asel.len() < tsel.len() { asel.len() } else { tsel.len() };
    let mut r: Vec<String> = Vec::new();
    let mut k: usize = 0;
    while k < n
        invariant
            k <= n,
            n <= asel@.len(),
            n <= tsel@.len(),
            r@.len() == k,
            av == adjs@.map_values(|s: String| s@),
            tv == themes@.map_values(|p: (String, String)| (p.0@, p.1@)),
            forall|j: int| 0 <= j < asel@.len() ==> *asel@[j] == adjs@[#[trigger] ia0[j]],
            forall|j: int| 0 <= j < tsel@.len() ==> *tsel@[j] == themes@[#[trigger] it0[j]],
            ia0.len() == asel@.len(),
            it0.len() == tsel@.len(),
            distinct_positions(ia0, adjs@.len() as int),
            distinct_positions(it0, themes@.len() as int),
            forall|j: int| 0 <= j < k ==> #[trigger] r@[j]@ == if with_provenance {
                provenance_line(av[ia0[j]], tv[it0[j]].0, tv[it0[j]].1)
            } else {
                pair_line(av[ia0[j]], tv[it0[j]].0)
            },
        decreases n - k,
    {
        let a: &String = asel[k];
        let t: &(String, String) = tsel[k];
        assert(a@ == av[ia0[k as int]]);
        assert(t.0@ == tv[it0[k as int]].0 && t.1@ == tv[it0[k as int]].1);
        let line = if with_provenance {
            let mut s = String::new();
            push_char(&mut s, '[');
            let c = center(t.1.as_str(), 15);
            s.append(c.as_str());
            push_char(&mut s, ']');
            push_char(&mut s, '\t');
            let p = pair_string(a, &t.0);
            s.append(p.as_str());
            assert(s@ == provenance_line(a@, t.0@, t.1@));
            s
        } else {
            pair_string(a, &t.0)
        };
        r.push(line);
        k = k + 1;
    }
    proof {
        let rv = r@.map_values(|s: String| s@);
        let ia = ia0.take(n as int);
        let it = it0.take(n as int);
        assert(forall|k: int| 0 <= k < rv.len() ==> #[trigger] rv[k] == if with_provenance {
            provenance_line(av[ia[k]], tv[it[k]].0, tv[it[k]].1)
        } else {
            pair_line(av[ia[k]], tv[it[k]].0)
        });
        assert(distinct_positions(ia, av.len() as int));
        assert(distinct_positions(it, tv.len() as int));
        assert forall|k: int| 0 <= k < rv.len() implies #[trigger] rv[k] == if with_provenance {
            provenance_line(asel@[k]@, tsel@[k].0@, tsel@[k].1@)
        } else {
            pair_line(asel@[k]@, tsel@[k].0@)
        } by {
            assert(asel@[k]@ == av[ia0[k]]);
            assert(tsel@[k].0@ == tv[it0[k]].0 && tsel@[k].1@ == tv[it0[k]].1);
        }
        assert(lines_of_draws(asel@, tsel@, with_provenance, rv));
    }
    r
}

/// `number` random "adjective theme" pairs, or fewer when a pool is smaller:
/// adjectives and themes are drawn without repetition from the pools of the
/// kept files' lines that pass `pattern`.
pub fn get_random_ramble(
    adj_files: &Vec<DictFile>,
    adjs: Option<Vec<String>>,
    theme_files: &Vec<DictFile>,
    themes: Option<Vec<String>>,
    pattern: Option<&str>,
    number: usize,
) -> (r: Vec<String>)
    ensures
        ({
            let ap = adjective_pool(adj_files@, sel_view(adjs), opt_view(pattern));
            let tp = theme_pool(theme_files@, sel_view(themes), opt_view(pattern));
            let rv = r@.map_values(|s: String| s@);
            &&& r@.len() == min_len(min_len(number as int, ap.len() as int), min_len(number as int, tp.len() as int))
            &&& drawn_pairs(r@.map_values(|s: String| s@), ap, tp, false)
            &&& exists|a: Vec<String>, t: Vec<(String, String)>|
                a@.map_values(|s: String| s@) == ap && t@.map_values(|p: (String, String)| (p.0@, p.1@)) == tp
                    && #[trigger] drawn_by_sampling(a, t, number, false, rv)
        }),
{
    let a = get_adjs(adj_files, &adjs, pattern);
    let t = get_themes(theme_files, &themes, pattern);
    let r = draw_pairs(&a, &t, number, false);
    assert(drawn_by_sampling(a, t, number, false, r@.map_values(|s: String| s@)));
    r
}

/// Like [`get_random_ramble`], each pair preceded by its theme list's name
/// centred in brackets and a tab.
pub fn get_random_ramble_with_provenance(
    adj_files: &Vec<DictFile>,
    adjs: Option<Vec<String>>,
    theme_files: &Vec<DictFile>,
    themes: Option<Vec<String>>,
    starts_with: Option<&str>,
    number: usize,
) -> (r: Vec<String>)
    ensures
        ({
            let ap = adjective_pool(adj_files@, sel_view(adjs), opt_view(starts_with));
            let tp = theme_pool(theme_files@, sel_view(themes), opt_view(starts_with));
            let rv = r@.map_values(|s: String| s@);
            &&& r@.len() == min_len(min_len(number as int, ap.len() as int), min_len(number as int, tp.len() as int))
            &&& drawn_pairs(r@.map_values(|s: String| s@), ap, tp, true)
            &&& exists|a: Vec<String>, t: Vec<(String, String)>|
                a@.map_values(|s: String| s@) == ap && t@.map_values(|p: (String, String)| (p.0@, p.1@)) == tp
                    && #[trigger] drawn_by_sampling(a, t, number, true, rv)
        }),
{
    let a = get_adjs(adj_files, &adjs, starts_with);
    let t = get_themes(theme_files, &themes, starts_with);
    let r = draw_pairs(&a, &t, number, true);
    assert(drawn_by_sampling(a, t, number, true, r@.map_values(|s: String| s@)));
    r
}

/// Every adjective of the pool passes the pattern and is a line of a file the
/// selection keeps.
pub proof fn law_pool_lines_pass(files: Seq<DictFile>, sel: Option<Seq<Seq<char>>>, pattern: Option<Seq<char>>)
    ensures
        forall|i: int| 0 <= i < adjective_pool(files, sel, pattern).len() ==> {
            let a = #[trigger] adjective_pool(files, sel, pattern)[i];
            pattern_accepts(pattern, a) && exists|k: int| 0 <= k < files.len() && chosen(sel, files[k].name@)
                && #[trigger] files[k].line_views().contains(a)
        },
    decreases files.len(),
{
    if files.len() > 0 {
        let dl = files.drop_last();
        law_pool_lines_pass(dl, sel, pattern);
        let f = files.last();
        crate::text::law_matching_lines_pass(f.line_views(), pattern);
        let pd = adjective_pool(dl, sel, pattern);
        let pool = adjective_pool(files, sel, pattern);
        assert forall|i: int| 0 <= i < pool.len() implies {
            let a = #[trigger] pool[i];
            pattern_accepts(pattern, a) && exists|k: int| 0 <= k < files.len() && chosen(sel, files[k].name@)
                && #[trigger] files[k].line_views().contains(a)
        } by {
            if i < pd.len() {
                assert(pool[i] == pd[i]);
                let k = choose|k: int| 0 <= k < dl.len() && chosen(sel, dl[k].name@) && #[trigger] dl[k].line_views().contains(pd[i]);
                assert(files[k] == dl[k]);
            } else {
                let m = matching_lines(f.line_views(), pattern);
                assert(chosen(sel, f.name@));
                assert(pool[i] == m[i - pd.len()]);
                assert(files[files.len() - 1] == f);
            }
        }
    }
}

/// The options of the first command line.
#[derive(Debug)]
pub struct Config {
    verbose: u8,
    /// The length of the list to be returned.
    pub list_length: u8,
    /// The theme lists to choose from.
    pub themes: Vec<String>,
    /// The case-insensitive prefix entries must start with.
    pub starts_with: Option<String>,
}

impl Config {
    /// The options, with the verbosity given.
    pub fn new(verbose: u8, list_length: u8, themes: Vec<String>, starts_with: Option<String>) -> (c: Config)
        ensures
            c.verbosity() == verbose,
            c.given() == (list_length, themes, starts_with),
    {
        Config { verbose, list_length, themes, starts_with }
    }

    /// The public options: list length, themes and prefix.
    pub closed spec fn given(&self) -> (u8, Vec<String>, Option<String>) {
        (self.list_length, self.themes, self.starts_with)
    }

    /// How chatty the log is.
    pub closed spec fn verbosity(&self) -> u8 {
        self.verbose
    }

    /// How chatty the log is (`-v`, `-vv`, `-vvv`).
    pub fn verbose(&self) -> (v: u8)
        ensures
            v == self.verbosity(),
    {
        self.verbose
    }
}

/// The pairs are drawn by sampling the pools: the adjectives and the themes
/// paired are, in order, the ones [`choose_multiple`] picked out of the whole
/// adjective pool and the whole theme pool, as many as the smaller sample.
pub proof fn law_pairs_sample_the_pools(
    adj_files: &Vec<DictFile>,
    adjs: Option<Vec<String>>,
    theme_files: &Vec<DictFile>,
    themes: Option<Vec<String>>,
    pattern: Option<&str>,
    number: usize,
    r: Vec<String>,
)
    requires
        call_ensures(get_random_ramble, (adj_files, adjs, theme_files, themes, pattern, number), r),
    ensures
        exists|a: Vec<String>, t: Vec<(String, String)>, asel: Vec<&String>, tsel: Vec<&(String, String)>|
            a@.map_values(|s: String| s@) == adjective_pool(adj_files@, sel_view(adjs), opt_view(pattern))
                && t@.map_values(|p: (String, String)| (p.0@, p.1@)) == theme_pool(theme_files@, sel_view(themes), opt_view(pattern))
                && #[trigger] call_ensures(choose_multiple::<String>, (&a, number), asel)
                && #[trigger] call_ensures(choose_multiple::<(String, String)>, (&t, number), tsel)
                && r@.len() == min_len(asel@.len() as int, tsel@.len() as int)
                && forall|k: int| 0 <= k < r@.len() ==> (#[trigger] r@[k])@ == pair_line(asel@[k]@, tsel@[k].0@),
{
    let rv = r@.map_values(|s: String| s@);
    let (a, t) = choose|a: Vec<String>, t: Vec<(String, String)>|
        a@.map_values(|s: String| s@) == adjective_pool(adj_files@, sel_view(adjs), opt_view(pattern))
            && t@.map_values(|p: (String, String)| (p.0@, p.1@)) == theme_pool(theme_files@, sel_view(themes), opt_view(pattern))
            && #[trigger] drawn_by_sampling(a, t, number, false, rv);
    let (asel, tsel) = choose|asel: Vec<&String>, tsel: Vec<&(String, String)>|
        #[trigger] call_ensures(choose_multiple::<String>, (&a, number), asel)
            && #[trigger] call_ensures(choose_multiple::<(String, String)>, (&t, number), tsel)
            && lines_of_draws(asel@, tsel@, false, rv);
    assert forall|k: int| 0 <= k < r@.len() implies (#[trigger] r@[k])@ == pair_line(asel@[k]@, tsel@[k].0@) by {
        assert(rv[k] == r@[k]@);
    }
}

} // verus!
