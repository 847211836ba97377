//! The template-driven generator itself.

use vstd::prelude::*;
use rayon::iter::{IntoParallelIterator, ParallelIterator};
use crate::chance::gen_range;
use crate::dict::DictFile;
use crate::engine::{
    add_raw_template, add_raw_templates, context_entries, context_keys, context_of,
    holds_template, lemma_members_map_values, random_filter_names, raw_template_accepted,
    raw_templates_accepted, register_random_filter, render_template, tera_default, template_names,
};
use crate::json::{value_of, Json};
use crate::refactor::map::is_rambles_json;
use crate::error::RambleError;
use crate::refactor::map::{ramble_views, Ramble, RambleKind, RambleMap};
use crate::text::{decimal, decimal_string};

verus! {

/// The name under which the `i`-th template is registered: `rr` and its position.
pub open spec fn template_name(i: nat) -> Seq<char> {
    "rr"@ + decimal(i)
}

/// The names a generator with `n` templates registers: `rr` alone when it has
/// none (for the default template), otherwise one name per template.
pub open spec fn template_names_for(n: nat) -> Set<Seq<char>> {
    if n == 0 {
        set!["rr"@]
    } else {
        Set::new(|s: Seq<char>| exists|i: nat| i < n && s == #[trigger] template_name(i))
    }
}

/// The templates with the names they are registered under, as plain data.
pub open spec fn named_contents(ts: Seq<&str>) -> Seq<(Seq<char>, Seq<char>)> {
    Seq::new(ts.len(), |i: int| (template_name(i as nat), ts[i]@))
}

/// Whether `r` is what [`RandomRamble::render`] gives for the template set `t`
/// and the context `c`: the result of the engine rendering, with `c`, the
/// template of `t` under one of the names of the generator's templates, its
/// error wrapped.
pub open spec fn rendered_with(t: tera::Tera, c: tera::Context, n: nat, r: Result<String, RambleError>) -> bool {
    exists|name: &str, res: Result<String, tera::Error>|
        template_names_for(n).contains(name@) && drawn_template_name(n, name@)
            && #[trigger] call_ensures(render_template, (&t, name, &c), res)
            && r == match res {
                Ok(x) => Ok::<String, RambleError>(x),
                Err(e) => Err::<String, RambleError>(RambleError::Tera(e)),
            }
}

/// Whether `name` is the name a generator with `n` templates renders: `rr` when
/// it has none, otherwise `rr` followed by a position that a draw of
/// [`gen_range`] over `0..n` gave.
pub open spec fn drawn_template_name(n: nat, name: Seq<char>) -> bool {
    if n == 0 {
        name == "rr"@
    } else {
        exists|i: usize| #[trigger] call_ensures(gen_range, (0usize, n as usize), i) && name == template_name(i as nat)
    }
}

/// Whether a template set holds the templates of a generator: the default
/// template under `rr` when there is none, otherwise template `i` under `rr`
/// followed by `i`; and this library's `rr` filter under `rr`.
pub open spec fn holds_generator_templates(t: tera::Tera, templates: Seq<&str>) -> bool {
    &&& random_filter_names(t).contains("rr"@)
    &&& templates.len() == 0 ==> holds_template(t, "rr"@, "{{ adj | rr }} {{ theme | rr }}"@)
    &&& forall|i: int| 0 <= i < templates.len() ==> holds_template(t, template_name(i as nat), (#[trigger] templates[i])@)
}

/// Whether the context `c` holds, under each kind of `rambles`, the JSON list of
/// its rambles as the engine holds it.
pub open spec fn holds_rambles(c: tera::Context, rambles: Map<Seq<char>, Seq<(Option<Seq<char>>, Seq<Seq<char>>)>>) -> bool {
    &&& context_keys(c) == rambles.dom()
    &&& forall|k: Seq<char>| #[trigger] rambles.dom().contains(k) ==> exists|j: Json|
        is_rambles_json(j, rambles[k]) && context_entries(c)[k] == value_of(j)
}

/// The ramble loaded from a word-list file: the file's name is its category,
/// its lines are its values.
pub open spec fn loaded_ramble(f: DictFile) -> (Option<Seq<char>>, Seq<Seq<char>>) {
    (Some(f.name@), f.line_views())
}

/// The name of the `i`-th template.
pub fn template_name_for(i: usize) -> (s: String)
    ensures
        s@ == template_name(i as nat),
{
    let mut s = String::from_str("rr");
    let d = decimal_string(i);
    s.append(d.as_str());
    s
}

/// Different positions give different template names.
proof fn lemma_template_names_distinct(i: nat, j: nat)
    requires
        i != j,
    ensures
        template_name(i) != template_name(j),
{
    crate::text::lemma_decimal_injective(i, j);
    reveal_strlit("rr");
    assert("rr"@.len() == 2);
    assert(template_name(i).skip(2) =~= decimal(i));
    assert(template_name(j).skip(2) =~= decimal(j));
}

/// The templates with the names they are registered under.
fn named_templates<'t>(templates: &Vec<&'t str>) -> (r: Vec<(String, &'t str)>)
    ensures
        r@.len() == templates@.len(),
        forall|i: int| 0 <= i < r@.len() ==> (#[trigger] r@[i]).0@ == template_name(i as nat) && r@[i].1 == templates@[i],
{
    let mut r: Vec<(String, &'t str)> = Vec::new();
    let mut i: usize = 0;
    while i < templates.len()
        invariant
            i <= templates@.len(),
            r@.len() == i,
            forall|k: int| 0 <= k < i ==> (#[trigger] r@[k]).0@ == template_name(k as nat) && r@[k].1 == templates@[k],
        decreases templates@.len() - i,
    {
        r.push((template_name_for(i), templates[i]));
        i = i + 1;
    }
    r
}

/// Calls a parallel `rayon` iterator over `0..n` that renders `rr` once per item
/// with [`RandomRamble::to_string`], and collects the results in order: `n`
/// results, each one that `to_string` may give.
#[verifier::external_body]
fn render_many<'a>(rr: &RandomRamble<'a>, n: usize) -> (v: Vec<String>)
    ensures
        v@.len() == n,
        forall|i: int| 0 <= i < n ==> call_ensures(RandomRamble::<'a>::to_string, (rr,), #[trigger] v@[i]),
{
    (0..n).into_par_iter().map(|_| rr.to_string()).collect()
}

/// The generator: rambles by kind, templates, and, once built, the template set
/// and the context the templates render with.
#[derive(Debug)]
pub struct RandomRamble<'a> {
    pub rambles: RambleMap<'a>,
    pub templates: Vec<&'a str>,
    pub context: Option<tera::Context>,
    pub tera: Option<tera::Tera>,
}

impl<'a> RandomRamble<'a> {
    /// Whether the template engine accepts the generator's templates: the
    /// default template `{{ adj | rr }} {{ theme | rr }}` under `rr` when it has
    /// none, otherwise its templates under `rr0`, `rr1`, ...
    pub open spec fn templates_accepted(&self) -> bool {
        if self.templates@.len() == 0 {
            raw_template_accepted("rr"@, "{{ adj | rr }} {{ theme | rr }}"@)
        } else {
            raw_templates_accepted(named_contents(self.templates@))
        }
    }

    /// A generator with no rambles, no templates, and not built.
    pub fn new() -> (r: Self)
        ensures
            r.rambles@ == Map::<Seq<char>, Seq<(Option<Seq<char>>, Seq<Seq<char>>)>>::empty(),
            r.templates@.len() == 0,
            r.context is None,
            r.tera is None,
    {
        RandomRamble { rambles: RambleMap::new(), templates: Vec::new(), context: None, tera: None }
    }

    /// The ramble loaded from a word-list file (see [`loaded_ramble`]).
    fn load_from_file(file: &DictFile) -> (r: Ramble)
        ensures
            r@ == loaded_ramble(*file),
    {
        let mut values: Vec<String> = Vec::new();
        let mut i: usize = 0;
        while i < file.lines.len()
            invariant
                i <= file.lines@.len(),
                values@.map_values(|v: String| v@) == file.line_views().take(i as int),
            decreases file.lines@.len() - i,
        {
            let ghost before = values@;
            values.push(file.lines[i].clone());
            assert(values@.map_values(|v: String| v@) =~= before.map_values(|v: String| v@).push(file.lines@[i as int]@));
            i = i + 1;
            assert(file.line_views().take(i as int) =~= file.line_views().take(i - 1).push(file.lines@[i - 1]@));
        }
        assert(file.line_views().take(file.lines@.len() as int) == file.line_views());
        Ramble { category: Some(file.name.clone()), values }
    }

    /// The generator with `kind` set to the one value `value`.
    pub fn with_ramble(self, kind: &'a str, value: &'a str) -> (r: Self)
        ensures
            r.rambles@ == self.rambles@.insert(kind@, seq![(None::<Seq<char>>, seq![value@])]),
            r.templates@ == self.templates@,
            r.context == self.context,
            r.tera == self.tera,
    {
        let mut s = self;
        let mut v: Vec<Ramble> = Vec::new();
        v.push(Ramble::from(value));
        assert(ramble_views(v@) =~= seq![(None::<Seq<char>>, seq![value@])]);
        s.rambles.insert(RambleKind::from(kind), v);
        s
    }

    /// The generator with `kind` set to one uncategorised ramble of `values`.
    pub fn with_rambles(self, kind: &'a str, values: Vec<&str>) -> (r: Self)
        ensures
            r.rambles@ == self.rambles@.insert(kind@, seq![(None::<Seq<char>>, values@.map_values(|v: &str| v@))]),
            r.templates@ == self.templates@,
            r.context == self.context,
            r.tera == self.tera,
    {
        let mut s = self;
        let mut v: Vec<Ramble> = Vec::new();
        v.push(Ramble::from_values(&values));
        assert(ramble_views(v@) =~= seq![(None::<Seq<char>>, values@.map_values(|v: &str| v@))]);
        s.rambles.insert(RambleKind::from(kind), v);
        s
    }

    /// The generator with `kind` set to one ramble per word-list file found
    /// under a path, each named after its file (see [`loaded_ramble`]).
    pub fn with_rambles_path(self, kind: &'a str, files: &Vec<DictFile>) -> (r: Self)
        ensures
            r.rambles@ == self.rambles@.insert(kind@, files@.map_values(|f: DictFile| loaded_ramble(f))),
            r.templates@ == self.templates@,
            r.context == self.context,
            r.tera == self.tera,
    {
        let mut s = self;
        let mut v: Vec<Ramble> = Vec::new();
        let mut i: usize = 0;
        while i < files.len()
            invariant
                i <= files@.len(),
                ramble_views(v@) == files@.take(i as int).map_values(|f: DictFile| loaded_ramble(f)),
            decreases files@.len() - i,
        {
            let ghost before = v@;
            v.push(Self::load_from_file(&files[i]));
            assert(ramble_views(v@) =~= ramble_views(before).push(loaded_ramble(files@[i as int])));
            i = i + 1;
            assert(files@.take(i as int).map_values(|f: DictFile| loaded_ramble(f))
                =~= files@.take(i - 1).map_values(|f: DictFile| loaded_ramble(f)).push(loaded_ramble(files@[i - 1])));
        }
        assert(files@.take(files@.len() as int) == files@);
        s.rambles.insert(RambleKind::from(kind), v);
        s
    }

    /// The generator with `template` added after its templates.
    pub fn with_template(self, template: &'a str) -> (r: Self)
        ensures
            r.templates@ == self.templates@.push(template),
            r.rambles@ == self.rambles@,
            r.context == self.context,
            r.tera == self.tera,
    {
        let mut s = self;
        s.templates.push(template);
        s
    }

    /// The generator with `templates` in place of its templates.
    pub fn with_templates(self, templates: Vec<&'a str>) -> (r: Self)
        ensures
            r.templates@ == templates@,
            r.rambles@ == self.rambles@,
            r.context == self.context,
            r.tera == self.tera,
    {
        let mut s = self;
        s.templates = templates;
        s
    }

    /// The generator with `context` as its rendering context.
    pub fn with_context(self, context: tera::Context) -> (r: Self)
        ensures
            r.context == Some(context),
            r.templates@ == self.templates@,
            r.rambles@ == self.rambles@,
            r.tera == self.tera,
    {
        let mut s = self;
        s.context = Some(context);
        s
    }

    /// Renders one of the templates, drawn at random, with the context: an
    /// error when the generator has not been built.
    pub fn render(&self) -> (r: Result<String, RambleError>)
        ensures
            self.tera is None ==> (r matches Err(e) && e.is_custom("invalid tera object"@)),
            self.tera is Some && self.context is None ==> (r matches Err(e) && e.is_custom("invalid context"@)),
            self.tera is Some && self.context is Some ==> (r is Ok || r matches Err(RambleError::Tera(_))),
            r is Ok ==> (self.tera matches Some(t) && exists|name: Seq<char>|
                template_names_for(self.templates@.len() as nat).contains(name) && #[trigger] template_names(t).contains(name)),
            match (self.tera, self.context) {
                (Some(t), Some(c)) => rendered_with(t, c, self.templates@.len() as nat, r),
                _ => true,
            },
    {
        let name = if self.templates.len() == 0 {
            String::from_str("rr")
        } else {
            let i = gen_range(0, self.templates.len());
            let s = template_name_for(i);
            assert(drawn_template_name(self.templates@.len() as nat, s@));
            s
        };
        assert(template_names_for(self.templates@.len() as nat).contains(name@)) by {
            if self.templates@.len() > 0 {
                let i = choose|i: nat| i < self.templates@.len() && name@ == template_name(i);
                assert(name@ == template_name(i));
            }
        }
        let t = match &self.tera {
            Some(t) => t,
            None => return Err(RambleError::Custom(String::from_str("invalid tera object"))),
        };
        let c = match &self.context {
            Some(c) => c,
            None => return Err(RambleError::Custom(String::from_str("invalid context"))),
        };
        let res = render_template(t, name.as_str(), c);
        let r = match res {
            Ok(s) => Ok(s),
            Err(e) => Err(RambleError::Tera(e)),
        };
        assert(rendered_with(*t, *c, self.templates@.len() as nat, r));
        r
    }

    /// A rendering of one of the templates, or `???` when rendering fails.
    pub fn to_string(&self) -> (s: String)
        ensures
            (self.tera is None || self.context is None) ==> s@ == "???"@,
            exists|r: Result<String, RambleError>| #[trigger] call_ensures(RandomRamble::<'a>::render, (self,), r)
                && s@ == match r {
                    Ok(x) => x@,
                    Err(_) => "???"@,
                },
    {
        match self.render() {
            Ok(s) => s,
            Err(_) => String::from_str("???"),
        }
    }

    /// `n` renderings, made in parallel (see [`RandomRamble::to_string`]).
    pub fn take(&self, n: usize) -> (v: Vec<String>)
        ensures
            v@.len() == n,
            forall|i: int| 0 <= i < n ==> call_ensures(RandomRamble::<'a>::to_string, (self,), #[trigger] v@[i]),
            (self.tera is None || self.context is None) ==> forall|i: int| 0 <= i < n ==> (#[trigger] v@[i])@ == "???"@,
    {
        render_many(self, n)
    }

    /// The template set: the `rr` filter, and the templates under the names
    /// `rr0`, `rr1`, ..., or the default template under `rr` when there is none.
    fn get_tera(&self) -> (r: Result<tera::Tera, RambleError>)
        ensures
            r is Ok <==> self.templates_accepted(),
            r matches Ok(t) ==> template_names(t) == template_names_for(self.templates@.len() as nat),
            r matches Ok(t) ==> holds_generator_templates(t, self.templates@),
            r matches Err(e) ==> e is Tera,
    {
        let mut t = tera_default();
        register_random_filter(&mut t, "rr");
        if self.templates.len() == 0 {
            match add_raw_template(&mut t, "rr", "{{ adj | rr }} {{ theme | rr }}") {
                Ok(()) => {
                    assert(template_names(t) =~= template_names_for(0));
                },
                Err(e) => return Err(RambleError::Tera(e)),
            }
        } else {
            let named = named_templates(&self.templates);
            let ghost names = named@.map_values(|p: (String, &str)| p.0@);
            assert(named@.map_values(|p: (String, &str)| (p.0@, p.1@)) =~= named_contents(self.templates@));
            let ghost named_v = named@;
            match add_raw_templates(&mut t, named) {
                Ok(()) => {
                    assert forall|i: int| 0 <= i < self.templates@.len() implies
                        holds_template(t, template_name(i as nat), (#[trigger] self.templates@[i])@) by {
                        assert forall|j: int| i < j < named_v.len() implies (#[trigger] named_v[j]).0@ != named_v[i].0@ by {
                            lemma_template_names_distinct(i as nat, j as nat);
                        }
                        assert(named_v[i].0@ == template_name(i as nat));
                        assert(named_v[i].1@ == self.templates@[i]@);
                    }
                    assert(template_names(t) =~= template_names_for(self.templates@.len() as nat)) by {
                        assert forall|s: Seq<char>| template_names(t).contains(s)
                            implies template_names_for(self.templates@.len() as nat).contains(s) by {
                            assert(names.contains(s));
                            let i = choose|i: int| 0 <= i < names.len() && names[i] == s;
                            assert(s == template_name(i as nat));
                        }
                        assert forall|s: Seq<char>| template_names_for(self.templates@.len() as nat).contains(s)
                            implies template_names(t).contains(s) by {
                            let i = choose|i: nat| i < self.templates@.len() && s == #[trigger] template_name(i);
                            assert(names[i as int] == s);
                            assert(names.to_set().contains(s));
                        }
                    }
                },
                Err(e) => return Err(RambleError::Tera(e)),
            }
        }
        Ok(t)
    }

    /// The rendering context: a value under each kind, the JSON list of its rambles.
    fn get_context(&self) -> (r: Result<tera::Context, RambleError>)
        ensures
            r matches Ok(c) && holds_rambles(c, self.rambles@),
    {
        let members = self.rambles.to_json();
        match context_of(&members) {
            Some(c) => {
                proof {
                    lemma_members_map_values(members@);
                    assert forall|k: Seq<char>| #[trigger] self.rambles@.dom().contains(k) implies exists|j: Json|
                        is_rambles_json(j, self.rambles@[k]) && context_entries(c)[k] == value_of(j) by {
                        assert(context_keys(c).contains(k));
                        let i = choose|i: int| 0 <= i < members@.len() && members@[i].0@ == k
                            && context_entries(c)[k] == value_of(members@[i].1);
                        assert(is_rambles_json(members@[i].1, self.rambles@[k]));
                    }
                }
                Ok(c)
            },
            None => Err(RambleError::Custom(String::from_str("invalid number"))),
        }
    }

    /// The generator made ready to render: its template set and its context.
    pub fn build(self) -> (r: Result<Self, RambleError>)
        ensures
            r matches Ok(b) ==> {
                &&& b.rambles@ == self.rambles@
                &&& b.templates@ == self.templates@
                &&& b.tera matches Some(t) && template_names(t) == template_names_for(self.templates@.len() as nat)
                    && holds_generator_templates(t, self.templates@)
                &&& b.context matches Some(c) && holds_rambles(c, self.rambles@)
            },
            r is Ok <==> self.templates_accepted(),
            r matches Err(e) ==> e is Tera,
    {
        let t = match self.get_tera() {
            Ok(t) => t,
            Err(e) => return Err(e),
        };
        let c = match self.get_context() {
            Ok(c) => c,
            Err(e) => return Err(e),
        };
        let mut s = self;
        s.tera = Some(t);
        s.context = Some(c);
        Ok(s)
    }
}

impl<'a> Default for RandomRamble<'a> {
    /// A generator with no rambles, no templates, and not built.
    fn default() -> (r: Self)
        ensures
            r.rambles@ == Map::<Seq<char>, Seq<(Option<Seq<char>>, Seq<Seq<char>>)>>::empty(),
            r.templates@.len() == 0,
            r.context is None,
            r.tera is None,
    {
        Self::new()
    }
}

/// Rendering a built generator with templates renders, with its context, the
/// template at a position drawn by [`gen_range`] over all of its templates: any
/// template can be the one rendered, and the result is what the engine gave
/// for it.
pub proof fn law_render_draws_a_template<'a>(rr: RandomRamble<'a>, r: Result<String, RambleError>)
    requires
        call_ensures(RandomRamble::<'a>::render, (&rr,), r),
        rr.tera is Some,
        rr.context is Some,
        rr.templates@.len() > 0,
    ensures
        exists|i: usize, name: &str, res: Result<String, tera::Error>|
            #[trigger] call_ensures(gen_range, (0usize, rr.templates@.len() as usize), i)
                && i < rr.templates@.len() && name@ == template_name(i as nat)
                && #[trigger] call_ensures(render_template, (&rr.tera->0, name, &rr.context->0), res)
                && r == match res {
                    Ok(x) => Ok::<String, RambleError>(x),
                    Err(e) => Err::<String, RambleError>(RambleError::Tera(e)),
                },
{
    let t = rr.tera->0;
    let c = rr.context->0;
    assert(rendered_with(t, c, rr.templates@.len() as nat, r));
    let (name, res) = choose|name: &str, res: Result<String, tera::Error>|
        template_names_for(rr.templates@.len() as nat).contains(name@) && drawn_template_name(rr.templates@.len() as nat, name@)
            && #[trigger] call_ensures(render_template, (&t, name, &c), res)
            && r == match res {
                Ok(x) => Ok::<String, RambleError>(x),
                Err(e) => Err::<String, RambleError>(RambleError::Tera(e)),
            };
    let i = choose|i: usize| #[trigger] call_ensures(gen_range, (0usize, rr.templates@.len() as usize), i)
        && name@ == template_name(i as nat);
    assert(i < rr.templates@.len());
}

} // verus!
