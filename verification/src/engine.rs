//! The template engine, `tera`, as the generators use it.

use vstd::prelude::*;
use crate::json::{json_to_value, number_free, value_of, Json};

verus! {

/// A set of named templates and filters of the template engine.
#[verifier::external_type_specification]
#[verifier::external_body]
pub struct ExTera(tera::Tera);

/// The named values a template is rendered with.
#[verifier::external_type_specification]
#[verifier::external_body]
pub struct ExContext(tera::Context);

/// The names of the templates that a template set holds.
pub uninterp spec fn template_names(t: tera::Tera) -> Set<Seq<char>>;

/// The names under which a template set holds this library's `rr` filter,
/// [`crate::refactor::filter::random_filter`].
pub uninterp spec fn random_filter_names(t: tera::Tera) -> Set<Seq<char>>;

/// Whether a template set holds, under `name`, the template the engine parsed
/// from the text `content`.
pub uninterp spec fn holds_template(t: tera::Tera, name: Seq<char>, content: Seq<char>) -> bool;

/// Whether the engine accepts the template `content` under `name` into a set
/// that holds no template: it parses, and what it extends or imports is there.
pub uninterp spec fn raw_template_accepted(name: Seq<char>, content: Seq<char>) -> bool;

/// Whether the engine accepts the given (name, content) templates, in order,
/// into a set that holds no template: each parses, and what they extend or
/// import is among them.
pub uninterp spec fn raw_templates_accepted(templates: Seq<(Seq<char>, Seq<char>)>) -> bool;

/// The values that a rendering context holds, by name.
pub uninterp spec fn context_entries(c: tera::Context) -> Map<Seq<char>, tera::Value>;

/// The names that a rendering context holds values for.
pub open spec fn context_keys(c: tera::Context) -> Set<Seq<char>> {
    context_entries(c).dom()
}

/// Calls `Tera::default`: a template set with the engine's own filters and no
/// template.
#[verifier::external_body]
pub fn tera_default() -> (t: tera::Tera)
    ensures
        template_names(t) == Set::<Seq<char>>::empty(),
        random_filter_names(t) == Set::<Seq<char>>::empty(),
{
    tera::Tera::default()
}

/// Calls `Tera::register_filter` with the `rr` filter of this library,
/// [`crate::refactor::filter::random_filter`], under `name`; the templates stay
/// as they were, and the set holds that filter under `name`.
#[verifier::external_body]
pub fn register_random_filter(t: &mut tera::Tera, name: &str)
    ensures
        template_names(*final(t)) == template_names(*old(t)),
        random_filter_names(*final(t)) == random_filter_names(*old(t)).insert(name@),
{
    t.register_filter(name, crate::refactor::filter::random_filter)
}

/// Calls `Tera::add_raw_template`: on success the set holds, under `name`, the
/// template parsed from `content`; it holds no other new name in any case, and
/// its filters stay. Added to a set without templates, it succeeds exactly when
/// the engine accepts the template (named `raw_template_accepted`).
#[verifier::external_body]
pub fn add_raw_template(t: &mut tera::Tera, name: &str, content: &str) -> (r: Result<(), tera::Error>)
    ensures
        template_names(*old(t)) == Set::<Seq<char>>::empty() ==> (r is Ok <==> raw_template_accepted(name@, content@)),
        r is Ok ==> holds_template(*final(t), name@, content@),
        random_filter_names(*final(t)) == random_filter_names(*old(t)),
        r is Ok ==> template_names(*final(t)) == template_names(*old(t)).insert(name@),
        template_names(*old(t)) <= template_names(*final(t)),
        template_names(*final(t)) <= template_names(*old(t)).insert(name@),
{
    t.add_raw_template(name, content)
}

/// Calls `Tera::add_raw_templates` with the given (name, content) pairs: on
/// success the set holds a template under each name, the one parsed from the
/// last content given under that name; it holds no other new name in any case,
/// and its filters stay. Added to a set without templates, they succeed exactly
/// when the engine accepts them (named `raw_templates_accepted`).
#[verifier::external_body]
pub fn add_raw_templates(t: &mut tera::Tera, templates: Vec<(String, &str)>) -> (r: Result<(), tera::Error>)
    ensures
        template_names(*old(t)) == Set::<Seq<char>>::empty() ==> (r is Ok <==> raw_templates_accepted(templates@.map_values(|p: (String, &str)| (p.0@, p.1@)))),
        r is Ok ==> forall|i: int| 0 <= i < templates@.len()
            && (forall|j: int| i < j < templates@.len() ==> (#[trigger] templates@[j]).0@ != templates@[i].0@)
            ==> holds_template(*final(t), (#[trigger] templates@[i]).0@, templates@[i].1@),
        random_filter_names(*final(t)) == random_filter_names(*old(t)),
        r is Ok ==> template_names(*final(t)) == template_names(*old(t)) + templates@.map_values(|p: (String, &str)| p.0@).to_set(),
        template_names(*old(t)) <= template_names(*final(t)),
        template_names(*final(t)) <= template_names(*old(t)) + templates@.map_values(|p: (String, &str)| p.0@).to_set(),
{
    t.add_raw_templates(templates)
}

/// Calls `Tera::render`: the template called `name` rendered with `context`;
/// an error when the set holds no template of that name.
#[verifier::external_body]
pub fn render_template(t: &tera::Tera, name: &str, context: &tera::Context) -> (r: Result<String, tera::Error>)
    ensures
        !template_names(*t).contains(name@) ==> r is Err,
{
    t.render(name, context)
}

/// Calls `Context::new`: a context with no value.
#[verifier::external_body]
pub fn context_new() -> (c: tera::Context)
    ensures
        context_entries(c).dom() == Set::<Seq<char>>::empty(),
{
    tera::Context::new()
}

/// Calls `Context::insert`: afterwards the context holds `value` under `key`, in
/// place of what it held there (serialising a JSON value gives that same value).
#[verifier::external_body]
pub fn context_insert(c: &mut tera::Context, key: &str, value: &tera::Value)
    ensures
        context_entries(*final(c)) == context_entries(*old(c)).insert(key@, *value),
{
    c.insert(key, value)
}

/// Calls `Tera::one_off`: `template` rendered once with `context`, escaping
/// HTML when `autoescape` is set.
#[verifier::external_body]
pub fn one_off(template: &str, context: &tera::Context, autoescape: bool) -> (r: Result<String, tera::Error>) {
    tera::Tera::one_off(template, context, autoescape)
}

/// The values of a context filled with `members` in order: each member's value
/// as the template engine holds it, under its name, a later member winning.
pub open spec fn members_map(members: Seq<(String, Json)>) -> Map<Seq<char>, tera::Value>
    decreases members.len(),
{
    if members.len() == 0 {
        Map::empty()
    } else {
        members_map(members.drop_last()).insert(members.last().0@, value_of(members.last().1))
    }
}

/// A rendering context holding each member's value under its name; nothing when
/// some value holds a number whose text does not parse.
pub fn context_of(members: &Vec<(String, Json)>) -> (r: Option<tera::Context>)
    ensures
        r matches Some(c) ==> context_entries(c) == members_map(members@),
        r matches Some(c) ==> context_keys(c) == members@.map_values(|p: (String, Json)| p.0@).to_set(),
        (forall|k: int| 0 <= k < members@.len() ==> number_free(#[trigger] members@[k].1)) ==> r is Some,
{
    let mut c = context_new();
    let mut i: usize = 0;
    assert(context_entries(c) =~= members_map(members@.take(0)));
    assert(members@.take(0).map_values(|p: (String, Json)| p.0@).to_set() =~= Set::<Seq<char>>::empty());
    while i < members.len()
        invariant
            i <= members@.len(),
            context_keys(c) == members@.take(i as int).map_values(|p: (String, Json)| p.0@).to_set(),
            context_entries(c) == members_map(members@.take(i as int)),
        decreases members@.len() - i,
    {
        assert(members@.take(i + 1).drop_last() == members@.take(i as int));
        match json_to_value(&members[i].1) {
            Some(v) => {
                context_insert(&mut c, members[i].0.as_str(), &v);
            },
            None => {
                assert(!number_free(members@[i as int].1));
                return None;
            },
        }
        assert(members@.take(i + 1).map_values(|p: (String, Json)| p.0@)
            =~= members@.take(i as int).map_values(|p: (String, Json)| p.0@).push(members@[i as int].0@));
        proof {
            crate::text::lemma_push_to_set(members@.take(i as int).map_values(|p: (String, Json)| p.0@), members@[i as int].0@);
        }
        i = i + 1;
    }
    assert(members@.take(members@.len() as int) == members@);
    Some(c)
}

/// Each name of a context filled with `members` holds the value of a member of
/// that name.
pub proof fn lemma_members_map_values(members: Seq<(String, Json)>)
    ensures
        forall|k: Seq<char>| #[trigger] members_map(members).dom().contains(k) ==> exists|i: int|
            0 <= i < members.len() && members[i].0@ == k && members_map(members)[k] == value_of(members[i].1),
    decreases members.len(),
{
    if members.len() > 0 {
        let dl = members.drop_last();
        lemma_members_map_values(dl);
        assert forall|k: Seq<char>| #[trigger] members_map(members).dom().contains(k) implies exists|i: int|
            0 <= i < members.len() && members[i].0@ == k && members_map(members)[k] == value_of(members[i].1) by {
            if k == members.last().0@ {
                assert(members[members.len() - 1] == members.last());
            } else {
                assert(members_map(dl).dom().contains(k));
                let i = choose|i: int| 0 <= i < dl.len() && dl[i].0@ == k && members_map(dl)[k] == value_of(dl[i].1);
                assert(members[i] == dl[i]);
            }
        }
    }
}

} // verus!
