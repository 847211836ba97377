//! The `rr` template filter: a random value out of a list of categories.

use vstd::prelude::*;
use std::collections::HashMap;
use crate::chance::gen_range;
use crate::text::{opt_view, pattern_accepts, pattern_matches};
use crate::json::{
    field, field_of, json_eq, json_from_value, json_of, json_same, json_to_value, member, number_free,
    value_of, Json,
};

verus! {

/// Why the `rr` filter could not pick a value.
#[derive(Debug, PartialEq, Eq, Structural)]
pub enum FilterError {
    /// The filtered value is not a list of categories.
    NotAnArray,
    /// While looking for a category by name, an item that is not an object.
    NotAnObject,
    /// While looking for a category by name, an object without a `category` member.
    NoCategoryField,
    /// No category has the asked name.
    NoMatch,
    /// The chosen category is not an object.
    NoObject,
    /// The chosen category has no `values` member.
    NoValues,
    /// The chosen category's `values` member is not a list.
    NoArray,
    /// A number of the chosen value could not be handed back to the template engine.
    BadNumber,
}

/// The message the template engine reports for an error of the filter.
pub open spec fn filter_message(e: FilterError) -> Seq<char> {
    match e {
        FilterError::NotAnArray => "must provide values alongside random"@,
        FilterError::NotAnObject => "requires a valid object"@,
        FilterError::NoCategoryField => "requires a valid category"@,
        FilterError::NoMatch => "nope, no match"@,
        FilterError::NoObject => "oups, no object"@,
        FilterError::NoValues => "shit, no values"@,
        FilterError::NoArray => "fuck, no array"@,
        FilterError::BadNumber => "invalid number"@,
    }
}

impl FilterError {
    /// The message the template engine reports for the error.
    pub fn message(&self) -> (m: String)
        ensures
            m@ == filter_message(*self),
            *self == FilterError::NotAnArray ==> m@ == "must provide values alongside random"@,
            *self == FilterError::NotAnObject ==> m@ == "requires a valid object"@,
            *self == FilterError::NoCategoryField ==> m@ == "requires a valid category"@,
            *self == FilterError::NoMatch ==> m@ == "nope, no match"@,
            *self == FilterError::NoObject ==> m@ == "oups, no object"@,
            *self == FilterError::NoValues ==> m@ == "shit, no values"@,
            *self == FilterError::NoArray ==> m@ == "fuck, no array"@,
            *self == FilterError::BadNumber ==> m@ == "invalid number"@,
    {
        match self {
            FilterError::NotAnArray => String::from_str("must provide values alongside random"),
            FilterError::NotAnObject => String::from_str("requires a valid object"),
            FilterError::NoCategoryField => String::from_str("requires a valid category"),
            FilterError::NoMatch => String::from_str("nope, no match"),
            FilterError::NoObject => String::from_str("oups, no object"),
            FilterError::NoValues => String::from_str("shit, no values"),
            FilterError::NoArray => String::from_str("fuck, no array"),
            FilterError::BadNumber => String::from_str("invalid number"),
        }
    }
}

/// What a search for the category `c` among `items[from..]` finds: the position
/// of the first object whose `category` member equals `c`, or why it stopped.
pub open spec fn scan_for(items: Seq<Json>, c: Json, from: int) -> Result<int, FilterError>
    decreases items.len() - from,
{
    if from < 0 || from >= items.len() {
        Err(FilterError::NoMatch)
    } else {
        match items[from] {
            Json::Object(m) => match member(m@, "category"@) {
                None => Err(FilterError::NoCategoryField),
                Some(v) => if json_same(v, c) {
                    Ok(from)
                } else {
                    scan_for(items, c, from + 1)
                },
            },
            _ => Err(FilterError::NotAnObject),
        }
    }
}

/// Whether a value may be drawn under the prefix asked for: any value without
/// a prefix; with one, a string that starts with it, case aside.
pub open spec fn eligible(v: Json, prefix: Option<Seq<char>>) -> bool {
    match prefix {
        None => true,
        Some(p) => v matches Json::Str(s) && pattern_accepts(Some(p), s@),
    }
}

/// The values that may be drawn under the prefix, in order.
pub open spec fn eligible_values(values: Seq<Json>, prefix: Option<Seq<char>>) -> Seq<Json>
    decreases values.len(),
{
    if values.len() == 0 {
        seq![]
    } else {
        let rest = eligible_values(values.drop_last(), prefix);
        if eligible(values.last(), prefix) { rest.push(values.last()) } else { rest }
    }
}

/// Whether `r` is a possible result of drawing a value from the category `cat`:
/// the item of its `values` list that may be drawn under the prefix at a
/// position drawn by [`gen_range`] over all of them, nothing when there is
/// none, or the error that stops the draw.
pub open spec fn drawn_from(cat: Json, prefix: Option<Seq<char>>, r: Result<Option<Json>, FilterError>) -> bool {
    match cat {
        Json::Object(m) => match member(m@, "values"@) {
            None => r == Err::<Option<Json>, FilterError>(FilterError::NoValues),
            Some(vs) => match vs {
                Json::Array(a) => {
                    let e = eligible_values(a@, prefix);
                    if e.len() == 0 {
                        r == Ok::<Option<Json>, FilterError>(None)
                    } else {
                        exists|k: usize| #[trigger] call_ensures(gen_range, (0usize, e.len() as usize), k) && k < e.len()
                            && r == Ok::<Option<Json>, FilterError>(Some(e[k as int]))
                    }
                },
                _ => r == Err::<Option<Json>, FilterError>(FilterError::NoArray),
            },
        },
        _ => r == Err::<Option<Json>, FilterError>(FilterError::NoObject),
    }
}

/// Whether `r` is a possible result of the `rr` filter on `value`, asked for the
/// category `wanted` or for any, and for values starting with `prefix` or any:
/// nothing for an empty list; otherwise a draw from the first category called
/// `wanted`, or from the category at a position drawn by [`gen_range`] over the
/// whole list.
pub open spec fn filtered(value: Json, wanted: Option<Json>, prefix: Option<Seq<char>>, r: Result<Option<Json>, FilterError>) -> bool {
    match value {
        Json::Array(items) => if items@.len() == 0 {
            r == Ok::<Option<Json>, FilterError>(None)
        } else {
            match wanted {
                Some(c) => match scan_for(items@, c, 0) {
                    Ok(i) => drawn_from(items@[i], prefix, r),
                    Err(e) => r == Err::<Option<Json>, FilterError>(e),
                },
                None => exists|i: usize| #[trigger] call_ensures(gen_range, (0usize, items@.len() as usize), i)
                    && i < items@.len() && drawn_from(items@[i as int], prefix, r),
            }
        },
        _ => r == Err::<Option<Json>, FilterError>(FilterError::NotAnArray),
    }
}

/// The view of a borrowed result.
pub open spec fn owned(r: Result<Option<&Json>, FilterError>) -> Result<Option<Json>, FilterError> {
    match r {
        Ok(Some(x)) => Ok(Some(*x)),
        Ok(None) => Ok(None),
        Err(e) => Err(e),
    }
}

/// The position of the first category called `c` (see [`scan_for`]).
pub fn find_category(items: &Vec<Json>, c: &Json) -> (r: Result<usize, FilterError>)
    ensures
        r matches Ok(i) ==> i < items@.len() && scan_for(items@, *c, 0) == Ok::<int, FilterError>(i as int),
        r matches Err(e) ==> scan_for(items@, *c, 0) == Err::<int, FilterError>(e),
{
    let mut i: usize = 0;
    while i < items.len()
        invariant
            i <= items.len(),
            scan_for(items@, *c, 0) == scan_for(items@, *c, i as int),
        decreases items.len() - i,
    {
        match &items[i] {
            Json::Object(_) => {
                match field_of(&items[i], "category") {
                    None => return Err(FilterError::NoCategoryField),
                    Some(v) => {
                        if json_eq(v, c) {
                            return Ok(i);
                        }
                    },
                }
            },
            _ => return Err(FilterError::NotAnObject),
        }
        i = i + 1;
    }
    Err(FilterError::NoMatch)
}

/// The values that may be drawn under the prefix (see [`eligible_values`]).
fn eligible_of<'a>(values: &'a Vec<Json>, prefix: Option<&str>) -> (r: Vec<&'a Json>)
    ensures
        r@.map_values(|x: &Json| *x) == eligible_values(values@, opt_view(prefix)),
{
    let ghost pv = opt_view(prefix);
    let mut r: Vec<&'a Json> = Vec::new();
    let mut i: usize = 0;
    while i < values.len()
        invariant
            i <= values@.len(),
            pv == opt_view(prefix),
            r@.map_values(|x: &Json| *x) == eligible_values(values@.take(i as int), pv),
        decreases values@.len() - i,
    {
        assert(values@.take(i + 1).drop_last() == values@.take(i as int));
        assert(values@.take(i + 1).last() == values@[i as int]);
        let keep = match prefix {
            None => true,
            Some(p) => match &values[i] {
                Json::Str(s) => pattern_matches(s.as_str(), Some(p)),
                _ => false,
            },
        };
        if keep {
            let ghost before = r@;
            r.push(&values[i]);
            assert(r@.map_values(|x: &Json| *x) =~= before.map_values(|x: &Json| *x).push(values@[i as int]));
        }
        i = i + 1;
    }
    assert(values@.take(values@.len() as int) == values@);
    r
}

/// A random value of the category `cat` that may be drawn under the prefix
/// (see [`drawn_from`]).
pub fn draw_value<'a>(cat: &'a Json, prefix: Option<&str>) -> (r: Result<Option<&'a Json>, FilterError>)
    ensures
        drawn_from(*cat, opt_view(prefix), owned(r)),
{
    match cat {
        Json::Object(m) => {
            match crate::json::member_of(m, "values") {
                None => Err(FilterError::NoValues),
                Some(vs) => match vs {
                    Json::Array(a) => {
                        let e = eligible_of(a, prefix);
                        let ghost ev = eligible_values(a@, opt_view(prefix));
                        if e.len() == 0 {
                            Ok(None)
                        } else {
                            let k = gen_range(0, e.len());
                            let r: Result<Option<&Json>, FilterError> = Ok(Some(e[k]));
                            assert(ev[k as int] == *e@[k as int]);
                            assert(owned(r) == Ok::<Option<Json>, FilterError>(Some(ev[k as int])));
                            assert(call_ensures(gen_range, (0usize, ev.len() as usize), k));
                            r
                        }
                    },
                    _ => Err(FilterError::NoArray),
                },
            }
        },
        _ => Err(FilterError::NoObject),
    }
}

/// A random value out of a list of categories (see [`filtered`]): each category
/// is an object with a `category` name and a list of `values`.
pub fn pick_value<'a>(value: &'a Json, wanted: Option<&Json>, prefix: Option<&str>) -> (r: Result<Option<&'a Json>, FilterError>)
    ensures
        filtered(
            *value,
            match wanted {
                Some(c) => Some(*c),
                None => None,
            },
            opt_view(prefix),
            owned(r),
        ),
{
    match value {
        Json::Array(items) => {
            if items.len() == 0 {
                return Ok(None);
            }
            match wanted {
                Some(c) => match find_category(items, c) {
                    Ok(i) => draw_value(&items[i], prefix),
                    Err(e) => Err(e),
                },
                None => {
                    let i = gen_range(0, items.len());
                    let r = draw_value(&items[i], prefix);
                    assert(drawn_from(items@[i as int], opt_view(prefix), owned(r)));
                    r
                },
            }
        },
        _ => Err(FilterError::NotAnArray),
    }
}

/// The template-engine error that carries `message` and nothing else.
pub uninterp spec fn msg_error(message: Seq<char>) -> tera::Error;

/// Calls `tera::Error::msg`: a template-engine error carrying `message`, named
/// `msg_error`.
#[verifier::external_body]
pub fn tera_error(message: String) -> (e: tera::Error)
    ensures
        e == msg_error(message@),
{
    tera::Error::msg(message)
}

/// Calls `HashMap::get` with a borrowed key: the value held under the key that
/// reads `name`, if there is one.
#[verifier::external_body]
fn arg_named<'a>(args: &'a HashMap<String, tera::Value>, name: &str) -> (r: Option<&'a tera::Value>)
    ensures
        r matches Some(x) ==> exists|k: String| k@ == name@ && #[trigger] args@.contains_key(k) && args@[k] == *x,
        r is None ==> forall|k: String| #[trigger] args@.contains_key(k) ==> k@ != name@,
{
    args.get(name)
}

/// Whether `c` is the category the filter's arguments ask for: the `c`
/// argument as plain data, or none when there is no such argument.
pub open spec fn asked_category(args: Map<String, tera::Value>, c: Option<Json>) -> bool {
    match c {
        Some(j) => exists|k: String| k@ == "c"@ && #[trigger] args.contains_key(k) && j == json_of(args[k]),
        None => forall|k: String| #[trigger] args.contains_key(k) ==> k@ != "c"@,
    }
}

/// Whether `prefix` is the prefix the filter's arguments ask for: the
/// `starts_with` argument when it is a string; none when there is no such
/// argument or it is not a string.
pub open spec fn asked_prefix(args: Map<String, tera::Value>, prefix: Option<Seq<char>>) -> bool {
    match prefix {
        Some(p) => exists|k: String| k@ == "starts_with"@ && #[trigger] args.contains_key(k)
            && (json_of(args[k]) matches Json::Str(x) && x@ == p),
        None => (forall|k: String| #[trigger] args.contains_key(k) ==> k@ != "starts_with"@)
            || exists|k: String| k@ == "starts_with"@ && #[trigger] args.contains_key(k) && !(json_of(args[k]) is Str),
    }
}

/// What the filter hands back to the template engine for an outcome `p` of the
/// draw: the picked value, or null for nothing, as the engine holds them (an
/// error instead when the picked value holds a number that does not convert
/// back); an error with the message of the draw's error.
pub open spec fn filter_reply(p: Result<Option<Json>, FilterError>, r: Result<tera::Value, tera::Error>) -> bool {
    match p {
        Ok(Some(x)) => r == Ok::<tera::Value, tera::Error>(value_of(x))
            || (!number_free(x) && r == Err::<tera::Value, tera::Error>(msg_error(filter_message(FilterError::BadNumber)))),
        Ok(None) => r == Ok::<tera::Value, tera::Error>(value_of(Json::Null)),
        Err(e) => r == Err::<tera::Value, tera::Error>(msg_error(filter_message(e))),
    }
}

/// The `rr` template filter: a random value out of the list of categories it is
/// applied to, from the category named by the `c` argument when there is one,
/// among the values starting with the `starts_with` argument when it is a
/// string (see [`pick_value`]); an empty list, or a category with no such
/// value, gives null.
///
/// The filter is called by the template engine, which cannot be held to a
/// precondition, so it accepts every value: where it cannot pick (a value that
/// is not a list, an item that is not a category, no category of the asked
/// name), it does not panic but hands the engine an error with the message of
/// the [`FilterError`], which the engine reports as a failed rendering.
pub fn random_filter(value: &tera::Value, args: &HashMap<String, tera::Value>) -> (r: Result<tera::Value, tera::Error>)
    ensures
        exists|c: Option<Json>, pre: Option<Seq<char>>, p: Result<Option<Json>, FilterError>|
            asked_category(args@, c) && asked_prefix(args@, pre) && #[trigger] filtered(json_of(*value), c, pre, p)
                && filter_reply(p, r),
{
    let v = json_from_value(value);
    let c = match arg_named(args, "c") {
        Some(x) => Some(json_from_value(x)),
        None => None,
    };
    assert(asked_category(args@, c));
    let pre = match arg_named(args, "starts_with") {
        Some(x) => json_from_value(x),
        None => Json::Null,
    };
    let prefix: Option<&str> = match &pre {
        Json::Str(s) => Some(s.as_str()),
        _ => None,
    };
    assert(asked_prefix(args@, opt_view(prefix)));
    let picked = match &c {
        Some(x) => pick_value(&v, Some(x), prefix),
        None => pick_value(&v, None, prefix),
    };
    let ghost p = owned(picked);
    assert(filtered(json_of(*value), c, opt_view(prefix), p));
    match picked {
        Ok(Some(x)) => match json_to_value(x) {
            Some(out) => Ok(out),
            None => Err(tera_error(FilterError::BadNumber.message())),
        },
        Ok(None) => match json_to_value(&Json::Null) {
            Some(out) => Ok(out),
            None => Err(tera_error(FilterError::BadNumber.message())),
        },
        Err(e) => Err(tera_error(e.message())),
    }
}

/// A list holding one category whose values are the single value `v` always
/// gives `v`, asked for no category.
pub proof fn law_single_value_is_picked(value: Json, v: Json, r: Result<Option<Json>, FilterError>)
    requires
        value matches Json::Array(items) && items@.len() == 1 && (items@[0] matches Json::Object(m)
            && (member(m@, "values"@) matches Some(Json::Array(vs)) && vs@.len() == 1 && vs@[0] == v)),
        filtered(value, None, None, r),
    ensures
        r == Ok::<Option<Json>, FilterError>(Some(v)),
{
    if let Json::Array(items) = value {
        if let Json::Object(m) = items@[0] {
            if let Some(Json::Array(vs)) = member(m@, "values"@) {
                lemma_eligible_none(vs@);
            }
        }
    }
}

/// A category whose values are an empty list gives nothing, which templates
/// render as an empty text.
pub proof fn law_empty_category_gives_nothing(value: Json, r: Result<Option<Json>, FilterError>)
    requires
        value matches Json::Array(items) && items@.len() == 1 && (items@[0] matches Json::Object(m)
            && (member(m@, "values"@) matches Some(Json::Array(vs)) && vs@.len() == 0)),
        filtered(value, None, None, r),
    ensures
        r == Ok::<Option<Json>, FilterError>(None),
{
}

/// Whatever the filter picks is one of the values of a category of the list.
pub proof fn law_pick_from_values(value: Json, wanted: Option<Json>, prefix: Option<Seq<char>>, x: Json)
    requires
        filtered(value, wanted, prefix, Ok(Some(x))),
    ensures
        value matches Json::Array(items) && exists|i: int| 0 <= i < items@.len()
            && (field(#[trigger] items@[i], "values"@) matches Some(Json::Array(vs)) && vs@.contains(x)),
        eligible(x, prefix),
{
    if let Json::Array(items) = value {
        let i = match wanted {
            Some(c) => {
                let i = scan_for(items@, c, 0)->Ok_0;
                i
            },
            None => {
                let i = choose|i: usize| #[trigger] call_ensures(gen_range, (0usize, items@.len() as usize), i)
                    && i < items@.len() && drawn_from(items@[i as int], prefix, Ok(Some(x)));
                i as int
            },
        };
        if wanted is Some {
            lemma_scan_in_range(items@, wanted->0, 0);
        }
        let it = items@[i];
        if let Json::Object(m) = it {
            if let Some(Json::Array(vs)) = member(m@, "values"@) {
                let e = eligible_values(vs@, prefix);
                lemma_eligible_values(vs@, prefix);
                let k = choose|k: usize| #[trigger] call_ensures(gen_range, (0usize, e.len() as usize), k) && k < e.len()
                    && Ok::<Option<Json>, FilterError>(Some(x)) == Ok::<Option<Json>, FilterError>(Some(e[k as int]));
                assert(e[k as int] == x);
                assert(vs@.contains(x));
            }
        }
    }
}

/// Without a prefix every value may be drawn.
proof fn lemma_eligible_none(values: Seq<Json>)
    ensures
        eligible_values(values, None) == values,
    decreases values.len(),
{
    if values.len() > 0 {
        lemma_eligible_none(values.drop_last());
        assert(values.drop_last().push(values.last()) == values);
    }
}

/// The values that may be drawn are values of the list, and each may be drawn.
proof fn lemma_eligible_values(values: Seq<Json>, prefix: Option<Seq<char>>)
    ensures
        forall|k: int| 0 <= k < eligible_values(values, prefix).len() ==>
            values.contains(#[trigger] eligible_values(values, prefix)[k]) && eligible(eligible_values(values, prefix)[k], prefix),
    decreases values.len(),
{
    if values.len() > 0 {
        let dl = values.drop_last();
        lemma_eligible_values(dl, prefix);
        let e = eligible_values(values, prefix);
        let ed = eligible_values(dl, prefix);
        assert forall|k: int| 0 <= k < e.len() implies values.contains(#[trigger] e[k]) && eligible(e[k], prefix) by {
            if k < ed.len() {
                assert(e[k] == ed[k]);
                let j = choose|j: int| 0 <= j < dl.len() && dl[j] == ed[k];
                assert(values[j] == ed[k]);
            } else {
                assert(e[k] == values.last());
                assert(values[values.len() - 1] == values.last());
            }
        }
    }
}

/// A search that finds a category finds it at a position of the list.
proof fn lemma_scan_in_range(items: Seq<Json>, c: Json, from: int)
    requires
        0 <= from,
    ensures
        scan_for(items, c, from) matches Ok(i) ==> from <= i < items.len(),
    decreases items.len() - from,
{
    if from < items.len() {
        lemma_scan_in_range(items, c, from + 1);
    }
}

/// Without a `c` argument, the filter draws the category it takes a value from
/// at a position that [`gen_range`] drew over the whole list: any category of
/// the list can supply the value.
pub proof fn law_pick_draws_any_category<'a>(
    value: &'a Json,
    prefix: Option<&str>,
    r: Result<Option<&'a Json>, FilterError>,
)
    requires
        call_ensures(pick_value, (value, None::<&Json>, prefix), r),
        value matches Json::Array(items) && items@.len() > 0,
    ensures
        exists|i: usize| #[trigger] call_ensures(gen_range, (0usize, value->Array_0@.len() as usize), i)
            && i < value->Array_0@.len() && drawn_from(value->Array_0@[i as int], opt_view(prefix), owned(r)),
{
}

/// A value drawn from a category is the one at a position that [`gen_range`]
/// drew over all the values that may be drawn under the prefix: any of them
/// can be the one given.
pub proof fn law_value_drawn_from_all_eligible(cat: Json, prefix: Option<Seq<char>>, x: Json)
    requires
        drawn_from(cat, prefix, Ok(Some(x))),
    ensures
        cat matches Json::Object(m) && (member(m@, "values"@) matches Some(Json::Array(a)) && exists|k: usize|
            #[trigger] call_ensures(gen_range, (0usize, eligible_values(a@, prefix).len() as usize), k)
                && k < eligible_values(a@, prefix).len() && x == eligible_values(a@, prefix)[k as int]),
{
}

} // verus!
