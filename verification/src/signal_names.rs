//! Finding a signal of the flattened design by any reasonable form of its name.
//!
//! The flattened table joins the parts of a hierarchical name with two underscores and
//! leaves the top module out.
use crate::text::{chars_of, concat_str, push_char, str_eq, string_from};
use vstd::prelude::*;

verus! {

/// Position of the first point at or after `i`, or the length.
pub open spec fn dot_from(s: Seq<char>, i: int) -> int
    decreases s.len() - i,
{
    if i >= s.len() {
        s.len() as int
    } else if s[i] == '.' {
        i
    } else {
        dot_from(s, i + 1)
    }
}

/// `s` with two underscores for every point.
pub open spec fn flattened(s: Seq<char>) -> Seq<char>
    decreases s.len(),
{
    if s.len() == 0 {
        Seq::empty()
    } else if s.last() == '.' {
        flattened(s.drop_last()).push('_').push('_')
    } else {
        flattened(s.drop_last()).push(s.last())
    }
}

/// The forms of a name that are looked for: the name and its flattened form, then the same
/// of what follows its first point, and so on.
pub open spec fn name_forms(s: Seq<char>) -> Seq<Seq<char>>
    decreases s.len(),
{
    let d = dot_from(s, 0);
    if 0 <= d < s.len() {
        seq![s, flattened(s)] + name_forms(s.skip(d + 1))
    } else {
        seq![s, flattened(s)]
    }
}

/// `name` is `form`, or ends in it where `exact` is not asked for.
pub open spec fn name_matches(name: Seq<char>, form: Seq<char>, exact: bool) -> bool {
    if exact {
        name == form
    } else {
        form.len() <= name.len() && name.skip(name.len() - form.len()) == form
    }
}

/// First of the names that matches `form`.
pub open spec fn first_match(names: Seq<Seq<char>>, form: Seq<char>, exact: bool) -> Option<int>
    decreases names.len(),
{
    if names.len() == 0 {
        None
    } else {
        match first_match(names.drop_last(), form, exact) {
            Some(i) => Some(i),
            None => if name_matches(names.last(), form, exact) {
                Some(names.len() - 1)
            } else {
                None
            },
        }
    }
}

/// The match of the first form that has one.
pub open spec fn first_form(names: Seq<Seq<char>>, forms: Seq<Seq<char>>, exact: bool) -> Option<int>
    decreases forms.len(),
{
    if forms.len() == 0 {
        None
    } else {
        match first_form(names, forms.drop_last(), exact) {
            Some(i) => Some(i),
            None => first_match(names, forms.last(), exact),
        }
    }
}

/// The signal that a name stands for: the first form of it that is a signal, else the
/// first form that a signal ends in.
pub open spec fn signal_of(names: Seq<Seq<char>>, name: Seq<char>) -> Option<int> {
    match first_form(names, name_forms(name), true) {
        Some(i) => Some(i),
        None => first_form(names, name_forms(name), false),
    }
}

proof fn lemma_first_match(names: Seq<Seq<char>>, form: Seq<char>, exact: bool)
    ensures
        match first_match(names, form, exact) {
            Some(i) => 0 <= i < names.len() && name_matches(names[i], form, exact) && forall|j: int|
                0 <= j < i ==> !name_matches(#[trigger] names[j], form, exact),
            None => forall|j: int|
                0 <= j < names.len() ==> !name_matches(#[trigger] names[j], form, exact),
        },
    decreases names.len(),
{
    if names.len() > 0 {
        let rest = names.drop_last();
        lemma_first_match(rest, form, exact);
        assert forall|j: int| 0 <= j < rest.len() implies #[trigger] rest[j] == names[j] by {}
        match first_match(rest, form, exact) {
            Some(i) => {
                assert forall|j: int| 0 <= j < i implies !name_matches(
                    #[trigger] names[j],
                    form,
                    exact,
                ) by {
                    assert(rest[j] == names[j]);
                }
            },
            None => {
                assert forall|j: int| 0 <= j < rest.len() implies !name_matches(
                    #[trigger] names[j],
                    form,
                    exact,
                ) by {
                    assert(rest[j] == names[j]);
                }
            },
        }
    }
}

/// A name that is a signal stands for it: it is found, and under its own name.
pub proof fn law_exact_name_wins(names: Seq<Seq<char>>, name: Seq<char>)
    requires
        names.contains(name),
    ensures
        signal_of(names, name) matches Some(i) && 0 <= i < names.len() && names[i] == name,
{
    let forms = name_forms(name);
    assert(forms[0] == name);
    let i = choose|i: int| 0 <= i < names.len() && names[i] == name;
    lemma_first_match(names, name, true);
    assert(name_matches(names[i], name, true));
    lemma_first_of_forms(names, forms);
}

proof fn lemma_first_of_forms(names: Seq<Seq<char>>, forms: Seq<Seq<char>>)
    requires
        forms.len() > 0,
        first_match(names, forms[0], true) is Some,
    ensures
        first_form(names, forms, true) == first_match(names, forms[0], true),
    decreases forms.len(),
{
    reveal_with_fuel(first_form, 2);
    if forms.len() > 1 {
        assert(forms.drop_last()[0] == forms[0]);
        lemma_first_of_forms(names, forms.drop_last());
    } else {
        assert(forms.last() == forms[0]);
        assert(forms.drop_last() =~= Seq::empty());
    }
}

/// A signal inside an instance of the top module is found by its dotted name with the top
/// module in front, where neither a longer form of the name is a signal too: `top.u.x`
/// stands for `u__x`.
pub proof fn law_dotted_name_is_flattened(
    names: Seq<Seq<char>>,
    top: Seq<char>,
    path: Seq<char>,
)
    requires
        forall|i: int| 0 <= i < top.len() ==> #[trigger] top[i] != '.',
        names.contains(flattened(path)),
        !names.contains(path),
        !names.contains(top + seq!['.'] + path),
        !names.contains(flattened(top + seq!['.'] + path)),
    ensures
        signal_of(names, top + seq!['.'] + path) matches Some(i) && 0 <= i < names.len()
            && names[i] == flattened(path),
{
    let name = top + seq!['.'] + path;
    lemma_dot_after(top, path, 0);
    assert(name.skip(top.len() as int + 1) =~= path);
    let forms = name_forms(name);
    let inner = name_forms(path);
    assert(forms == seq![name, flattened(name)] + inner);
    assert(inner[0] == path && inner[1] == flattened(path));
    lemma_first_match(names, name, true);
    lemma_first_match(names, flattened(name), true);
    lemma_first_match(names, path, true);
    lemma_first_match(names, flattened(path), true);
    let k = choose|k: int| 0 <= k < names.len() && names[k] == flattened(path);
    assert(name_matches(names[k], flattened(path), true));
    assert(first_match(names, name, true) is None);
    assert(first_match(names, flattened(name), true) is None);
    assert(first_match(names, path, true) is None);
    lemma_fourth_form(names, forms);
}

proof fn lemma_dot_after(top: Seq<char>, path: Seq<char>, i: int)
    requires
        forall|j: int| 0 <= j < top.len() ==> #[trigger] top[j] != '.',
        0 <= i <= top.len(),
    ensures
        dot_from(top + seq!['.'] + path, i) == top.len(),
    decreases top.len() - i,
{
    let name = top + seq!['.'] + path;
    if i < top.len() {
        assert(name[i] == top[i]);
        lemma_dot_after(top, path, i + 1);
    } else {
        assert(name[i] == '.');
    }
}

proof fn lemma_fourth_form(names: Seq<Seq<char>>, forms: Seq<Seq<char>>)
    requires
        forms.len() >= 4,
        first_match(names, forms[0], true) is None,
        first_match(names, forms[1], true) is None,
        first_match(names, forms[2], true) is None,
        first_match(names, forms[3], true) is Some,
    ensures
        first_form(names, forms, true) == first_match(names, forms[3], true),
    decreases forms.len(),
{
    let rest = forms.drop_last();
    if forms.len() > 4 {
        assert(rest[0] == forms[0] && rest[1] == forms[1] && rest[2] == forms[2] && rest[3]
            == forms[3]);
        lemma_fourth_form(names, rest);
    } else {
        reveal_with_fuel(first_form, 5);
        assert(forms.last() == forms[3]);
        let a = rest;
        assert(a.last() == forms[2]);
        let b = a.drop_last();
        assert(b.last() == forms[1]);
        let c = b.drop_last();
        assert(c.last() == forms[0]);
        assert(c.drop_last().len() == 0);
    }
}

fn flatten(text: &str) -> (r: String)
    ensures
        r@ == flattened(text@),
{
    let chars = chars_of(text);
    let mut out = String::new();
    assert(out@ =~= Seq::empty());
    let mut i: usize = 0;
    while i < chars.len()
        invariant
            i <= chars@.len(),
            out@ == flattened(chars@.take(i as int)),
        decreases chars@.len() - i,
    {
        assert(chars@.take(i + 1).drop_last() == chars@.take(i as int));
        assert(chars@.take(i + 1).last() == chars@[i as int]);
        if chars[i] == '.' {
            push_char(&mut out, '_');
            push_char(&mut out, '_');
        } else {
            push_char(&mut out, chars[i]);
        }
        i = i + 1;
    }
    assert(chars@.take(i as int) == chars@);
    out
}

fn forms_of(name: &str) -> (r: Vec<String>)
    ensures
        crate::parser::cst::names_view(r@) == name_forms(name@),
{
    let chars = chars_of(name);
    let mut out: Vec<String> = Vec::new();
    let mut lo: usize = 0;
    assert(chars@.skip(0) == chars@);
    assert(crate::parser::cst::names_view(out@) + name_forms(chars@) =~= name_forms(chars@));
    loop
        invariant
            lo <= chars@.len(),
            crate::parser::cst::names_view(out@) + name_forms(chars@.skip(lo as int)) == name_forms(
                name@,
            ),
        decreases chars@.len() - lo,
    {
        let ghost before = crate::parser::cst::names_view(out@);
        let ghost rest = chars@.skip(lo as int);
        let dotted = string_from(chars.as_slice(), lo, chars.len());
        assert(dotted@ =~= rest);
        let flat = flatten(dotted.as_str());
        out.push(dotted);
        out.push(flat);
        assert(crate::parser::cst::names_view(out@) =~= before + seq![rest, flattened(rest)]);
        let mut d: usize = lo;
        while d < chars.len() && chars[d] != '.'
            invariant
                lo <= d <= chars@.len(),
                rest == chars@.skip(lo as int),
                dot_from(rest, d - lo) == dot_from(rest, 0),
            decreases chars@.len() - d,
        {
            assert(rest[d - lo] == chars@[d as int]);
            d = d + 1;
        }
        if d >= chars.len() {
            assert(name_forms(rest) == seq![rest, flattened(rest)]);
            return out;
        }
        assert(rest[d - lo] == chars@[d as int]);
        assert(rest.skip(d - lo + 1) =~= chars@.skip(d + 1));
        assert(crate::parser::cst::names_view(out@) + name_forms(chars@.skip(d + 1)) =~= before
            + name_forms(rest));
        lo = d + 1;
    }
}

fn ends_in(name: &str, form: &str) -> (r: bool)
    ensures
        r == name_matches(name@, form@, false),
{
    let a = chars_of(name);
    let b = chars_of(form);
    if b.len() > a.len() {
        return false;
    }
    let tail = string_from(a.as_slice(), a.len() - b.len(), a.len());
    assert(tail@ =~= name@.skip(name@.len() - form@.len()));
    str_eq(tail.as_str(), form)
}

fn find_match(names: &[String], form: &str, exact: bool) -> (r: Option<usize>)
    ensures
        match r {
            Some(i) => i < names@.len() && first_match(
                crate::parser::cst::names_view(names@),
                form@,
                exact,
            ) == Some(i as int),
            None => first_match(crate::parser::cst::names_view(names@), form@, exact) is None,
        },
{
    let ghost model = crate::parser::cst::names_view(names@);
    let mut i: usize = 0;
    while i < names.len()
        invariant
            i <= names@.len(),
            model == crate::parser::cst::names_view(names@),
            forall|j: int| 0 <= j < i ==> !name_matches(#[trigger] model[j], form@, exact),
        decreases names@.len() - i,
    {
        let hit = if exact {
            str_eq(names[i].as_str(), form)
        } else {
            ends_in(names[i].as_str(), form)
        };
        if hit {
            proof {
                assert(name_matches(model[i as int], form@, exact));
                lemma_first_match(model, form@, exact);
            }
            return Some(i);
        }
        i = i + 1;
    }
    proof {
        lemma_first_match(model, form@, exact);
    }
    None
}

fn find_form(names: &[String], forms: &Vec<String>, exact: bool) -> (r: Option<usize>)
    ensures
        match r {
            Some(i) => i < names@.len() && first_form(
                crate::parser::cst::names_view(names@),
                crate::parser::cst::names_view(forms@),
                exact,
            ) == Some(i as int),
            None => first_form(
                crate::parser::cst::names_view(names@),
                crate::parser::cst::names_view(forms@),
                exact,
            ) is None,
        },
{
    let ghost all = crate::parser::cst::names_view(names@);
    let ghost model = crate::parser::cst::names_view(forms@);
    let mut found: Option<usize> = None;
    let mut f: usize = 0;
    while f < forms.len()
        invariant
            f <= forms@.len(),
            all == crate::parser::cst::names_view(names@),
            model == crate::parser::cst::names_view(forms@),
            match found {
                Some(i) => i < names@.len() && first_form(all, model.take(f as int), exact) == Some(
                    i as int,
                ),
                None => first_form(all, model.take(f as int), exact) is None,
            },
        decreases forms@.len() - f,
    {
        assert(model.take(f + 1).drop_last() == model.take(f as int));
        assert(model.take(f + 1).last() == forms@[f as int]@);
        if found.is_none() {
            found = find_match(names, forms[f].as_str(), exact);
        }
        f = f + 1;
    }
    assert(model.take(f as int) == model);
    found
}

/// Finds the signal that a name stands for, with its own name.
pub fn resolve_signal(names: &[String], name: &str) -> (r: Option<(u32, String)>)
    ensures
        match signal_of(crate::parser::cst::names_view(names@), name@) {
            Some(i) => r is Some && r.unwrap().0 == i as u32 && 0 <= i < names@.len()
                && r.unwrap().1@ == names@[i]@,
            None => r is None,
        },
{
    let forms = forms_of(name);
    match find_form(names, &forms, true) {
        Some(i) => Some((i as u32, names[i].clone())),
        None => match find_form(names, &forms, false) {
            Some(i) => Some((i as u32, names[i].clone())),
            None => None,
        },
    }
}

/// Position of the last two underscores in a row.
pub open spec fn last_join(s: Seq<char>) -> Option<int>
    decreases s.len(),
{
    if s.len() < 2 {
        None
    } else if s[s.len() - 2] == '_' && s[s.len() - 1] == '_' {
        Some(s.len() - 2)
    } else {
        last_join(s.drop_last())
    }
}

/// A flattened name without its scope.
pub open spec fn leaf_of(s: Seq<char>) -> Seq<char> {
    match last_join(s) {
        Some(i) => s.skip(i + 2),
        None => s,
    }
}

/// The scope of a flattened name.
pub open spec fn scope_of(s: Seq<char>) -> Option<Seq<char>> {
    match last_join(s) {
        Some(i) => Some(s.take(i)),
        None => None,
    }
}

/// Splits a flattened name into its scope, where it has one, and its leaf.
pub fn split_scope(name: &str) -> (r: (Option<String>, String))
    ensures
        match r.0 {
            Some(p) => scope_of(name@) == Some(p@),
            None => scope_of(name@) is None,
        },
        r.1@ == leaf_of(name@),
{
    let chars = chars_of(name);
    let mut end: usize = chars.len();
    assert(chars@.take(end as int) == chars@);
    while end >= 2
        invariant
            end <= chars@.len(),
            chars@ == name@,
            last_join(chars@) == last_join(chars@.take(end as int)),
        decreases end,
    {
        let ghost p = chars@.take(end as int);
        assert(p.drop_last() == chars@.take(end - 1));
        if chars[end - 2] == '_' && chars[end - 1] == '_' {
            let scope = string_from(chars.as_slice(), 0, end - 2);
            let leaf = string_from(chars.as_slice(), end, chars.len());
            assert(scope@ =~= chars@.take(end - 2));
            assert(leaf@ =~= chars@.skip(end as int));
            return (Some(scope), leaf);
        }
        end = end - 1;
    }
    (None, name.to_owned())
}

/// `scope__name`.
pub fn join_scope(scope: &str, name: &str) -> (r: String)
    ensures
        r@ == scope@ + "__"@ + name@,
{
    let head = concat_str(scope, "__");
    concat_str(head.as_str(), name)
}

} // verus!
