//! How a term's facts and rules are written out on its screen:
//! `name ( a, b )` for a fact, `name ( X, Y ) if other ( X ), more ( Y )`
//! for a rule.
use vstd::prelude::*;
use crate::ask::push_char;
use crate::model::{strings_view, ArgsBinding, BoundTermView, Rule, RuleView};

verus! {

/// The parts written one after the other, with `sep` between two of them.
pub open spec fn joined(parts: Seq<Seq<char>>, sep: Seq<char>) -> Seq<char>
    decreases parts.len(),
{
    if parts.len() == 0 {
        Seq::empty()
    } else if parts.len() == 1 {
        parts[0]
    } else {
        joined(parts.drop_last(), sep) + sep + parts.last()
    }
}

/// The separator between arguments, and between the terms of a body.
pub open spec fn comma() -> Seq<char> {
    seq![',', ' ']
}

/// A term applied to values: `name ( v1, v2 )`.
pub open spec fn call_text(name: Seq<char>, args: Seq<Seq<char>>) -> Seq<char> {
    name + seq![' ', '(', ' '] + joined(args, comma()) + seq![' ', ')']
}

/// A rule of the term `name`: its head, ` if `, and its body's terms.
pub open spec fn rule_text_of(name: Seq<char>, r: RuleView) -> Seq<char> {
    call_text(name, r.head) + seq![' ', 'i', 'f', ' '] + joined(
        r.body.map_values(|b: BoundTermView| call_text(b.name, b.args)),
        comma(),
    )
}

/// Appends the characters of `s` to `res`.
fn append(res: &mut String, s: &str)
    ensures
        final(res)@ == old(res)@ + s@,
{
    let len = s.unicode_len();
    let mut i: usize = 0;
    while i < len
        invariant
            i <= len,
            len == s@.len(),
            res@ == old(res)@ + s@.take(i as int),
        decreases len - i,
    {
        let c = s.get_char(i);
        push_char(res, c);
        i = i + 1;
        assert(res@ =~= old(res)@ + s@.take(i as int));
    }
    assert(s@.take(i as int) =~= s@);
}

/// Appends the characters of a sequence given as a literal.
fn append_chars(res: &mut String, cs: &[char])
    ensures
        final(res)@ == old(res)@ + cs@,
{
    let mut i: usize = 0;
    while i < cs.len()
        invariant
            i <= cs@.len(),
            res@ == old(res)@ + cs@.take(i as int),
        decreases cs@.len() - i,
    {
        push_char(res, cs[i]);
        i = i + 1;
        assert(res@ =~= old(res)@ + cs@.take(i as int));
    }
    assert(cs@.take(i as int) =~= cs@);
}

/// Appends the values, separated by `, `.
fn append_joined(res: &mut String, values: &Vec<String>)
    ensures
        final(res)@ == old(res)@ + joined(strings_view(values@), comma()),
{
    let ghost vs = strings_view(values@);
    let mut i: usize = 0;
    while i < values.len()
        invariant
            i <= values@.len(),
            vs == strings_view(values@),
            res@ == old(res)@ + joined(vs.take(i as int), comma()),
        decreases values@.len() - i,
    {
        let ghost before = res@;
        assert(vs.take(i + 1).drop_last() =~= vs.take(i as int));
        assert(vs.take(i + 1).last() == values@[i as int]@);
        if i > 0 {
            append_chars(res, &[',', ' ']);
        }
        append(res, values[i].as_str());
        i = i + 1;
        assert(res@ =~= old(res)@ + joined(vs.take(i as int), comma()));
    }
    assert(vs.take(i as int) =~= vs);
}

/// Appends `name ( v1, v2 )`.
fn append_call(res: &mut String, name: &str, values: &Vec<String>)
    ensures
        final(res)@ == old(res)@ + call_text(name@, strings_view(values@)),
{
    append(res, name);
    append_chars(res, &[' ', '(', ' ']);
    append_joined(res, values);
    append_chars(res, &[' ', ')']);
    assert(res@ =~= old(res)@ + call_text(name@, strings_view(values@)));
}

/// A fact of the term `term_name`, written out: `term_name ( v1, v2 )`.
pub fn fact_text(term_name: &str, fact: &ArgsBinding) -> (res: String)
    ensures
        res@ == call_text(term_name@, fact@),
{
    let mut res = String::new();
    append_call(&mut res, term_name, &fact.binding);
    assert(res@ =~= call_text(term_name@, fact@));
    res
}

/// A rule of the term `term_name`, written out: its head as a fact would
/// be, then ` if ` and the terms of its body, separated by `, `.
pub fn rule_text(term_name: &str, rule: &Rule) -> (res: String)
    ensures
        res@ == rule_text_of(term_name@, rule@),
{
    let mut res = String::new();
    append_call(&mut res, term_name, &rule.arg_bindings.binding);
    append_chars(&mut res, &[' ', 'i', 'f', ' ']);
    let ghost head = res@;
    let ghost parts = rule@.body.map_values(|b: BoundTermView| call_text(b.name, b.args));
    let mut i: usize = 0;
    while i < rule.body.len()
        invariant
            i <= rule.body@.len(),
            parts == rule@.body.map_values(|b: BoundTermView| call_text(b.name, b.args)),
            res@ == head + joined(parts.take(i as int), comma()),
        decreases rule.body@.len() - i,
    {
        assert(parts.take(i + 1).drop_last() =~= parts.take(i as int));
        assert(rule.body@[i as int]@ == rule@.body[i as int]);
        assert(parts.take(i + 1).last() == call_text(
            rule.body@[i as int].name@,
            strings_view(rule.body@[i as int].arg_bindings.binding@),
        ));
        if i > 0 {
            append_chars(&mut res, &[',', ' ']);
        }
        append_call(&mut res, rule.body[i].name.as_str(), &rule.body[i].arg_bindings.binding);
        i = i + 1;
        assert(res@ =~= head + joined(parts.take(i as int), comma()));
    }
    assert(parts.take(i as int) =~= parts);
    assert(res@ =~= rule_text_of(term_name@, rule@));
    res
}

} // verus!
