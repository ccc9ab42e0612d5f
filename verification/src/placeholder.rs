//! The placeholders in which a new fact or a new rule of a term is written
//! before it is added to the term.
use vstd::prelude::*;
use crate::model::{
    copy_strings, lemma_filter_take_step, strings_view, ArgsBinding, BoundTerm, BoundTermView, Rule,
    RuleView,
};

verus! {

/// A binding of `arity` arguments, none of them written yet.
pub open spec fn blank_binding(arity: nat) -> Seq<Seq<char>> {
    Seq::new(arity, |_i: int| Seq::<char>::empty())
}

/// A term written in the body of a rule placeholder: its name and the values
/// written for its arguments.
pub open spec fn body_item_view(item: (String, Vec<String>)) -> (Seq<char>, Seq<Seq<char>>) {
    (item.0@, strings_view(item.1@))
}

/// Whether a body item names a term.
pub open spec fn is_named(item: (Seq<char>, Seq<Seq<char>>)) -> bool {
    item.0.len() > 0
}

/// The mention of a term that a body item stands for.
pub open spec fn mention_of(item: (Seq<char>, Seq<Seq<char>>)) -> BoundTermView {
    BoundTermView { name: item.0, args: item.1 }
}

/// The body of the rule written in a placeholder: its items that name a
/// term, in order; the items left without a name are dropped.
pub open spec fn named_mentions(items: Seq<(Seq<char>, Seq<Seq<char>>)>) -> Seq<BoundTermView> {
    items.filter(|it: (Seq<char>, Seq<Seq<char>>)| is_named(it)).map_values(
        |it: (Seq<char>, Seq<Seq<char>>)| mention_of(it),
    )
}

/// Copies a slice of strings.
fn copy_slice(args: &[String]) -> (res: Vec<String>)
    ensures
        res@ == args@,
{
    let mut res: Vec<String> = Vec::new();
    let mut i: usize = 0;
    while i < args.len()
        invariant
            i <= args@.len(),
            res@ == args@.take(i as int),
        decreases args@.len() - i,
    {
        res.push(args[i].clone());
        i = i + 1;
        assert(res@ =~= args@.take(i as int));
    }
    assert(res@ =~= args@);
    res
}

/// `arity` empty strings.
fn blank_strings(arity: usize) -> (res: Vec<String>)
    ensures
        strings_view(res@) == blank_binding(arity as nat),
{
    let mut res: Vec<String> = Vec::new();
    let mut i: usize = 0;
    while i < arity
        invariant
            i <= arity,
            strings_view(res@) == blank_binding(i as nat),
        decreases arity - i,
    {
        let blank = String::new();
        let ghost prev = res@;
        res.push(blank);
        assert(strings_view(res@) =~= strings_view(prev).push(Seq::<char>::empty()));
        i = i + 1;
        assert(strings_view(res@) =~= blank_binding(i as nat));
    }
    res
}

/// The values written for the arguments of a term's head.
pub struct HeadPlaceholder {
    pub binding: Vec<String>,
}

impl View for HeadPlaceholder {
    type V = Seq<Seq<char>>;

    open spec fn view(&self) -> Seq<Seq<char>> {
        strings_view(self.binding@)
    }
}

impl HeadPlaceholder {
    /// A head with the given values written in it.
    pub fn new(args: &[String]) -> (res: Self)
        ensures
            res.binding@ == args@,
    {
        Self { binding: copy_slice(args) }
    }

    /// Fits the head to a term of `arity` arguments: where the number of
    /// values differs from it, the head is cleared to `arity` empty values.
    pub fn fit_to(&mut self, arity: usize)
        ensures
            final(self)@ == if old(self)@.len() == arity {
                old(self)@
            } else {
                blank_binding(arity as nat)
            },
    {
        if self.binding.len() != arity {
            self.binding = blank_strings(arity);
        }
    }
}

/// A fact being written.
pub struct FactPlaceholder {
    pub head: HeadPlaceholder,
}

impl View for FactPlaceholder {
    type V = Seq<Seq<char>>;

    open spec fn view(&self) -> Seq<Seq<char>> {
        self.head@
    }
}

impl FactPlaceholder {
    /// A fact placeholder with the given values written in it.
    pub fn new(args: &[String]) -> (res: Self)
        ensures
            res.head.binding@ == args@,
    {
        Self { head: HeadPlaceholder::new(args) }
    }

    /// Hands out the fact that was written and leaves the placeholder empty.
    pub fn take_fact(&mut self) -> (fact: ArgsBinding)
        ensures
            fact.binding@ == old(self).head.binding@,
            final(self)@ == Seq::<Seq<char>>::empty(),
    {
        let mut written: Vec<String> = Vec::new();
        std::mem::swap(&mut written, &mut self.head.binding);
        assert(strings_view(self.head.binding@) =~= Seq::<Seq<char>>::empty());
        ArgsBinding { binding: written }
    }
}

/// The mathematical value of a [`RulePlaceholder`].
pub struct RulePlaceholderView {
    pub head: Seq<Seq<char>>,
    pub body: Seq<(Seq<char>, Seq<Seq<char>>)>,
}

/// The rule a placeholder stands for.
pub open spec fn rule_of(p: RulePlaceholderView) -> RuleView {
    RuleView { head: p.head, body: named_mentions(p.body) }
}

/// What a new rule placeholder holds: an empty head and one body item
/// without a name or values.
pub open spec fn fresh_rule_placeholder() -> RulePlaceholderView {
    RulePlaceholderView {
        head: Seq::empty(),
        body: seq![(Seq::<char>::empty(), Seq::<Seq<char>>::empty())],
    }
}

/// Filtering keeps a sequence whose elements all pass.
proof fn lemma_filter_keeps_all<A>(s: Seq<A>, pred: spec_fn(A) -> bool)
    requires
        forall|i: int| 0 <= i < s.len() ==> pred(#[trigger] s[i]),
    ensures
        s.filter(pred) == s,
    decreases s.len(),
{
    reveal(Seq::filter);
    if s.len() > 0 {
        lemma_filter_keeps_all(s.drop_last(), pred);
        assert(pred(s[s.len() - 1]));
        assert(s.drop_last().push(s.last()) =~= s);
    }
}

/// A rule taken into a placeholder and out again is the same rule, when
/// every term of its body has a name.
pub proof fn lemma_rule_round_trip(r: RuleView)
    requires
        forall|j: int| 0 <= j < r.body.len() ==> (#[trigger] r.body[j]).name.len() > 0,
    ensures
        rule_of(
            RulePlaceholderView {
                head: r.head,
                body: r.body.map_values(|b: BoundTermView| (b.name, b.args)),
            },
        ) == r,
{
    let items = r.body.map_values(|b: BoundTermView| (b.name, b.args));
    let pred = |it: (Seq<char>, Seq<Seq<char>>)| is_named(it);
    assert forall|i: int| 0 <= i < items.len() implies pred(#[trigger] items[i]) by {
        assert(items[i] == (r.body[i].name, r.body[i].args));
    }
    lemma_filter_keeps_all(items, pred);
    assert(items.filter(pred) == items);
    assert(named_mentions(items) =~= r.body);
}

/// A rule being written: the values of its head, and the terms of its body
/// with the values of their arguments.
pub struct RulePlaceholder {
    pub head: HeadPlaceholder,
    pub body: Vec<(String, Vec<String>)>,
}

impl View for RulePlaceholder {
    type V = RulePlaceholderView;

    open spec fn view(&self) -> RulePlaceholderView {
        RulePlaceholderView {
            head: self.head@,
            body: self.body@.map_values(|it: (String, Vec<String>)| body_item_view(it)),
        }
    }
}

impl RulePlaceholder {
    /// An empty rule placeholder, with one body item to fill in.
    pub fn new() -> (res: Self)
        ensures
            res@ == fresh_rule_placeholder(),
    {
        let mut body: Vec<(String, Vec<String>)> = Vec::new();
        body.push((String::new(), Vec::new()));
        let res = Self { head: HeadPlaceholder { binding: Vec::new() }, body };
        assert(res@.head =~= fresh_rule_placeholder().head);
        assert(res@.body[0].1 =~= Seq::<Seq<char>>::empty());
        assert(res@.body =~= fresh_rule_placeholder().body);
        res
    }

    /// A placeholder that holds an existing rule, for editing it.
    pub fn from_rule(rule: Rule) -> (res: Self)
        ensures
            res@.head == rule@.head,
            res@.body == rule@.body.map_values(|b: BoundTermView| (b.name, b.args)),
    {
        let mut body: Vec<(String, Vec<String>)> = Vec::new();
        let mut i: usize = 0;
        while i < rule.body.len()
            invariant
                i <= rule.body@.len(),
                body@.len() == i,
                forall|j: int|
                    0 <= j < i ==> body_item_view(#[trigger] body@[j]) == (
                        rule.body@[j].name@,
                        rule.body@[j].arg_bindings@,
                    ),
            decreases rule.body@.len() - i,
        {
            body.push((rule.body[i].name.clone(), copy_strings(&rule.body[i].arg_bindings.binding)));
            i = i + 1;
        }
        let res = Self { head: HeadPlaceholder { binding: rule.arg_bindings.binding }, body };
        assert(res@.body =~= rule@.body.map_values(|b: BoundTermView| (b.name, b.args)));
        res
    }

    /// The rule written in the placeholder: its head, and the body items
    /// that name a term.
    pub fn into_rule(self) -> (rule: Rule)
        ensures
            rule@ == rule_of(self@),
    {
        let ghost items = self@.body;
        let ghost pred = |it: (Seq<char>, Seq<Seq<char>>)| is_named(it);
        let ghost f = |it: (Seq<char>, Seq<Seq<char>>)| mention_of(it);
        let mut body: Vec<BoundTerm> = Vec::new();
        let mut i: usize = 0;
        while i < self.body.len()
            invariant
                i <= self.body@.len(),
                items == self@.body,
                pred == (|it: (Seq<char>, Seq<Seq<char>>)| is_named(it)),
                f == (|it: (Seq<char>, Seq<Seq<char>>)| mention_of(it)),
                body@.map_values(|b: BoundTerm| b@) == items.take(i as int).filter(pred).map_values(
                    f,
                ),
            decreases self.body@.len() - i,
        {
            proof {
                lemma_filter_take_step(items, pred, i as int);
            }
            let ghost before = body@;
            assert(items[i as int] == body_item_view(self.body@[i as int]));
            if !self.body[i].0.as_str().is_empty() {
                let mention = BoundTerm {
                    name: self.body[i].0.clone(),
                    arg_bindings: ArgsBinding { binding: copy_strings(&self.body[i].1) },
                };
                body.push(mention);
                assert(body@.map_values(|b: BoundTerm| b@) =~= before.map_values(
                    |b: BoundTerm| b@,
                ).push(f(items[i as int])));
                assert(items.take(i as int).filter(pred).push(items[i as int]).map_values(f)
                    =~= items.take(i as int).filter(pred).map_values(f).push(f(items[i as int])));
            }
            i = i + 1;
        }
        assert(items.take(i as int) =~= items);
        let rule = Rule { arg_bindings: ArgsBinding { binding: self.head.binding }, body };
        assert(rule@.body =~= named_mentions(self@.body));
        rule
    }

    /// Hands out the rule that was written and leaves a new placeholder.
    pub fn take_rule(&mut self) -> (rule: Rule)
        ensures
            rule@ == rule_of(old(self)@),
            final(self)@ == fresh_rule_placeholder(),
    {
        let mut written = RulePlaceholder::new();
        std::mem::swap(&mut written, self);
        written.into_rule()
    }

    /// Sets the body item at `idx` to the term `name` of `arity` arguments,
    /// with no value written for any of them.
    pub fn set_body_term(&mut self, idx: usize, name: String, arity: usize)
        requires
            idx < old(self).body@.len(),
        ensures
            final(self)@ == (RulePlaceholderView {
                body: old(self)@.body.update(idx as int, (name@, blank_binding(arity as nat))),
                ..old(self)@
            }),
    {
        self.body.set(idx, (name, blank_strings(arity)));
        assert(self@.body =~= old(self)@.body.update(idx as int, (name@, blank_binding(arity as nat))));
    }
}

} // verus!
