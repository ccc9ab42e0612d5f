//! The data of a term of the knowledge base: its name and description, its
//! arguments, the terms that refer to it, its facts and its rules.
use vstd::prelude::*;

verus! {

/// A name with a description.
#[derive(Clone, PartialEq, Eq, Debug)]
pub struct NameDescription {
    pub name: String,
    pub desc: String,
}

/// The values bound to the arguments of a term, in argument order.
#[derive(Clone, PartialEq, Eq, Debug)]
pub struct ArgsBinding {
    pub binding: Vec<String>,
}

/// A term mentioned in the body of a rule, with its arguments' bindings.
#[derive(Clone, PartialEq, Eq, Debug)]
pub struct BoundTerm {
    pub name: String,
    pub arg_bindings: ArgsBinding,
}

/// A rule: its head's bindings hold if every term of the body holds.
#[derive(Clone, PartialEq, Eq, Debug)]
pub struct Rule {
    pub arg_bindings: ArgsBinding,
    pub body: Vec<BoundTerm>,
}

/// The facts and rules of a term.
#[derive(Clone, PartialEq, Eq, Debug)]
pub struct Term {
    pub facts: Vec<ArgsBinding>,
    pub rules: Vec<Rule>,
}

/// What describes a term: its name and description, its arguments and the
/// names of the terms whose rules mention it.
#[derive(Clone, PartialEq, Eq, Debug)]
pub struct Comment {
    pub term: NameDescription,
    pub args: Vec<NameDescription>,
    pub referred_by: Vec<String>,
}

/// A term together with its description.
#[derive(Clone, PartialEq, Eq, Debug)]
pub struct FatTerm {
    pub meta: Comment,
    pub term: Term,
}

/// The mathematical value of a [`BoundTerm`].
pub struct BoundTermView {
    pub name: Seq<char>,
    pub args: Seq<Seq<char>>,
}

/// The mathematical value of a [`Rule`].
pub struct RuleView {
    pub head: Seq<Seq<char>>,
    pub body: Seq<BoundTermView>,
}

/// The mathematical value of a [`FatTerm`].
pub struct FatTermView {
    pub name: Seq<char>,
    pub desc: Seq<char>,
    pub args: Seq<(Seq<char>, Seq<char>)>,
    pub referred_by: Seq<Seq<char>>,
    pub facts: Seq<Seq<Seq<char>>>,
    pub rules: Seq<RuleView>,
}

/// The views of a sequence of strings.
pub open spec fn strings_view(v: Seq<String>) -> Seq<Seq<char>> {
    v.map_values(|s: String| s@)
}

impl View for NameDescription {
    type V = (Seq<char>, Seq<char>);

    open spec fn view(&self) -> (Seq<char>, Seq<char>) {
        (self.name@, self.desc@)
    }
}

impl View for ArgsBinding {
    type V = Seq<Seq<char>>;

    open spec fn view(&self) -> Seq<Seq<char>> {
        strings_view(self.binding@)
    }
}

impl View for BoundTerm {
    type V = BoundTermView;

    open spec fn view(&self) -> BoundTermView {
        BoundTermView { name: self.name@, args: self.arg_bindings@ }
    }
}

impl View for Rule {
    type V = RuleView;

    open spec fn view(&self) -> RuleView {
        RuleView { head: self.arg_bindings@, body: self.body@.map_values(|b: BoundTerm| b@) }
    }
}

impl View for FatTerm {
    type V = FatTermView;

    open spec fn view(&self) -> FatTermView {
        FatTermView {
            name: self.meta.term.name@,
            desc: self.meta.term.desc@,
            args: self.meta.args@.map_values(|a: NameDescription| a@),
            referred_by: strings_view(self.meta.referred_by@),
            facts: self.term.facts@.map_values(|f: ArgsBinding| f@),
            rules: self.term.rules@.map_values(|r: Rule| r@),
        }
    }
}

/// The names that refer to a term after `name` was added: it is appended
/// unless it is there already.
pub open spec fn with_referrer(referred_by: Seq<Seq<char>>, name: Seq<char>) -> Seq<Seq<char>> {
    if referred_by.contains(name) {
        referred_by
    } else {
        referred_by.push(name)
    }
}

/// The names that refer to a term after every occurrence of `name` was removed.
pub open spec fn without_referrer(referred_by: Seq<Seq<char>>, name: Seq<char>) -> Seq<
    Seq<char>,
> {
    referred_by.filter(|r: Seq<char>| r != name)
}

/// The names that refer to a term after every occurrence of `old_name` was
/// replaced by `new_name`.
pub open spec fn renamed_referrer(
    referred_by: Seq<Seq<char>>,
    old_name: Seq<char>,
    new_name: Seq<char>,
) -> Seq<Seq<char>> {
    referred_by.map_values(|r: Seq<char>| if r == old_name { new_name } else { r })
}

/// One step of a filter computed along a sequence.
pub proof fn lemma_filter_take_step<A>(s: Seq<A>, pred: spec_fn(A) -> bool, i: int)
    requires
        0 <= i < s.len(),
    ensures
        s.take(i + 1).filter(pred) == if pred(s[i]) {
            s.take(i).filter(pred).push(s[i])
        } else {
            s.take(i).filter(pred)
        },
{
    reveal(Seq::filter);
    assert(s.take(i + 1).drop_last() =~= s.take(i));
}

/// Copies a sequence of strings.
pub fn copy_strings(v: &Vec<String>) -> (res: Vec<String>)
    ensures
        res@ == v@,
{
    let mut res: Vec<String> = Vec::new();
    let mut i: usize = 0;
    while i < v.len()
        invariant
            i <= v@.len(),
            res@ == v@.take(i as int),
        decreases v@.len() - i,
    {
        res.push(v[i].clone());
        i = i + 1;
        assert(res@ =~= v@.take(i as int));
    }
    assert(res@ =~= v@);
    res
}

/// Whether `v` holds a string equal to `s`.
pub fn contains_string(v: &Vec<String>, s: &String) -> (res: bool)
    ensures
        res == strings_view(v@).contains(s@),
{
    let mut i: usize = 0;
    while i < v.len()
        invariant
            i <= v@.len(),
            forall|j: int| 0 <= j < i ==> v@[j]@ != s@,
        decreases v@.len() - i,
    {
        if v[i] == *s {
            assert(strings_view(v@)[i as int] == s@);
            return true;
        }
        i = i + 1;
    }
    assert forall|j: int| 0 <= j < strings_view(v@).len() implies strings_view(v@)[j] != s@ by {
        assert(strings_view(v@)[j] == v@[j]@);
    }
    false
}

impl NameDescription {
    /// A name with a description.
    pub fn new(name: &str, desc: &str) -> (res: Self)
        ensures
            res.name@ == name@,
            res.desc@ == desc@,
    {
        Self { name: name.to_owned(), desc: desc.to_owned() }
    }

    /// A copy of this name and description.
    pub fn copy(&self) -> (res: Self)
        ensures
            res@ == self@,
    {
        Self { name: self.name.clone(), desc: self.desc.clone() }
    }
}

impl ArgsBinding {
    /// A binding of the given values.
    pub fn new(binding: &Vec<String>) -> (res: Self)
        ensures
            res.binding@ == binding@,
    {
        Self { binding: copy_strings(binding) }
    }

    /// A copy of this binding.
    pub fn copy(&self) -> (res: Self)
        ensures
            res@ == self@,
    {
        Self { binding: copy_strings(&self.binding) }
    }
}

impl BoundTerm {
    /// A mention of the term `name` with the given bindings.
    pub fn new(name: &str, arg_bindings: ArgsBinding) -> (res: Self)
        ensures
            res.name@ == name@,
            res.arg_bindings == arg_bindings,
    {
        Self { name: name.to_owned(), arg_bindings }
    }

    /// A copy of this mention.
    pub fn copy(&self) -> (res: Self)
        ensures
            res@ == self@,
    {
        Self { name: self.name.clone(), arg_bindings: self.arg_bindings.copy() }
    }
}

impl Rule {
    /// A copy of this rule.
    pub fn copy(&self) -> (res: Self)
        ensures
            res@ == self@,
    {
        let mut body: Vec<BoundTerm> = Vec::new();
        let mut i: usize = 0;
        while i < self.body.len()
            invariant
                i <= self.body@.len(),
                body@.len() == i,
                forall|j: int| 0 <= j < i ==> #[trigger] body@[j]@ == self.body@[j]@,
            decreases self.body@.len() - i,
        {
            body.push(self.body[i].copy());
            i = i + 1;
        }
        assert(body@.map_values(|b: BoundTerm| b@) =~= self.body@.map_values(|b: BoundTerm| b@));
        Self { arg_bindings: self.arg_bindings.copy(), body }
    }
}

impl Term {
    /// A term with the given facts and rules.
    pub fn new(facts: Vec<ArgsBinding>, rules: Vec<Rule>) -> (res: Self)
        ensures
            res.facts == facts,
            res.rules == rules,
    {
        Self { facts, rules }
    }
}

impl Comment {
    /// A description of a term.
    pub fn new(term: NameDescription, args: Vec<NameDescription>, referred_by: Vec<String>) -> (res:
        Self)
        ensures
            res.term == term,
            res.args == args,
            res.referred_by == referred_by,
    {
        Self { term, args, referred_by }
    }
}

impl FatTerm {
    /// A term with its description.
    pub fn new(meta: Comment, term: Term) -> (res: Self)
        ensures
            res.meta == meta,
            res.term == term,
    {
        Self { meta, term }
    }

    /// A copy of this term.
    pub fn copy(&self) -> (res: Self)
        ensures
            res@ == self@,
    {
        let mut args: Vec<NameDescription> = Vec::new();
        let mut i: usize = 0;
        while i < self.meta.args.len()
            invariant
                i <= self.meta.args@.len(),
                args@.len() == i,
                forall|j: int| 0 <= j < i ==> #[trigger] args@[j]@ == self.meta.args@[j]@,
            decreases self.meta.args@.len() - i,
        {
            args.push(self.meta.args[i].copy());
            i = i + 1;
        }
        assert(args@.map_values(|a: NameDescription| a@) =~= self.meta.args@.map_values(|a: NameDescription| a@));
        let mut facts: Vec<ArgsBinding> = Vec::new();
        let mut i: usize = 0;
        while i < self.term.facts.len()
            invariant
                i <= self.term.facts@.len(),
                facts@.len() == i,
                forall|j: int| 0 <= j < i ==> #[trigger] facts@[j]@ == self.term.facts@[j]@,
            decreases self.term.facts@.len() - i,
        {
            facts.push(self.term.facts[i].copy());
            i = i + 1;
        }
        assert(facts@.map_values(|f: ArgsBinding| f@) =~= self.term.facts@.map_values(|f: ArgsBinding| f@));
        let mut rules: Vec<Rule> = Vec::new();
        let mut i: usize = 0;
        while i < self.term.rules.len()
            invariant
                i <= self.term.rules@.len(),
                rules@.len() == i,
                forall|j: int| 0 <= j < i ==> #[trigger] rules@[j]@ == self.term.rules@[j]@,
            decreases self.term.rules@.len() - i,
        {
            rules.push(self.term.rules[i].copy());
            i = i + 1;
        }
        assert(rules@.map_values(|r: Rule| r@) =~= self.term.rules@.map_values(|r: Rule| r@));
        Self {
            meta: Comment {
                term: self.meta.term.copy(),
                args,
                referred_by: copy_strings(&self.meta.referred_by),
            },
            term: Term { facts, rules },
        }
    }

    /// Records that the term `name` refers to this term, unless it is
    /// recorded already.
    pub fn add_referred_by(&mut self, name: &String)
        ensures
            final(self)@ == (FatTermView {
                referred_by: with_referrer(old(self)@.referred_by, name@),
                ..old(self)@
            }),
    {
        if !contains_string(&self.meta.referred_by, name) {
            self.meta.referred_by.push(name.clone());
            assert(strings_view(self.meta.referred_by@) =~= strings_view(
                old(self).meta.referred_by@,
            ).push(name@));
        }
    }

    /// Forgets every record that the term `name` refers to this term.
    pub fn remove_referred_by(&mut self, name: &String)
        ensures
            final(self)@ == (FatTermView {
                referred_by: without_referrer(old(self)@.referred_by, name@),
                ..old(self)@
            }),
    {
        let ghost old_view = strings_view(self.meta.referred_by@);
        let ghost pred = |r: Seq<char>| r != name@;
        let mut kept: Vec<String> = Vec::new();
        let mut i: usize = 0;
        while i < self.meta.referred_by.len()
            invariant
                i <= self.meta.referred_by@.len(),
                old_view == strings_view(self.meta.referred_by@),
                self == old(self),
                pred == (|r: Seq<char>| r != name@),
                strings_view(kept@) == old_view.take(i as int).filter(pred),
            decreases self.meta.referred_by@.len() - i,
        {
            proof {
                lemma_filter_take_step(old_view, pred, i as int);
            }
            if self.meta.referred_by[i] != *name {
                kept.push(self.meta.referred_by[i].clone());
            }
            i = i + 1;
            assert(strings_view(kept@) =~= old_view.take(i as int).filter(pred));
        }
        assert(old_view.take(i as int) =~= old_view);
        self.meta.referred_by = kept;
    }

    /// Replaces every record that the term `old_name` refers to this term by
    /// one for `new_name`.
    pub fn rename_referred_by(&mut self, old_name: &String, new_name: &String)
        ensures
            final(self)@ == (FatTermView {
                referred_by: renamed_referrer(old(self)@.referred_by, old_name@, new_name@),
                ..old(self)@
            }),
    {
        let mut i: usize = 0;
        while i < self.meta.referred_by.len()
            invariant
                i <= self.meta.referred_by@.len(),
                self.meta.referred_by@.len() == old(self).meta.referred_by@.len(),
                self.meta.term == old(self).meta.term,
                self.meta.args == old(self).meta.args,
                self.term == old(self).term,
                forall|j: int|
                    0 <= j < i ==> #[trigger] self.meta.referred_by@[j]@ == if old(
                        self,
                    ).meta.referred_by@[j]@ == old_name@ {
                        new_name@
                    } else {
                        old(self).meta.referred_by@[j]@
                    },
                forall|j: int|
                    i <= j < self.meta.referred_by@.len() ==> #[trigger] self.meta.referred_by@[j]
                        == old(self).meta.referred_by@[j],
            decreases self.meta.referred_by@.len() - i,
        {
            if self.meta.referred_by[i] == *old_name {
                self.meta.referred_by[i] = new_name.clone();
            }
            i = i + 1;
        }
        assert(strings_view(self.meta.referred_by@) =~= renamed_referrer(
            old(self)@.referred_by,
            old_name@,
            new_name@,
        ));
    }
}

} // verus!
