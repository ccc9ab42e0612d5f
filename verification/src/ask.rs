//! Asking the knowledge base about a term: the query built from the term's
//! arguments and their anchors, and the table of answers.
use vstd::prelude::*;
use vstd::string::*;
use crate::model::{strings_view, ArgsBinding, BoundTerm, BoundTermView, NameDescription};

verus! {

/// The answers to a query, one row per answer.
pub struct Table {
    content: Vec<Vec<String>>,
}

impl View for Table {
    type V = Seq<Seq<Seq<char>>>;

    closed spec fn view(&self) -> Seq<Seq<Seq<char>>> {
        self.content@.map_values(|row: Vec<String>| strings_view(row@))
    }
}

impl Table {
    /// Replaces the answers.
    pub fn set_content(&mut self, content: Vec<Vec<String>>)
        ensures
            final(self)@ == content@.map_values(|row: Vec<String>| strings_view(row@)),
    {
        self.content = content;
    }

    /// A table with no answers.
    pub fn new() -> (res: Self)
        ensures
            res@ == Seq::<Seq<Seq<char>>>::empty(),
    {
        let res = Self { content: Vec::new() };
        assert(res@ =~= Seq::<Seq<Seq<char>>>::empty());
        res
    }

    /// The answers, one row per answer.
    pub fn content(&self) -> (res: &Vec<Vec<String>>)
        ensures
            res@.map_values(|row: Vec<String>| strings_view(row@)) == self@,
    {
        &self.content
    }
}

/// A query about a term under construction: the term, and for each of its
/// arguments, the value it is anchored to, if any.
pub struct Ask {
    term_name: String,
    anchors: Vec<Option<String>>,
    args_initial: Vec<NameDescription>,
    results: Table,
}

/// The mathematical value of an [`Ask`].
pub struct AskView {
    pub term_name: Seq<char>,
    pub anchors: Seq<Option<Seq<char>>>,
    pub args: Seq<(Seq<char>, Seq<char>)>,
    pub results: Seq<Seq<Seq<char>>>,
}

/// The view of an optional string.
pub open spec fn anchor_view(a: Option<String>) -> Option<Seq<char>> {
    match a {
        Some(s) => Some(s@),
        None => None,
    }
}

/// The views of a sequence of optional strings.
pub open spec fn anchors_view(anchors: Seq<Option<String>>) -> Seq<Option<Seq<char>>> {
    anchors.map_values(|a: Option<String>| anchor_view(a))
}

impl View for Ask {
    type V = AskView;

    closed spec fn view(&self) -> AskView {
        AskView {
            term_name: self.term_name@,
            anchors: anchors_view(self.anchors@),
            args: self.args_initial@.map_values(|a: NameDescription| a@),
            results: self.results@,
        }
    }
}

/// The values asked for: each argument's anchor where it has one, else the
/// argument's name.
pub open spec fn request(
    anchors: Seq<Option<Seq<char>>>,
    args: Seq<(Seq<char>, Seq<char>)>,
) -> Seq<Seq<char>> {
    Seq::new(
        if anchors.len() <= args.len() {
            anchors.len()
        } else {
            args.len()
        },
        |i: int|
            match anchors[i] {
                Some(anchor) => anchor,
                None => args[i].0,
            },
    )
}

/// Copies optional strings.
fn copy_anchors(anchors: &Vec<Option<String>>) -> (res: Vec<Option<String>>)
    ensures
        anchors_view(res@) == anchors_view(anchors@),
{
    let mut res: Vec<Option<String>> = Vec::new();
    let mut i: usize = 0;
    while i < anchors.len()
        invariant
            i <= anchors@.len(),
            res@.len() == i,
            forall|j: int| 0 <= j < i ==> anchor_view(#[trigger] res@[j]) == anchor_view(anchors@[j]),
        decreases anchors@.len() - i,
    {
        let a = match &anchors[i] {
            Some(s) => Some(s.clone()),
            None => None,
        };
        res.push(a);
        i = i + 1;
    }
    assert(anchors_view(res@) =~= anchors_view(anchors@));
    res
}

impl Ask {
    /// A query about no term yet.
    pub fn new() -> (res: Self)
        ensures
            res@.term_name == Seq::<char>::empty(),
            res@.anchors == Seq::<Option<Seq<char>>>::empty(),
            res@.args == Seq::<(Seq<char>, Seq<char>)>::empty(),
            res@.results == Seq::<Seq<Seq<char>>>::empty(),
    {
        let res = Self {
            term_name: String::new(),
            anchors: Vec::new(),
            args_initial: Vec::new(),
            results: Table::new(),
        };
        assert(res@.anchors =~= Seq::<Option<Seq<char>>>::empty());
        assert(res@.args =~= Seq::<(Seq<char>, Seq<char>)>::empty());
        res
    }

    /// The anchors of the arguments.
    pub fn extract_anchors(&self) -> (res: Vec<Option<String>>)
        ensures
            anchors_view(res@) == self@.anchors,
    {
        copy_anchors(&self.anchors)
    }

    /// The values asked for: each argument's anchor where it has one, else
    /// the argument's name.
    pub fn extract_request(&self) -> (res: Vec<String>)
        ensures
            strings_view(res@) == request(self@.anchors, self@.args),
    {
        let mut res: Vec<String> = Vec::new();
        let mut i: usize = 0;
        while i < self.anchors.len() && i < self.args_initial.len()
            invariant
                i <= self.anchors@.len(),
                i <= self.args_initial@.len(),
                strings_view(res@) == request(self@.anchors, self@.args).take(i as int),
            decreases self.anchors@.len() - i,
        {
            let value = match &self.anchors[i] {
                Some(anchor) => anchor.clone(),
                None => self.args_initial[i].name.clone(),
            };
            assert(anchor_view(self.anchors@[i as int]) == self@.anchors[i as int]);
            assert(self@.args[i as int] == self.args_initial@[i as int]@);
            assert(value@ == request(self@.anchors, self@.args)[i as int]);
            let ghost before = res@;
            res.push(value);
            assert(strings_view(res@) =~= strings_view(before).push(value@));
            i = i + 1;
            assert(strings_view(res@) =~= request(self@.anchors, self@.args).take(i as int));
        }
        assert(request(self@.anchors, self@.args).take(i as int) =~= request(self@.anchors, self@.args));
        res
    }

    /// Starts a query about the term `term_name` with the given arguments,
    /// none of them anchored, and no answers.
    pub fn select_term(&mut self, term_name: &String, args: Vec<NameDescription>)
        ensures
            final(self)@.term_name == term_name@,
            final(self)@.args == args@.map_values(|a: NameDescription| a@),
            final(self)@.anchors == Seq::new(args@.len(), |i: int| None::<Seq<char>>),
            final(self)@.results == Seq::<Seq<Seq<char>>>::empty(),
    {
        let mut anchors: Vec<Option<String>> = Vec::new();
        let mut i: usize = 0;
        while i < args.len()
            invariant
                i <= args@.len(),
                anchors@.len() == i,
                forall|j: int| 0 <= j < i ==> #[trigger] anchors@[j] is None,
            decreases args@.len() - i,
        {
            anchors.push(None);
            i = i + 1;
        }
        self.term_name = term_name.clone();
        self.args_initial = args;
        self.anchors = anchors;
        // reset any results from before
        self.results = Table::new();
        assert(self@.anchors =~= Seq::new(self.args_initial@.len(), |i: int| None::<Seq<char>>));
    }

    /// Anchors the argument at `idx` to a value, or frees it.
    pub fn set_anchor(&mut self, idx: usize, anchor: Option<String>)
        requires
            idx < old(self)@.anchors.len(),
        ensures
            final(self)@ == (AskView {
                anchors: old(self)@.anchors.update(idx as int, anchor_view(anchor)),
                ..old(self)@
            }),
    {
        self.anchors.set(idx, anchor);
        assert(self@.anchors =~= old(self)@.anchors.update(idx as int, anchor_view(anchor)));
    }
}

/// The name after `current` in the sequence `A`, `B`, ..., `Z`, `ZA`, ...:
/// a last character before `Z` is replaced by the next one, else `A` is
/// appended.
pub open spec fn next_var_name(current: Seq<char>) -> Seq<char> {
    let last = current.last();
    if (last as u32) < ('Z' as u32) {
        current.drop_last().push(((last as u32) + 1) as char)
    } else {
        current.push('A')
    }
}

/// Whether a name can be handed to [`get_next_random_var_name`]: it is not
/// empty and ends with an ASCII character.
pub open spec fn var_name_continues(current: Seq<char>) -> bool {
    current.len() > 0 && (current.last() as u32) < 128
}

/// Appends a character to a string.
///
/// Trusted: calls `String::push` of std, which appends the character; the
/// contract says that the string's characters become the old ones followed
/// by `c`.
#[verifier::external_body]
pub(crate) fn push_char(s: &mut String, c: char)
    ensures
        final(s)@ == old(s)@.push(c),
{
    s.push(c);
}

/// The name after `current` in the sequence `A`, `B`, ..., `Z`, `ZA`, ...
pub fn get_next_random_var_name(current: &str) -> (res: String)
    requires
        var_name_continues(current@),
    ensures
        res@ == next_var_name(current@),
{
    let len = current.unicode_len();
    let last_char = current.get_char(len - 1);
    if (last_char as u32) < ('Z' as u32) {
        let left = current.substring_char(0, len - 1);
        let mut result = left.to_owned();
        let code: u32 = last_char as u32;
        let byte: u8 = last_char as u8;
        assert(byte as u32 == code) by (bit_vector)
            requires
                code < 90,
                byte == code as u8;
        let next = (byte + 1) as char;
        push_char(&mut result, next);
        assert(current@.subrange(0, len - 1) =~= current@.drop_last());
        return result;
    }
    let mut result = current.to_owned();
    push_char(&mut result, 'A');
    result
}

/// Whether the character has the Unicode property `Lowercase`.
pub uninterp spec fn lowercase(c: char) -> bool;

/// Whether the character is lowercase.
///
/// Trusted: calls `char::is_lowercase` of std, which tells whether the
/// character has the Unicode property `Lowercase`. The contract names that
/// property and states only that among ASCII characters it holds exactly of
/// `a` to `z`; which other characters have it is left unsaid.
#[verifier::external_body]
fn is_lowercase(c: char) -> (res: bool)
    ensures
        res == lowercase(c),
        (c as u32) < 128 ==> (res <==> ('a' as u32) <= (c as u32) <= ('z' as u32)),
{
    c.is_lowercase()
}

/// The name given to the `n`-th free argument of a query: `@` before the
/// first, then `A`, `B`, ..., `Z`, `ZA`, ...
pub open spec fn nth_var_name(n: nat) -> Seq<char>
    decreases n,
{
    if n == 0 {
        seq!['@']
    } else {
        next_var_name(nth_var_name((n - 1) as nat))
    }
}

/// Every name of the sequence can be continued.
pub proof fn lemma_nth_var_name_continues(n: nat)
    ensures
        var_name_continues(nth_var_name(n)),
        (nth_var_name(n).last() as u32) <= ('Z' as u32),
    decreases n,
{
    if n > 0 {
        lemma_nth_var_name_continues((n - 1) as nat);
        let prev = nth_var_name((n - 1) as nat);
        let last = prev.last();
        if (last as u32) < ('Z' as u32) {
            assert(((((last as u32) + 1) as char) as u32) == (last as u32) + 1);
        }
    }
}

/// The shape of every name after `@`: all its characters but the last are
/// `Z`, the last is one of `A` to `Z`, and the length and the last character
/// count the names before it.
pub proof fn lemma_nth_var_name_shape(n: nat)
    requires
        n >= 1,
    ensures
        nth_var_name(n).len() >= 1,
        forall|k: int| 0 <= k < nth_var_name(n).len() - 1 ==> nth_var_name(n)[k] == 'Z',
        ('A' as u32) <= (nth_var_name(n).last() as u32) <= ('Z' as u32),
        26 * (nth_var_name(n).len() - 1) + (nth_var_name(n).last() as u32) - ('A' as u32) == n - 1,
    decreases n,
{
    if n == 1 {
        assert(nth_var_name(0) == seq!['@']);
        assert(((('@' as u32) + 1) as char) == 'A');
        assert(nth_var_name(1) =~= seq!['A']);
    } else {
        lemma_nth_var_name_shape((n - 1) as nat);
        let prev = nth_var_name((n - 1) as nat);
        let last = prev.last();
        if (last as u32) < ('Z' as u32) {
            assert(((((last as u32) + 1) as char) as u32) == (last as u32) + 1);
            let cur = nth_var_name(n);
            assert(cur == prev.drop_last().push(((last as u32) + 1) as char));
            assert forall|k: int| 0 <= k < cur.len() - 1 implies cur[k] == 'Z' by {
                assert(cur[k] == prev[k]);
            }
        } else {
            let cur = nth_var_name(n);
            assert(cur == prev.push('A'));
            assert forall|k: int| 0 <= k < cur.len() - 1 implies cur[k] == 'Z' by {
                assert(cur[k] == prev[k]);
            }
        }
    }
}

/// Distinct positions after `@` give distinct names.
pub proof fn lemma_nth_var_name_injective(n: nat, m: nat)
    requires
        n >= 1,
        m >= 1,
        n != m,
    ensures
        nth_var_name(n) != nth_var_name(m),
{
    lemma_nth_var_name_shape(n);
    lemma_nth_var_name_shape(m);
}

/// Every name after `@` starts with one of `A` to `Z`.
pub proof fn lemma_nth_var_name_starts_uppercase(n: nat)
    requires
        n >= 1,
    ensures
        ('A' as u32) <= (nth_var_name(n)[0] as u32) <= ('Z' as u32),
{
    lemma_nth_var_name_shape(n);
    if nth_var_name(n).len() > 1 {
        assert(nth_var_name(n)[0] == 'Z');
    }
}

/// The number of free arguments among the anchors.
pub open spec fn free_count(anchors: Seq<Option<Seq<char>>>) -> nat
    decreases anchors.len(),
{
    if anchors.len() == 0 {
        0
    } else {
        free_count(anchors.drop_last()) + if anchors.last() is None {
            1nat
        } else {
            0nat
        }
    }
}

/// The arguments of a query: an anchored argument is bound to its anchor,
/// the `k`-th free argument to the `k`-th name of `A`, `B`, ..., `Z`, `ZA`, ...
pub open spec fn query_args(anchors: Seq<Option<Seq<char>>>) -> Seq<Seq<char>> {
    Seq::new(
        anchors.len(),
        |i: int|
            match anchors[i] {
                Some(anchor) => anchor,
                None => nth_var_name(free_count(anchors.take(i + 1))),
            },
    )
}

/// Counting the free arguments one position further.
pub proof fn lemma_free_count_step(anchors: Seq<Option<Seq<char>>>, i: int)
    requires
        0 <= i < anchors.len(),
    ensures
        free_count(anchors.take(i + 1)) == free_count(anchors.take(i)) + if anchors[i] is None {
            1nat
        } else {
            0nat
        },
{
    assert(anchors.take(i + 1).drop_last() =~= anchors.take(i));
}

/// The free arguments of a prefix are at most those of a longer prefix.
pub proof fn lemma_free_count_monotone(anchors: Seq<Option<Seq<char>>>, a: int, b: int)
    requires
        0 <= a <= b <= anchors.len(),
    ensures
        free_count(anchors.take(a)) <= free_count(anchors.take(b)),
    decreases b - a,
{
    if a < b {
        lemma_free_count_monotone(anchors, a, b - 1);
        lemma_free_count_step(anchors, b - 1);
    }
}

/// Whether the names given to the free arguments are pairwise distinct and
/// differ from every anchor.
pub open spec fn free_names_fresh(anchors: Seq<Option<Seq<char>>>) -> bool {
    &&& forall|i: int, j: int|
        0 <= i < j < anchors.len() && anchors[i] is None && anchors[j] is None
            ==> #[trigger] query_args(anchors)[i] != #[trigger] query_args(anchors)[j]
    &&& forall|i: int, j: int|
        0 <= i < anchors.len() && 0 <= j < anchors.len() && anchors[i] is None && (#[trigger] anchors[j]) is Some
            ==> #[trigger] query_args(anchors)[i] != anchors[j]->0
}

/// The names given to the free arguments are pairwise distinct, and differ
/// from every anchor that does not start with one of `A` to `Z`.
pub proof fn lemma_free_names_fresh(anchors: Seq<Option<Seq<char>>>)
    requires
        forall|j: int|
            0 <= j < anchors.len() && (#[trigger] anchors[j]) is Some ==> anchors[j]->0.len() > 0 && !(
            ('A' as u32) <= (anchors[j]->0[0] as u32) <= ('Z' as u32)),
    ensures
        free_names_fresh(anchors),
{
    let q = query_args(anchors);
    assert forall|i: int| 0 <= i < anchors.len() && anchors[i] is None implies
        q[i] == nth_var_name(free_count(anchors.take(i + 1))) && free_count(anchors.take(i + 1)) >= 1 by {
        lemma_free_count_step(anchors, i);
    }
    assert forall|i: int, j: int|
        0 <= i < j < anchors.len() && anchors[i] is None && anchors[j] is None implies #[trigger] q[i]
        != #[trigger] q[j] by {
        lemma_free_count_monotone(anchors, i + 1, j);
        lemma_free_count_step(anchors, j);
        lemma_nth_var_name_injective(
            free_count(anchors.take(i + 1)),
            free_count(anchors.take(j + 1)),
        );
    }
    assert forall|i: int, j: int|
        0 <= i < anchors.len() && 0 <= j < anchors.len() && anchors[i] is None && (#[trigger] anchors[j]) is Some
        implies #[trigger] q[i] != anchors[j]->0 by {
        lemma_nth_var_name_starts_uppercase(free_count(anchors.take(i + 1)));
    }
}

/// Whether every anchor starts with an ASCII character.
pub open spec fn anchors_start_ascii(anchors: Seq<Option<Seq<char>>>) -> bool {
    forall|i: int| 0 <= i < anchors.len() && (#[trigger] anchors[i]) is Some ==> (anchors[i]->0[0] as u32) < 128
}

/// Whether every anchor starts with one of `a` to `z`.
pub open spec fn anchors_start_ascii_lowercase(anchors: Seq<Option<Seq<char>>>) -> bool {
    forall|i: int|
        0 <= i < anchors.len() && (#[trigger] anchors[i]) is Some ==> ('a' as u32) <= (anchors[i]->0[0] as u32)
            <= ('z' as u32)
}

/// Whether every anchor starts with a lowercase character, so that it is not
/// taken for a variable.
pub open spec fn anchors_are_constants(anchors: Seq<Option<Seq<char>>>) -> bool {
    forall|i: int| 0 <= i < anchors.len() && (#[trigger] anchors[i]) is Some ==> lowercase(anchors[i]->0[0])
}

/// Builds the query about the term `term_name` with the given anchors; it
/// fails when an anchor would be taken for a variable.
pub fn build_bound_term(term_name: &str, anchors: &Vec<Option<String>>) -> (res: Result<
    BoundTerm,
    String,
>)
    requires
        forall|i: int| 0 <= i < anchors@.len() && (#[trigger] anchors@[i]) is Some ==> anchors@[i]->0@.len() > 0,
    ensures
        res is Ok <==> anchors_are_constants(anchors_view(anchors@)),
        anchors_start_ascii(anchors_view(anchors@)) ==> (res is Ok <==> anchors_start_ascii_lowercase(
            anchors_view(anchors@),
        )),
        res is Ok ==> free_names_fresh(anchors_view(anchors@)),
        res matches Ok(bound) ==> bound@ == (BoundTermView {
            name: term_name@,
            args: query_args(anchors_view(anchors@)),
        }),
{
    let ghost av = anchors_view(anchors@);
    let mut i: usize = 0;
    while i < anchors.len()
        invariant
            i <= anchors@.len(),
            av == anchors_view(anchors@),
            forall|j: int| 0 <= j < anchors@.len() && (#[trigger] anchors@[j]) is Some ==> anchors@[j]->0@.len() > 0,
            forall|j: int| 0 <= j < i && (#[trigger] av[j]) is Some ==> lowercase(av[j]->0[0]),
            forall|j: int|
                0 <= j < i && (#[trigger] av[j]) is Some ==> ((av[j]->0[0] as u32) < 128 ==> ('a' as u32)
                    <= (av[j]->0[0] as u32) <= ('z' as u32)),
        decreases anchors@.len() - i,
    {
        if let Some(anchor) = &anchors[i] {
            let first = anchor.as_str().get_char(0);
            assert(av[i as int] == Some(anchor@));
            if !is_lowercase(first) {
                return Err("there are anchors that would be interpreted as Prolog variables".to_owned());
            }
        }
        i = i + 1;
    }
    proof {
        assert forall|j: int| 0 <= j < av.len() && (#[trigger] av[j]) is Some implies av[j]->0.len() > 0
            && !(('A' as u32) <= (av[j]->0[0] as u32) <= ('Z' as u32)) by {
            assert(av[j] == anchor_view(anchors@[j]));
        }
        lemma_free_names_fresh(av);
    }
    let mut current_var_name = "@".to_owned();
    proof {
        reveal_strlit("@");
        assert(current_var_name@ =~= nth_var_name(0));
    }
    let ghost mut free: nat = 0;
    let mut term_args: Vec<String> = Vec::new();
    let mut k: usize = 0;
    while k < anchors.len()
        invariant
            k <= anchors@.len(),
            av == anchors_view(anchors@),
            free == free_count(av.take(k as int)),
            current_var_name@ == nth_var_name(free),
            strings_view(term_args@) == query_args(av).take(k as int),
        decreases anchors@.len() - k,
    {
        assert(av.take(k + 1).drop_last() =~= av.take(k as int));
        assert(av.take(k + 1).last() == av[k as int]);
        assert(av[k as int] == anchor_view(anchors@[k as int]));
        let ghost before = term_args@;
        match &anchors[k] {
            None => {
                proof {
                    lemma_nth_var_name_continues(free);
                }
                current_var_name = get_next_random_var_name(current_var_name.as_str());
                proof {
                    free = free + 1;
                }
                term_args.push(current_var_name.clone());
            },
            Some(anchor) => {
                term_args.push(anchor.clone());
            },
        }
        assert(free == free_count(av.take(k + 1)));
        assert(term_args@.last()@ == query_args(av)[k as int]);
        assert(strings_view(term_args@) =~= strings_view(before).push(term_args@.last()@));
        k = k + 1;
        assert(strings_view(term_args@) =~= query_args(av).take(k as int));
    }
    assert(query_args(av).take(k as int) =~= query_args(av));
    Ok(BoundTerm::new(term_name, ArgsBinding::new(&term_args)))
}


/// The mathematical value of one solution of a query: the values it gives
/// to the query's variables.
pub open spec fn solution_view(solution: Seq<(String, String)>) -> Seq<(Seq<char>, Seq<char>)> {
    solution.map_values(|p: (String, String)| (p.0@, p.1@))
}

/// The value a solution gives to `x`: the value of the first binding of `x`,
/// or `x` itself when the solution does not bind it.
pub open spec fn solution_value(solution: Seq<(Seq<char>, Seq<char>)>, x: Seq<char>) -> Seq<char>
    decreases solution.len(),
{
    if solution.len() == 0 {
        x
    } else if solution[0].0 == x {
        solution[0].1
    } else {
        solution_value(solution.drop_first(), x)
    }
}

/// The row of answers a solution gives: each value asked for, with the
/// variables replaced by what the solution binds them to.
pub open spec fn answer_row(args: Seq<Seq<char>>, solution: Seq<(Seq<char>, Seq<char>)>) -> Seq<
    Seq<char>,
> {
    args.map_values(|x: Seq<char>| solution_value(solution, x))
}

/// The value `solution` gives to `x`.
fn value_in(solution: &Vec<(String, String)>, x: &String) -> (res: String)
    ensures
        res@ == solution_value(solution_view(solution@), x@),
{
    let ghost sv = solution_view(solution@);
    assert(sv.skip(0) =~= sv);
    let mut i: usize = 0;
    while i < solution.len()
        invariant
            i <= solution@.len(),
            sv == solution_view(solution@),
            solution_value(sv, x@) == solution_value(sv.skip(i as int), x@),
        decreases solution@.len() - i,
    {
        let ghost rest = sv.skip(i as int);
        assert(rest[0] == (solution@[i as int].0@, solution@[i as int].1@));
        assert(rest.drop_first() =~= sv.skip(i + 1));
        if solution[i].0 == *x {
            return solution[i].1.clone();
        }
        i = i + 1;
    }
    assert(sv.skip(i as int).len() == 0);
    x.clone()
}

/// The rows of answers to the query `query`, one per solution.
pub fn answer_rows(query: &BoundTerm, solutions: &Vec<Vec<(String, String)>>) -> (res: Vec<
    Vec<String>,
>)
    ensures
        res@.len() == solutions@.len(),
        forall|i: int|
            0 <= i < res@.len() ==> strings_view(#[trigger] res@[i]@) == answer_row(
                query@.args,
                solution_view(solutions@[i]@),
            ),
{
    let binding = &query.arg_bindings.binding;
    let mut rows: Vec<Vec<String>> = Vec::new();
    let mut i: usize = 0;
    while i < solutions.len()
        invariant
            i <= solutions@.len(),
            binding == &query.arg_bindings.binding,
            rows@.len() == i,
            forall|k: int|
                0 <= k < i ==> strings_view(#[trigger] rows@[k]@) == answer_row(
                    query@.args,
                    solution_view(solutions@[k]@),
                ),
        decreases solutions@.len() - i,
    {
        let solution = &solutions[i];
        let mut row: Vec<String> = Vec::new();
        let mut j: usize = 0;
        while j < binding.len()
            invariant
                j <= binding@.len(),
                binding == &query.arg_bindings.binding,
                solution == &solutions@[i as int],
                strings_view(row@) == answer_row(query@.args, solution_view(solution@)).take(
                    j as int,
                ),
            decreases binding@.len() - j,
        {
            let value = value_in(solution, &binding[j]);
            let ghost before = row@;
            row.push(value);
            assert(strings_view(row@) =~= strings_view(before).push(value@));
            j = j + 1;
            assert(strings_view(row@) =~= answer_row(query@.args, solution_view(solution@)).take(
                j as int,
            ));
        }
        assert(answer_row(query@.args, solution_view(solution@)).take(j as int) =~= answer_row(
            query@.args,
            solution_view(solution@),
        ));
        rows.push(row);
        i = i + 1;
    }
    rows
}

impl Ask {
    /// The query about the selected term with the current anchors; it fails
    /// when an anchor would be taken for a variable.
    pub fn query(&self) -> (res: Result<BoundTerm, String>)
        requires
            forall|i: int|
                0 <= i < self@.anchors.len() && (#[trigger] self@.anchors[i]) is Some
                    ==> self@.anchors[i]->0.len() > 0,
        ensures
            res is Ok <==> anchors_are_constants(self@.anchors),
            anchors_start_ascii(self@.anchors) ==> (res is Ok <==> anchors_start_ascii_lowercase(
                self@.anchors,
            )),
            res is Ok ==> free_names_fresh(self@.anchors),
            res matches Ok(bound) ==> bound@ == (BoundTermView {
                name: self@.term_name,
                args: query_args(self@.anchors),
            }),
    {
        assert forall|i: int| 0 <= i < self.anchors@.len() && (#[trigger] self.anchors@[i]) is Some
            implies self.anchors@[i]->0@.len() > 0 by {
            assert(self@.anchors[i] == anchor_view(self.anchors@[i]));
        }
        build_bound_term(self.term_name.as_str(), &self.anchors)
    }

    /// Shows the answers that the solutions give to the query `query`.
    pub fn set_answers(&mut self, query: &BoundTerm, solutions: &Vec<Vec<(String, String)>>)
        ensures
            final(self)@ == (AskView {
                results: Seq::new(
                    solutions@.len(),
                    |i: int| answer_row(query@.args, solution_view(solutions@[i]@)),
                ),
                ..old(self)@
            }),
    {
        let rows = answer_rows(query, solutions);
        self.results.set_content(rows);
        assert(self@.results =~= Seq::new(
            solutions@.len(),
            |i: int| answer_row(query@.args, solution_view(solutions@[i]@)),
        ));
    }

    /// The answers shown.
    pub fn results(&self) -> (res: &Table)
        ensures
            res@ == self@.results,
    {
        &self.results
    }
}

} // verus!
