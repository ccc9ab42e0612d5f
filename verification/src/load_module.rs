//! Naming the local copy of a knowledge module that is loaded from a git
//! repository.
use vstd::prelude::*;

verus! {

/// The suffix of a repository's name that the local copy drops.
pub open spec fn git_suffix() -> Seq<char> {
    seq!['.', 'g', 'i', 't']
}

/// The position of the last `/` of `s`, or -1 if it holds none.
pub open spec fn last_slash(s: Seq<char>) -> int
    decreases s.len(),
{
    if s.len() == 0 {
        -1
    } else if s.last() == '/' {
        s.len() - 1
    } else {
        last_slash(s.drop_last())
    }
}

/// Whether `s` ends with `suffix`.
pub open spec fn ends_with(s: Seq<char>, suffix: Seq<char>) -> bool {
    s.len() >= suffix.len() && s.subrange(s.len() - suffix.len(), s.len() as int) == suffix
}

/// `s` with `.git` removed from its end as many times as it ends with it.
pub open spec fn trim_git_suffixes(s: Seq<char>) -> Seq<char>
    decreases s.len(),
{
    if ends_with(s, git_suffix()) {
        trim_git_suffixes(s.subrange(0, s.len() - 4))
    } else {
        s
    }
}

/// The name of the local copy of the repository at `url`: what follows the
/// last `/` of the URL, without trailing `.git`s.
pub open spec fn repo_name(url: Seq<char>) -> Seq<char> {
    trim_git_suffixes(url.subrange(last_slash(url) + 1, url.len() as int))
}

/// `last_slash` is the position of a `/`, after which none stands.
pub proof fn lemma_last_slash(s: Seq<char>)
    ensures
        -1 <= last_slash(s) < s.len(),
        last_slash(s) >= 0 ==> s[last_slash(s)] == '/',
        forall|i: int| last_slash(s) < i < s.len() ==> s[i] != '/',
        s.contains('/') ==> last_slash(s) >= 0,
    decreases s.len(),
{
    if s.len() > 0 {
        let p = s.drop_last();
        lemma_last_slash(p);
        if s.last() != '/' {
            assert forall|i: int| last_slash(s) < i < s.len() implies s[i] != '/' by {
                if i < s.len() - 1 {
                    assert(p[i] == s[i]);
                }
            }
            if s.contains('/') {
                let k = choose|k: int| 0 <= k < s.len() && s[k] == '/';
                assert(p[k] == '/');
            }
            if last_slash(s) >= 0 {
                assert(p[last_slash(s)] == s[last_slash(s)]);
            }
        }
    }
}

/// `s` with `.git` removed from its end as many times as it ends with it.
fn trim_git(s: &str) -> (res: String)
    ensures
        res@ == trim_git_suffixes(s@),
{
    let ghost r = s@;
    let mut end: usize = s.unicode_len();
    assert(r.subrange(0, end as int) =~= r);
    while end >= 4 && s.get_char(end - 4) == '.' && s.get_char(end - 3) == 'g' && s.get_char(
        end - 2,
    ) == 'i' && s.get_char(end - 1) == 't'
        invariant
            end <= r.len(),
            r == s@,
            trim_git_suffixes(r.subrange(0, end as int)) == trim_git_suffixes(r),
        decreases end,
    {
        let ghost cur = r.subrange(0, end as int);
        assert(cur.subrange(cur.len() - 4, cur.len() as int) =~= git_suffix());
        assert(cur.subrange(0, cur.len() - 4) =~= r.subrange(0, end - 4));
        end = end - 4;
    }
    let ghost cur = r.subrange(0, end as int);
    assert(!ends_with(cur, git_suffix())) by {
        if ends_with(cur, git_suffix()) {
            let tail = cur.subrange(cur.len() - 4, cur.len() as int);
            assert(tail[0] == r[end - 4]);
            assert(tail[1] == r[end - 3]);
            assert(tail[2] == r[end - 2]);
            assert(tail[3] == r[end - 1]);
        }
    }
    s.substring_char(0, end).to_owned()
}

/// The name of the local copy of the repository at `url`: what follows the
/// last `/` of the URL, with `.git` removed from its end as many times as it
/// ends with it.
pub fn repo_name_of(url: &str) -> (res: String)
    requires
        url@.contains('/'),
    ensures
        res@ == repo_name(url@),
{
    proof {
        lemma_last_slash(url@);
    }
    let len = url.unicode_len();
    let mut i: usize = len;
    while i > 0 && url.get_char(i - 1) != '/'
        invariant
            i <= len,
            len == url@.len(),
            0 <= last_slash(url@) < i,
            url@[last_slash(url@)] == '/',
        decreases i,
    {
        i = i - 1;
    }
    assert(last_slash(url@) == i - 1);
    let rest = url.substring_char(i, len);
    assert(rest@ =~= url@.subrange(last_slash(url@) + 1, url@.len() as int));
    trim_git(rest)
}

} // verus!
