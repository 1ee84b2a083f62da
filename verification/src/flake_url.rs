use vstd::prelude::*;
use vstd::string::StrSliceExecFns;
use vstd::string::StringExecFns;

verus! {

/// The text after the last `/` of `s`; all of `s` when it has none.
pub open spec fn after_last_slash(s: Seq<char>) -> Seq<char>
    decreases s.len(),
{
    if s.len() == 0 {
        s
    } else if s[s.len() - 1] == '/' {
        Seq::empty()
    } else {
        after_last_slash(s.subrange(0, s.len() - 1)).push(s[s.len() - 1])
    }
}

/// The text before the first `~` of `s`; all of `s` when it has none.
pub open spec fn before_first_tilde(s: Seq<char>) -> Seq<char>
    decreases s.len(),
{
    if s.len() == 0 {
        s
    } else if s[0] == '~' {
        Seq::empty()
    } else {
        seq![s[0]] + before_first_tilde(s.subrange(1, s.len() as int))
    }
}

/// The input key derived from a flake URL: what follows the last `/`, up to
/// the first `~`.
pub open spec fn key_of(url: Seq<char>) -> Seq<char> {
    before_first_tilde(after_last_slash(url))
}

/// The package attribute named by a flake URL's key.
pub open spec fn pkg_name_of(url: Seq<char>) -> Seq<char> {
    key_of(url) + ".packages.${system}.default"@
}

proof fn lemma_after_last_slash_at(s: Seq<char>, i: int)
    requires
        0 <= i <= s.len(),
        forall|k: int| i <= k < s.len() ==> s[k] != '/',
        i == 0 || s[i - 1] == '/',
    ensures
        after_last_slash(s) == s.subrange(i, s.len() as int),
    decreases s.len(),
{
    if s.len() == 0 {
        assert(s.subrange(0, 0) =~= s);
    } else if s[s.len() - 1] == '/' {
        assert(i == s.len());
        assert(s.subrange(i, s.len() as int) =~= Seq::<char>::empty());
    } else {
        let t = s.subrange(0, s.len() - 1);
        lemma_after_last_slash_at(t, i);
        assert(t.subrange(i, t.len() as int).push(s[s.len() - 1]) =~= s.subrange(
            i,
            s.len() as int,
        ));
    }
}

proof fn lemma_before_first_tilde_at(s: Seq<char>, j: int)
    requires
        0 <= j <= s.len(),
        forall|k: int| 0 <= k < j ==> s[k] != '~',
        j == s.len() || s[j] == '~',
    ensures
        before_first_tilde(s) == s.subrange(0, j),
    decreases j,
{
    if j == 0 {
        assert(s.subrange(0, 0) =~= Seq::<char>::empty());
    } else {
        let t = s.subrange(1, s.len() as int);
        lemma_before_first_tilde_at(t, j - 1);
        assert(seq![s[0]] + t.subrange(0, j - 1) =~= s.subrange(0, j));
    }
}

/// Splits a flake URL into the key it will be bound to and the URL itself:
/// the key is the last `/`-separated segment, cut at the first `~`.
pub fn parse_flake_input(url: &str) -> (r: (String, String))
    ensures
        r.0@ == key_of(url@),
        r.1@ == url@,
{
    let n: usize = url.unicode_len();
    let mut start: usize = n;
    while start > 0 && url.get_char(start - 1) != '/'
        invariant
            start <= n,
            n == url@.len(),
            forall|k: int| start <= k < n ==> url@[k] != '/',
        decreases start,
    {
        start -= 1;
    }
    let mut end: usize = start;
    while end < n && url.get_char(end) != '~'
        invariant
            start <= end <= n,
            n == url@.len(),
            forall|k: int| start <= k < end ==> url@[k] != '~',
        decreases n - end,
    {
        end += 1;
    }
    proof {
        lemma_after_last_slash_at(url@, start as int);
        let sub = url@.subrange(start as int, n as int);
        lemma_before_first_tilde_at(sub, end - start);
        assert(sub.subrange(0, end - start) =~= url@.subrange(start as int, end as int));
    }
    let key: &str = url.substring_char(start, end);
    (String::from_str(key), String::from_str(url))
}

/// The package string a flake URL contributes to the shell: the key's
/// default package under the current system.
pub fn parse_input_to_pkg_string(url: &str) -> (r: String)
    ensures
        r@ == pkg_name_of(url@),
{
    let (key, _url) = parse_flake_input(url);
    key.concat(".packages.${system}.default")
}

} // verus!
