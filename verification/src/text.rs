use vstd::prelude::*;

verus! {

/// ASCII whitespace: space, tab, line feed, carriage return.
pub open spec fn is_space(b: u8) -> bool {
    b == 32 || b == 9 || b == 10 || b == 13
}

/// `s` without its leading ASCII whitespace.
pub open spec fn trim_front(s: Seq<u8>) -> Seq<u8>
    decreases s.len(),
{
    if s.len() > 0 && is_space(s[0]) {
        trim_front(s.subrange(1, s.len() as int))
    } else {
        s
    }
}

/// `s` without its trailing ASCII whitespace.
pub open spec fn trim_back(s: Seq<u8>) -> Seq<u8>
    decreases s.len(),
{
    if s.len() > 0 && is_space(s[s.len() - 1]) {
        trim_back(s.subrange(0, s.len() - 1))
    } else {
        s
    }
}

/// `s` without leading and trailing ASCII whitespace.
pub open spec fn trimmed(s: Seq<u8>) -> Seq<u8> {
    trim_back(trim_front(s))
}

proof fn lemma_trim_front_at(s: Seq<u8>, i: int)
    requires
        0 <= i <= s.len(),
        forall|k: int| 0 <= k < i ==> is_space(s[k]),
        i == s.len() || !is_space(s[i]),
    ensures
        trim_front(s) == s.subrange(i, s.len() as int),
    decreases i,
{
    if i == 0 {
        assert(s.subrange(0, s.len() as int) =~= s);
    } else {
        let t = s.subrange(1, s.len() as int);
        lemma_trim_front_at(t, i - 1);
        assert(t.subrange(i - 1, t.len() as int) =~= s.subrange(i, s.len() as int));
    }
}

proof fn lemma_trim_back_at(s: Seq<u8>, j: int)
    requires
        0 <= j <= s.len(),
        forall|k: int| j <= k < s.len() ==> is_space(s[k]),
        j == 0 || !is_space(s[j - 1]),
    ensures
        trim_back(s) == s.subrange(0, j),
    decreases s.len() - j,
{
    if j == s.len() {
        if s.len() > 0 && is_space(s[s.len() - 1]) {
            let t = s.subrange(0, s.len() - 1);
            lemma_trim_back_at(t, j - 1);
            assert(t.subrange(0, j - 1) =~= s.subrange(0, j - 1));
        } else {
            assert(s.subrange(0, j) =~= s);
        }
    } else {
        if s.len() > 0 && is_space(s[s.len() - 1]) {
            let t = s.subrange(0, s.len() - 1);
            lemma_trim_back_at(t, j);
            assert(t.subrange(0, j) =~= s.subrange(0, j));
        }
    }
}

/// The bytes before the first `.` of `s`; all of `s` when it has none.
pub open spec fn before_first_dot(s: Seq<u8>) -> Seq<u8>
    decreases s.len(),
{
    if s.len() == 0 {
        s
    } else if s[0] == 46 {
        Seq::empty()
    } else {
        seq![s[0]] + before_first_dot(s.subrange(1, s.len() as int))
    }
}

/// The first segment of a dotted attribute path: trimmed, cut at the first
/// `.`, and trimmed again. The attribute it binds, whatever stands after
/// the dot and however the path is spaced.
pub open spec fn path_head(p: Seq<u8>) -> Seq<u8> {
    trimmed(before_first_dot(trimmed(p)))
}

proof fn lemma_before_first_dot_at(s: Seq<u8>, j: int)
    requires
        0 <= j <= s.len(),
        forall|k: int| 0 <= k < j ==> s[k] != 46,
        j == s.len() || s[j] == 46,
    ensures
        before_first_dot(s) == s.subrange(0, j),
    decreases j,
{
    if j == 0 {
        assert(s.subrange(0, 0) =~= Seq::<u8>::empty());
    } else {
        let t = s.subrange(1, s.len() as int);
        lemma_before_first_dot_at(t, j - 1);
        assert(seq![s[0]] + t.subrange(0, j - 1) =~= s.subrange(0, j));
    }
}

/// The first segment of a dotted attribute path, as `path_head` defines it.
pub fn path_head_vec(p: &Vec<u8>) -> (r: Vec<u8>)
    ensures
        r@ == path_head(p@),
{
    let t = trim_bytes(p);
    let n: usize = t.len();
    let mut j: usize = 0;
    while j < n && t[j] != 46
        invariant
            j <= n,
            n == t.len(),
            forall|k: int| 0 <= k < j ==> t@[k] != 46,
        decreases n - j,
    {
        j += 1;
    }
    proof {
        lemma_before_first_dot_at(t@, j as int);
    }
    let mut head: Vec<u8> = Vec::new();
    let mut i: usize = 0;
    while i < j
        invariant
            i <= j <= t.len(),
            head@ == t@.subrange(0, i as int),
        decreases j - i,
    {
        head.push(t[i]);
        proof {
            assert(t@.subrange(0, i + 1 as int) =~= t@.subrange(0, i as int).push(t@[i as int]));
        }
        i += 1;
    }
    trim_bytes(&head)
}

/// Whether a byte is ASCII whitespace.
pub fn is_space_byte(b: u8) -> (r: bool)
    ensures
        r == is_space(b),
{
    b == 32 || b == 9 || b == 10 || b == 13
}

/// A copy of `v` without leading and trailing ASCII whitespace.
pub fn trim_bytes(v: &Vec<u8>) -> (r: Vec<u8>)
    ensures
        r@ == trimmed(v@),
{
    let n: usize = v.len();
    let mut start: usize = 0;
    while start < n && is_space_byte(v[start])
        invariant
            n == v.len(),
            start <= n,
            forall|k: int| 0 <= k < start ==> is_space(v@[k]),
        decreases n - start,
    {
        start += 1;
    }
    let mut end: usize = n;
    while end > start && is_space_byte(v[end - 1])
        invariant
            n == v.len(),
            start <= end <= n,
            forall|k: int| end <= k < n ==> is_space(v@[k]),
        decreases end,
    {
        end -= 1;
    }
    proof {
        lemma_trim_front_at(v@, start as int);
        let t = v@.subrange(start as int, n as int);
        lemma_trim_back_at(t, end - start);
        assert(t.subrange(0, end - start) =~= v@.subrange(start as int, end as int));
    }
    let mut r: Vec<u8> = Vec::new();
    let mut i: usize = start;
    while i < end
        invariant
            n == v.len(),
            start <= i <= end <= n,
            r@ == v@.subrange(start as int, i as int),
        decreases end - i,
    {
        r.push(v[i]);
        proof {
            assert(v@.subrange(start as int, i + 1 as int) =~= v@.subrange(
                start as int,
                i as int,
            ).push(v@[i as int]));
        }
        i += 1;
    }
    r
}

/// Whether two byte vectors hold the same bytes.
pub fn bytes_eq(a: &Vec<u8>, b: &Vec<u8>) -> (r: bool)
    ensures
        r == (a@ == b@),
{
    if a.len() != b.len() {
        return false;
    }
    let mut i: usize = 0;
    while i < a.len()
        invariant
            a@.len() == b@.len(),
            i <= a.len(),
            forall|k: int| 0 <= k < i ==> a@[k] == b@[k],
        decreases a.len() - i,
    {
        if a[i] != b[i] {
            return false;
        }
        i += 1;
    }
    proof {
        assert(a@ =~= b@);
    }
    true
}

/// Appends all of `v` to `out`.
pub fn append_bytes(out: &mut Vec<u8>, v: &Vec<u8>)
    ensures
        final(out)@ == old(out)@ + v@,
{
    let mut j: usize = 0;
    while j < v.len()
        invariant
            j <= v.len(),
            out@ == old(out)@ + v@.take(j as int),
        decreases v.len() - j,
    {
        out.push(v[j]);
        proof {
            assert(v@.take(j + 1 as int) =~= v@.take(j as int).push(v@[j as int]));
        }
        j += 1;
    }
    proof {
        assert(v@.take(v.len() as int) =~= v@);
    }
}

} // verus!
