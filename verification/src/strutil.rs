use vstd::prelude::*;

verus! {

/// Characters that token trimming strips from either end of a token.
pub open spec fn is_space_char(c: char) -> bool {
    c == ' ' || c == '\t' || c == '\n' || c == '\r'
}

/// A sequence of characters that contains no `+` separator.
pub open spec fn plus_free(s: Seq<char>) -> bool {
    forall|i: int| 0 <= i < s.len() ==> s[i] != '+'
}

/// Splitting a string on `+`. The result always has at least one part;
/// an empty string yields one empty part.
pub open spec fn split_plus(s: Seq<char>) -> Seq<Seq<char>>
    decreases s.len(),
{
    if s.len() == 0 {
        seq![Seq::<char>::empty()]
    } else if s[0] == '+' {
        seq![Seq::<char>::empty()] + split_plus(s.drop_first())
    } else {
        let r = split_plus(s.drop_first());
        r.update(0, seq![s[0]] + r[0])
    }
}

/// Joining parts with a `+` separator between consecutive parts.
pub open spec fn join_plus(ts: Seq<Seq<char>>) -> Seq<char>
    decreases ts.len(),
{
    if ts.len() == 0 {
        Seq::<char>::empty()
    } else if ts.len() == 1 {
        ts[0]
    } else {
        ts[0] + seq!['+'] + join_plus(ts.drop_first())
    }
}

/// A separator-free string splits into exactly itself.
pub proof fn lemma_split_no_sep(s: Seq<char>)
    requires
        plus_free(s),
    ensures
        split_plus(s) =~~= seq![s],
    decreases s.len(),
{
    if s.len() == 0 {
        assert(split_plus(s) =~~= seq![s]);
    } else {
        assert(s[0] != '+');
        assert(plus_free(s.drop_first()));
        lemma_split_no_sep(s.drop_first());
        assert(seq![s[0]] + s.drop_first() =~= s);
    }
}

/// Splitting distributes over the first separator when the head is
/// separator-free.
pub proof fn lemma_split_concat(a: Seq<char>, b: Seq<char>)
    requires
        plus_free(a),
    ensures
        split_plus(a + seq!['+'] + b) =~~= seq![a] + split_plus(b),
    decreases a.len(),
{
    let s = a + seq!['+'] + b;
    if a.len() == 0 {
        assert(s =~= seq!['+'] + b);
        assert(s[0] == '+');
        assert(s.drop_first() =~= b);
        assert(split_plus(s) =~~= seq![Seq::<char>::empty()] + split_plus(b));
        assert(seq![a] =~~= seq![Seq::<char>::empty()]);
    } else {
        assert(s[0] == a[0]);
        assert(a[0] != '+');
        assert(s.drop_first() =~= a.drop_first() + seq!['+'] + b);
        assert(plus_free(a.drop_first()));
        lemma_split_concat(a.drop_first(), b);
        let r = split_plus(s.drop_first());
        assert(r =~~= seq![a.drop_first()] + split_plus(b));
        assert(r[0] == a.drop_first());
        assert(seq![s[0]] + r[0] =~= a);
        assert(split_plus(s) =~~= r.update(0, a));
        assert(r.update(0, a) =~~= seq![a] + split_plus(b));
    }
}

/// Splitting inverts joining, provided every part is separator-free.
pub proof fn lemma_split_join(ts: Seq<Seq<char>>)
    requires
        ts.len() >= 1,
        forall|i: int| 0 <= i < ts.len() ==> plus_free(#[trigger] ts[i]),
    ensures
        split_plus(join_plus(ts)) =~~= ts,
    decreases ts.len(),
{
    if ts.len() == 1 {
        lemma_split_no_sep(ts[0]);
        assert(split_plus(join_plus(ts)) =~~= seq![ts[0]]);
        assert(seq![ts[0]] =~~= ts);
    } else {
        lemma_split_concat(ts[0], join_plus(ts.drop_first()));
        assert(forall|i: int|
            0 <= i < ts.drop_first().len() ==> plus_free(#[trigger] ts.drop_first()[i]));
        lemma_split_join(ts.drop_first());
        assert(seq![ts[0]] + ts.drop_first() =~~= ts);
    }
}

/// Appending one more part to a non-empty join adds a separator first.
pub proof fn lemma_join_snoc(ts: Seq<Seq<char>>, t: Seq<char>)
    ensures
        ts.len() == 0 ==> join_plus(ts.push(t)) =~= t,
        ts.len() >= 1 ==> join_plus(ts.push(t)) =~= join_plus(ts) + seq!['+'] + t,
    decreases ts.len(),
{
    if ts.len() == 0 {
        assert(ts.push(t)[0] == t);
    } else if ts.len() == 1 {
        assert(ts.push(t).drop_first() =~~= seq![t]);
        assert(join_plus(seq![t]) == t);
    } else {
        lemma_join_snoc(ts.drop_first(), t);
        assert(ts.push(t).drop_first() =~~= ts.drop_first().push(t));
        assert(join_plus(ts.push(t)) =~= ts[0] + seq!['+'] + join_plus(ts.drop_first().push(t)));
        assert(ts[0] + seq!['+'] + (join_plus(ts.drop_first()) + seq!['+'] + t) =~= (ts[0]
            + seq!['+'] + join_plus(ts.drop_first())) + seq!['+'] + t);
    }
}

/// Stripping leading space characters.
pub open spec fn trim_start(s: Seq<char>) -> Seq<char>
    decreases s.len(),
{
    if s.len() > 0 && is_space_char(s[0]) {
        trim_start(s.drop_first())
    } else {
        s
    }
}

/// Stripping trailing space characters.
pub open spec fn trim_end(s: Seq<char>) -> Seq<char>
    decreases s.len(),
{
    if s.len() > 0 && is_space_char(s[s.len() - 1]) {
        trim_end(s.drop_last())
    } else {
        s
    }
}

/// Stripping space characters from both ends of a token.
pub open spec fn spec_trim(s: Seq<char>) -> Seq<char> {
    trim_end(trim_start(s))
}

/// A token without space characters at either end trims to itself.
pub proof fn lemma_trim_identity(s: Seq<char>)
    requires
        s.len() == 0 || (!is_space_char(s[0]) && !is_space_char(s[s.len() - 1])),
    ensures
        spec_trim(s) == s,
{
}

fn is_space_exec(c: char) -> (r: bool)
    ensures
        r == is_space_char(c),
{
    c == ' ' || c == '\t' || c == '\n' || c == '\r'
}

/// Exact character-for-character equality of two string slices.
pub fn str_eq(a: &str, b: &str) -> (r: bool)
    ensures
        r == (a@ == b@),
{
    let n = a.unicode_len();
    let m = b.unicode_len();
    if n != m {
        proof {
            assert(a@.len() != b@.len());
        }
        return false;
    }
    let mut i: usize = 0;
    while i < n
        invariant
            n == a@.len(),
            n == b@.len(),
            i <= n,
            forall|j: int| 0 <= j < i ==> a@[j] == b@[j],
        decreases n - i,
    {
        if a.get_char(i) != b.get_char(i) {
            return false;
        }
        i = i + 1;
    }
    proof {
        assert(a@ =~= b@);
    }
    true
}

/// Splits a string on `+`, keeping empty parts, as `split_plus` describes.
pub fn split_plus_exec(s: &str) -> (r: Vec<String>)
    ensures
        r.deep_view() == split_plus(s@),
        r.len() >= 1,
    decreases s@.len(),
{
    let n = s.unicode_len();
    let mut i: usize = 0;
    let mut found = false;
    while i < n && !found
        invariant
            n == s@.len(),
            i <= n,
            forall|j: int| 0 <= j < i ==> s@[j] != '+',
            found ==> i < n && s@[i as int] == '+',
        decreases n - i + (if found { 0int } else { 1int }),
    {
        if s.get_char(i) == '+' {
            found = true;
        } else {
            i = i + 1;
        }
    }
    if !found {
        proof {
            assert(plus_free(s@));
            lemma_split_no_sep(s@);
        }
        let mut v: Vec<String> = Vec::new();
        v.push(s.to_owned());
        proof {
            assert(v.deep_view() =~~= split_plus(s@));
        }
        v
    } else {
        let head = s.substring_char(0, i);
        let tail = s.substring_char(i + 1, n);
        proof {
            assert(head@ =~= s@.subrange(0, i as int));
            assert(plus_free(head@));
            assert(head@ + seq!['+'] + tail@ =~= s@);
            lemma_split_concat(head@, tail@);
        }
        let rest = split_plus_exec(tail);
        let mut v: Vec<String> = Vec::new();
        v.push(head.to_owned());
        let mut k: usize = 0;
        while k < rest.len()
            invariant
                v.len() == k + 1,
                k <= rest.len(),
                v@[0]@ == head@,
                forall|j: int| 1 <= j < v.len() ==> v@[j]@ == rest@[j - 1]@,
            decreases rest.len() - k,
        {
            let piece = &rest[k];
            v.push(piece.clone());
            k = k + 1;
        }
        proof {
            assert(forall|j: int|
                0 <= j < rest.len() ==> rest.deep_view()[j] == rest@[j]@);
            assert(forall|j: int| 0 <= j < v.len() ==> v.deep_view()[j] == v@[j]@);
            assert(v.deep_view() =~~= seq![head@] + rest.deep_view());
            assert(v.deep_view() =~~= split_plus(s@));
        }
        v
    }
}

/// Trims space characters from both ends, as `spec_trim` describes.
pub fn trim_exec(s: &str) -> (r: String)
    ensures
        r@ == spec_trim(s@),
{
    let n = s.unicode_len();
    let mut a: usize = 0;
    proof {
        assert(s@.skip(0) =~= s@);
    }
    while a < n && is_space_exec(s.get_char(a))
        invariant
            n == s@.len(),
            a <= n,
            trim_start(s@) == trim_start(s@.skip(a as int)),
        decreases n - a,
    {
        proof {
            let t = s@.skip(a as int);
            assert(t[0] == s@[a as int]);
            assert(t.drop_first() =~= s@.skip(a as int + 1));
        }
        a = a + 1;
    }
    proof {
        let t = s@.skip(a as int);
        if a < n {
            assert(t[0] == s@[a as int]);
            assert(!is_space_char(t[0]));
        }
        assert(trim_start(s@) == t);
    }
    let mut b: usize = n;
    proof {
        assert(s@.subrange(a as int, n as int) =~= s@.skip(a as int));
    }
    while b > a && is_space_exec(s.get_char(b - 1))
        invariant
            n == s@.len(),
            a <= b <= n,
            trim_start(s@) == s@.skip(a as int),
            trim_end(s@.skip(a as int)) == trim_end(s@.subrange(a as int, b as int)),
        decreases b,
    {
        proof {
            let t = s@.subrange(a as int, b as int);
            assert(t.len() == b - a);
            assert(t[t.len() - 1] == s@[b as int - 1]);
            assert(t.drop_last() =~= s@.subrange(a as int, b as int - 1));
        }
        b = b - 1;
    }
    proof {
        let t = s@.subrange(a as int, b as int);
        if b > a {
            assert(t[t.len() - 1] == s@[b as int - 1]);
            assert(!is_space_char(t[t.len() - 1]));
        }
        assert(trim_end(s@.skip(a as int)) == t);
    }
    let r = s.substring_char(a, b);
    r.to_owned()
}

} // verus!
